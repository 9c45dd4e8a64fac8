//! The store: the log's bytes, the index built by replaying them, the read
//! cache, and the count of wasteful operations that drives compaction.

use vstd::prelude::*;
use vstd::hash_map::StringHashMap;
use crate::cache::{
    cache_capacity, cache_entries, cache_get, cache_recency, cache_new, cache_pop, cache_put, StringCache,
};
use crate::codec::{
    decode_record, encode_record, fits, fits_format, framed, msgpack_record, msgpack_record_at, text_opt,
};
use crate::error::{KvError, Result};
use crate::replay::{
    contents, framed_from, index_sound, is_step, lemma_append_record, lemma_framed_replays_to_end,
    lemma_index_steps, lemma_live_from_len, lemma_sound_extends, live_from, live_records, lemma_step_after, live_at, log_index, replay_end,
    replay_from, tail, value_at,
};

verus! {

/// How many values the read cache holds.
pub const CACHE_CAPACITY: usize = 100;

/// How many overwrites and removals are allowed before the log is compacted.
pub const COMPACTION_THRESHOLD: u32 = 1000;

/// The value of `k` in `m`, if any.
pub open spec fn lookup(m: Map<Seq<char>, Seq<char>>, k: Seq<char>) -> Option<Seq<char>> {
    if m.contains_key(k) {
        Some(m[k])
    } else {
        None
    }
}

/// The index `m` holds the offsets of `idx`, key for key.
pub open spec fn index_matches(m: Map<Seq<char>, usize>, idx: Map<Seq<char>, nat>) -> bool {
    &&& forall|k: Seq<char>| #[trigger] m.contains_key(k) <==> idx.contains_key(k)
    &&& forall|k: Seq<char>| #[trigger] m.contains_key(k) ==> m[k] as nat == idx[k]
}

/// Whether an operation is counted toward compaction and brings the count past
/// the threshold, so that the log is compacted.
pub open spec fn compacts(count: nat, wasteful: bool) -> bool {
    wasteful && count + 1 > COMPACTION_THRESHOLD
}

/// The count after an operation: a wasteful one adds one, and a compaction
/// starts the count again from zero.
pub open spec fn next_count(count: nat, wasteful: bool) -> nat {
    if !wasteful {
        count
    } else if compacts(count, wasteful) {
        0
    } else {
        count + 1
    }
}

/// The live records of `log`, copied in their order into a new log, and the
/// index of the new log.
fn compacted(log: &Vec<u8>, index: &StringHashMap<usize>) -> (r: (Vec<u8>, StringHashMap<usize>))
    requires
        framed_from(log@, 0),
        index_sound(log@, log_index(log@)),
        index_matches(index@, log_index(log@)),
    ensures
        framed_from(r.0@, 0),
        index_sound(r.0@, log_index(r.0@)),
        index_matches(r.1@, log_index(r.0@)),
        contents(r.0@) == contents(log@),
        r.0@ == live_records(log@),
        r.0@.len() <= log@.len(),
{
    let mut new_log: Vec<u8> = Vec::new();
    let mut new_index: StringHashMap<usize> = StringHashMap::new();
    let mut pos: usize = 0;
    let ghost old_idx = log_index(log@);
    proof {
        lemma_index_steps(log@, 0, Map::empty());
    }
    assert(index_matches(new_index@, log_index(new_log@)));
    while pos < log.len()
        invariant
            pos <= log@.len(),
            old_idx == log_index(log@),
            framed_from(log@, pos as nat),
            new_log@ + live_from(log@, pos as nat) == live_records(log@),
            index_sound(log@, old_idx),
            index_matches(index@, old_idx),
            forall|k: Seq<char>| #[trigger]
                old_idx.contains_key(k) ==> old_idx[k] < pos || is_step(log@, pos as nat, old_idx[k]),
            framed_from(new_log@, 0),
            index_sound(new_log@, log_index(new_log@)),
            index_matches(new_index@, log_index(new_log@)),
            forall|k: Seq<char>| #[trigger]
                log_index(new_log@).contains_key(k) <==> (old_idx.contains_key(k) && old_idx[k] < pos),
            forall|k: Seq<char>| #[trigger]
                log_index(new_log@).contains_key(k) ==> value_at(new_log@, log_index(new_log@)[k])
                    == value_at(log@, old_idx[k]),
        decreases log@.len() - pos,
    {
        match decode_record(log, pos) {
            Ok((key, value, left)) => {
                let n: usize = log.len() - pos - left;
                let ghost new_idx = log_index(new_log@);
                let ghost before = new_log@;
                let live = match index.get(key.as_str()) {
                    Some(off) => *off == pos,
                    None => false,
                };
                proof {
                    assert forall|k: Seq<char>| #[trigger]
                        old_idx.contains_key(k) && old_idx[k] == pos implies k == key@ by {
                        assert(live_at(log@, old_idx[k], k));
                    }
                    assert forall|k: Seq<char>| #[trigger]
                        old_idx.contains_key(k) implies old_idx[k] < pos + n || is_step(
                        log@,
                        (pos + n) as nat,
                        old_idx[k],
                    ) by {
                        if old_idx[k] >= pos && old_idx[k] != pos {
                            assert(is_step(log@, (pos + n) as nat, old_idx[k]));
                            lemma_step_after(log@, (pos + n) as nat, old_idx[k]);
                        }
                    }
                    assert forall|k: Seq<char>| #[trigger]
                        old_idx.contains_key(k) && pos <= old_idx[k] < pos + n implies old_idx[k]
                        == pos by {
                        if old_idx[k] != pos {
                            assert(is_step(log@, (pos + n) as nat, old_idx[k]));
                            lemma_step_after(log@, (pos + n) as nat, old_idx[k]);
                        }
                    }
                }
                if live {
                    let ghost b = log@.subrange(pos as int, pos + n);
                    proof {
                        assert(live_at(log@, pos as nat, key@));
                        lemma_append_record(new_log@, b, key@, text_opt(value));
                        assert(log_index(new_log@ + b) == new_idx.insert(key@, new_log@.len()));
                        assert(b + Seq::<u8>::empty() =~= b);
                    }
                    let at: usize = new_log.len();
                    let ghost prev = new_log@;
                    append_range(&mut new_log, log, pos, pos + n);
                    assert(new_log@ == prev + b);
                    new_index.insert(key, at);
                    proof {
                        assert forall|k: Seq<char>| #[trigger]
                            log_index(new_log@).contains_key(k) implies value_at(
                                new_log@,
                                log_index(new_log@)[k],
                            ) == value_at(log@, old_idx[k]) by {
                            if k != key@ {
                                assert(new_idx.contains_key(k));
                            }
                        }
                    }
                }
                proof {
                    let chunk = if live {
                        log@.subrange(pos as int, pos + n)
                    } else {
                        Seq::<u8>::empty()
                    };
                    assert(live_from(log@, pos as nat) == chunk + live_from(log@, (pos + n) as nat));
                    assert(new_log@ =~= before + chunk);
                    assert(new_log@ + live_from(log@, (pos + n) as nat) =~= before + live_from(
                        log@,
                        pos as nat,
                    ));
                }
                pos = pos + n;
            },
            Err(_) => {
                pos = log.len();
            },
        }
    }
    proof {
        assert forall|k: Seq<char>| #[trigger] old_idx.contains_key(k) implies old_idx[k] < pos by {
            assert(live_at(log@, old_idx[k], k));
        }
        assert(contents(new_log@) =~= contents(log@));
        assert(new_log@ =~= new_log@ + live_from(log@, pos as nat));
        lemma_live_from_len(log@, 0);
    }
    (new_log, new_index)
}

/// A key-value store over an append-only log of records.
pub struct KvStore {
    log: Vec<u8>,
    index: StringHashMap<usize>,
    cache: StringCache,
    compaction_counter: u32,
    junk: Vec<u8>,
    junk_at: usize,
}

impl View for KvStore {
    type V = Map<Seq<char>, Seq<char>>;

    /// The store's contents are what replaying its log gives.
    closed spec fn view(&self) -> Map<Seq<char>, Seq<char>> {
        contents(self.log@)
    }
}

/// Appends `src[from..to]` to `dst`.
fn append_range(dst: &mut Vec<u8>, src: &Vec<u8>, from: usize, to: usize)
    requires
        from <= to <= src@.len(),
    ensures
        final(dst)@ == old(dst)@ + src@.subrange(from as int, to as int),
{
    let mut i: usize = from;
    while i < to
        invariant
            from <= i <= to,
            to <= src@.len(),
            dst@ == old(dst)@ + src@.subrange(from as int, i as int),
        decreases to - i,
    {
        dst.push(src[i]);
        i = i + 1;
        assert(dst@ =~= old(dst)@ + src@.subrange(from as int, i as int));
    }
}

impl KvStore {
    /// The bytes of the log.
    pub closed spec fn log_view(&self) -> Seq<u8> {
        self.log@.subrange(0, self.junk_at as int) + self.junk@ + self.log@.subrange(
            self.junk_at as int,
            self.log@.len() as int,
        )
    }

    /// The records of the log that the store reads: the log without the bytes
    /// at which replay stopped when the store was opened. Records appended
    /// after those bytes stand behind them in the log.
    pub closed spec fn record_log(&self) -> Seq<u8> {
        self.log@
    }

    /// The overwrites and removals counted since the last compaction.
    pub closed spec fn counter(&self) -> nat {
        self.compaction_counter as nat
    }

    /// The keys of the read cache, least recently used first.
    pub closed spec fn recency(&self) -> Seq<Seq<char>> {
        cache_recency(self.cache)
    }

    /// The values held by the read cache.
    pub closed spec fn cached(&self) -> Map<Seq<char>, Seq<char>> {
        cache_entries(self.cache)
    }

    /// The log is whole records, the index is what replaying it gives, and
    /// the counter has not passed the threshold.
    pub closed spec fn log_wf(&self) -> bool {
        &&& framed_from(self.log@, 0)
        &&& index_sound(self.log@, log_index(self.log@))
        &&& index_matches(self.index@, log_index(self.log@))
        &&& self.compaction_counter <= COMPACTION_THRESHOLD
        &&& self.junk_at <= self.log@.len()
    }

    /// The store is well formed: so is its log, and every cached value is
    /// the key's value in the store.
    pub closed spec fn wf(&self) -> bool {
        &&& self.log_wf()
        &&& cache_capacity(self.cache) == CACHE_CAPACITY
        &&& cache_entries(self.cache).dom().finite()
        &&& cache_entries(self.cache).dom().len() <= CACHE_CAPACITY
        &&& forall|k: Seq<char>| #[trigger]
            cache_entries(self.cache).contains_key(k) ==> self@.contains_key(k)
                && self@[k] == cache_entries(self.cache)[k]
    }

    /// Opens a store on the bytes of a log, replaying its records from the
    /// start. Replay stops at the first offset where no record decodes; the
    /// bytes from there on stay in the log, unread, and records appended
    /// later stand behind them.
    pub fn open(data: Vec<u8>) -> (r: KvStore)
        ensures
            r.wf(),
            r.log_view() == data@,
            r.record_log() == data@.subrange(0, replay_end(data@) as int),
            r@ == contents(data@),
            r.counter() == 0,
            r.cached() == Map::<Seq<char>, Seq<char>>::empty(),
    {
        let mut log: Vec<u8> = Vec::new();
        let mut index: StringHashMap<usize> = StringHashMap::new();
        let mut pos: usize = 0;
        let mut done: bool = false;
        let ghost empty = Map::<Seq<char>, nat>::empty();
        assert(log@ =~= data@.subrange(0, 0));
        assert(index_matches(index@, log_index(log@)));
        while !done && pos < data.len()
            invariant
                pos <= data@.len(),
                log@ == data@.subrange(0, pos as int),
                framed_from(log@, 0),
                index_sound(log@, log_index(log@)),
                index_matches(index@, log_index(log@)),
                replay_from(data@, 0, empty) == replay_from(data@, pos as nat, log_index(log@)),
                done ==> replay_from(data@, pos as nat, log_index(log@)) == (
                    log_index(log@),
                    pos as nat,
                ),
            decreases data@.len() - pos + (if done {
                0int
            } else {
                1int
            }),
        {
            match decode_record(&data, pos) {
                Ok((key, value, left)) => {
                    let n: usize = data.len() - pos - left;
                    if n == 0 {
                        done = true;
                    } else {
                        let ghost b = data@.subrange(pos as int, pos + n);
                        let ghost v = text_opt(value);
                        proof {
                            assert(b + Seq::<u8>::empty() =~= b);
                            assert(framed(b, key@, v));
                            lemma_append_record(log@, b, key@, v);
                            assert(data@.subrange(0, pos + n) =~= log@ + b);
                        }
                        append_range(&mut log, &data, pos, pos + n);
                        match value {
                            Some(_) => index.insert(key, pos),
                            None => index.remove(key.as_str()),
                        }
                        pos = pos + n;
                    }
                },
                Err(_) => {
                    done = true;
                },
            }
        }
        proof {
            let ext = data@.subrange(pos as int, data@.len() as int);
            assert(data@ =~= log@ + ext);
            lemma_sound_extends(log@, ext, log_index(log@));
            assert(contents(data@) =~= contents(log@));
        }
        let mut junk: Vec<u8> = Vec::new();
        append_range(&mut junk, &data, pos, data.len());
        proof {
            assert(log@.subrange(0, pos as int) + junk@ + log@.subrange(
                pos as int,
                log@.len() as int,
            ) =~= data@);
        }
        KvStore {
            log,
            index,
            cache: cache_new(CACHE_CAPACITY),
            compaction_counter: 0,
            junk,
            junk_at: pos,
        }
    }

    /// The value of `key`, if the store holds one. The cache is asked first;
    /// otherwise the index gives the offset of the key's record, which is
    /// decoded and its value cached. A missing key is no error.
    pub fn get(&mut self, key: String) -> (r: Result<Option<String>>)
        requires
            old(self).wf(),
        ensures
            final(self).wf(),
            final(self)@ == old(self)@,
            final(self).log_view() == old(self).log_view(),
            final(self).record_log() == old(self).record_log(),
            final(self).counter() == old(self).counter(),
            r matches Ok(v) && text_opt(v) == lookup(old(self)@, key@),
            old(self)@.contains_key(key@) ==> final(self).cached().contains_key(key@)
                && final(self).cached()[key@] == old(self)@[key@],
            old(self)@.contains_key(key@) ==> final(self).recency().len() > 0
                && final(self).recency().last() == key@,
            !old(self)@.contains_key(key@) ==> final(self).cached() == old(self).cached(),
    {
        match cache_get(&mut self.cache, &key) {
            Some(v) => {
                return Ok(Some(v));
            },
            None => {},
        }
        let off: usize = match self.index.get(key.as_str()) {
            Some(o) => *o,
            None => {
                return Ok(None);
            },
        };
        proof {
            assert(log_index(self.log@).contains_key(key@));
        }
        match self.read_log_entry(off) {
            Ok(Some(v)) => {
                cache_put(&mut self.cache, key, v.clone());
                Ok(Some(v))
            },
            other => other,
        }
    }

    /// Decodes the record at offset `off` and gives its value: `None` for a
    /// removal record.
    fn read_log_entry(&self, off: usize) -> (r: Result<Option<String>>)
        ensures
            off > self.log@.len() ==> r matches Err(KvError::DecodeError(None)),
            off <= self.log@.len() ==> match msgpack_record_at(tail(self.log@, off as nat)) {
                Some((_, Some(v), _)) => r matches Ok(Some(s)) && s@ == v,
                Some((_, None, _)) => r matches Ok(None),
                None => r matches Err(KvError::DecodeError(_)),
            },
    {
        if off > self.log.len() {
            return Err(KvError::DecodeError(None));
        }
        match decode_record(&self.log, off) {
            Ok((_, Some(v), _)) => Ok(Some(v)),
            Ok((_, None, _)) => Ok(None),
            Err(e) => Err(KvError::DecodeError(Some(e))),
        }
    }

    /// Counts a wasteful operation; once the count passes the threshold the
    /// log is rewritten with its live records only and the count starts again.
    fn compact(&mut self)
        requires
            old(self).log_wf(),
        ensures
            final(self).log_wf(),
            final(self)@ == old(self)@,
            final(self).cache == old(self).cache,
            final(self).counter() == next_count(old(self).counter(), true),
            !compacts(old(self).counter(), true) ==> final(self).log@ == old(self).log@
                && final(self).junk == old(self).junk && final(self).junk_at == old(self).junk_at,
            compacts(old(self).counter(), true) ==> final(self).log@ == live_records(old(self).log@)
                && final(self).log@.len() <= old(self).log@.len() && final(self).log_view()
                == final(self).log@,
    {
        self.compaction_counter = self.compaction_counter + 1;
        if self.compaction_counter > COMPACTION_THRESHOLD {
            let (log, index) = compacted(&self.log, &self.index);
            self.log = log;
            self.index = index;
            self.compaction_counter = 0;
            self.junk = Vec::new();
            self.junk_at = 0;
            assert(self.log_view() =~= self.log@);
        }
    }

    /// Appends a whole record for `key` to the log and updates the index.
    fn append_record(&mut self, key: &String, value: &Option<String>, bytes: Vec<u8>)
        requires
            old(self).log_wf(),
            framed(bytes@, key@, text_opt(*value)),
        ensures
            final(self).log_wf(),
            final(self).log@ == old(self).log@ + bytes@,
            final(self).log_view() == old(self).log_view() + bytes@,
            final(self).junk == old(self).junk,
            final(self).junk_at == old(self).junk_at,
            final(self)@ == match value {
                Some(v) => old(self)@.insert(key@, v@),
                None => old(self)@.remove(key@),
            },
            final(self).cache == old(self).cache,
            final(self).compaction_counter == old(self).compaction_counter,
    {
        let off: usize = self.log.len();
        let ghost old_log = self.log@;
        proof {
            lemma_append_record(self.log@, bytes@, key@, text_opt(*value));
        }
        let mut moved = bytes;
        self.log.append(&mut moved);
        match value {
            Some(_) => self.index.insert(key.clone(), off),
            None => self.index.remove(key.as_str()),
        }
        proof {
            let l = log_index(old_log);
            assert forall|k: Seq<char>| #[trigger] l.contains_key(k) && k != key@ implies value_at(
                self.log@,
                log_index(self.log@)[k],
            ) == value_at(old_log, l[k]) by {}
            let j = self.junk_at as int;
            assert(self.log@ == old_log + bytes@);
            assert(self.log@.subrange(0, j) =~= old_log.subrange(0, j));
            assert(self.log@.subrange(j, self.log@.len() as int) =~= old_log.subrange(
                j,
                old_log.len() as int,
            ) + bytes@);
            assert(self.log_view() =~= old(self).log_view() + bytes@);
            assert(self@ =~= match value {
                Some(v) => contents(old_log).insert(key@, v@),
                None => contents(old_log).remove(key@),
            });
        }
    }

    /// Sets `key` to `value`. Where the store already holds that value the
    /// call changes nothing; otherwise a write record is appended, the index
    /// points at it and the value is cached. An overwrite counts toward
    /// compaction.
    pub fn set(&mut self, key: String, value: String) -> (r: Result<()>)
        requires
            old(self).wf(),
        ensures
            final(self).wf(),
            r is Err <==> lookup(old(self)@, key@) != Some(value@) && (!fits_format(
                key@,
                Some(value@),
            ) || msgpack_record(key@, Some(value@)) is None),
            match r {
                Ok(_) => final(self)@ == old(self)@.insert(key@, value@),
                Err(e) => e is EncodeError && final(self)@ == old(self)@ && final(self).log_view()
                    == old(self).log_view() && final(self).counter() == old(self).counter(),
            },
            r is Ok ==> final(self).cached().contains_key(key@) && final(self).cached()[key@]
                == value@ && final(self).recency().len() > 0 && final(self).recency().last()
                == key@,
            lookup(old(self)@, key@) == Some(value@) ==> final(self).log_view() == old(
                self,
            ).log_view() && final(self).counter() == old(self).counter(),
            r is Ok && lookup(old(self)@, key@) != Some(value@) ==> final(self).counter()
                == next_count(old(self).counter(), old(self)@.contains_key(key@)),
            r is Ok && lookup(old(self)@, key@) != Some(value@) && !compacts(
                old(self).counter(),
                old(self)@.contains_key(key@),
            ) ==> final(self).log_view() == old(self).log_view() + msgpack_record(
                key@,
                Some(value@),
            )->0,
            r is Ok && lookup(old(self)@, key@) != Some(value@) && compacts(
                old(self).counter(),
                old(self)@.contains_key(key@),
            ) ==> final(self).record_log() == live_records(
                old(self).record_log() + msgpack_record(key@, Some(value@))->0,
            ) && final(self).log_view() == final(self).record_log(),
    {
        match self.get(key.clone()) {
            Ok(Some(v)) => {
                if v == value {
                    return Ok(());
                }
            },
            _ => {},
        }
        let written = Some(value.clone());
        if !fits(&key, &written) {
            return Err(KvError::EncodeError(None));
        }
        let bytes = match encode_record(&key, &written) {
            Ok(b) => b,
            Err(e) => {
                return Err(KvError::EncodeError(Some(e)));
            },
        };
        let existed = self.index.contains_key(key.as_str());
        self.append_record(&key, &written, bytes);
        if existed {
            self.compact();
        }
        cache_put(&mut self.cache, key, value);
        Ok(())
    }

    /// Removes `key`: fails with `KeyNotFound` where the store holds no value
    /// for it; otherwise drops it from the cache and the index, appends a
    /// removal record, and counts toward compaction.
    pub fn remove(&mut self, key: String) -> (r: Result<()>)
        requires
            old(self).wf(),
        ensures
            final(self).wf(),
            r matches Err(KvError::KeyNotFound) <==> !old(self)@.contains_key(key@),
            r matches Err(KvError::EncodeError(_)) <==> old(self)@.contains_key(key@) && (
            !fits_format(key@, None) || msgpack_record(key@, None) is None),
            r is Err ==> (r matches Err(KvError::KeyNotFound) || r matches Err(
                KvError::EncodeError(_),
            )) && final(self).cached() == old(self).cached(),
            r is Ok ==> !final(self).cached().contains_key(key@),
            match r {
                Ok(_) => final(self)@ == old(self)@.remove(key@) && final(self).counter()
                    == next_count(old(self).counter(), true),
                Err(_) => final(self)@ == old(self)@ && final(self).log_view() == old(
                    self,
                ).log_view() && final(self).counter() == old(self).counter(),
            },
            r is Ok && !compacts(old(self).counter(), true) ==> final(self).log_view() == old(
                self,
            ).log_view() + msgpack_record(key@, None)->0,
            r is Ok && compacts(old(self).counter(), true) ==> final(self).record_log()
                == live_records(old(self).record_log() + msgpack_record(key@, None)->0)
                && final(self).log_view() == final(self).record_log(),
    {
        if !self.index.contains_key(key.as_str()) {
            return Err(KvError::KeyNotFound);
        }
        if !fits(&key, &None) {
            return Err(KvError::EncodeError(None));
        }
        let bytes = match encode_record(&key, &None) {
            Ok(b) => b,
            Err(e) => {
                return Err(KvError::EncodeError(Some(e)));
            },
        };
        cache_pop(&mut self.cache, &key);
        self.append_record(&key, &None, bytes);
        self.compact();
        Ok(())
    }
    /// The bytes of the log, as they are to stand on disk.
    pub fn log_bytes(&self) -> (r: Vec<u8>)
        requires
            self.wf(),
        ensures
            r@ == self.log_view(),
    {
        let mut r: Vec<u8> = Vec::new();
        append_range(&mut r, &self.log, 0, self.junk_at);
        append_range(&mut r, &self.junk, 0, self.junk.len());
        append_range(&mut r, &self.log, self.junk_at, self.log.len());
        proof {
            assert(self.junk@.subrange(0, self.junk@.len() as int) =~= self.junk@);
            assert(Seq::<u8>::empty() + self.log@.subrange(0, self.junk_at as int) =~= self.log@.subrange(0, self.junk_at as int));
        }
        r
    }

    /// The overwrites and removals counted since the last compaction.
    pub fn compaction_count(&self) -> (r: u32)
        ensures
            r == self.counter(),
    {
        self.compaction_counter
    }
}

/// Reading a key after a successful `set(k, v)` gives `v`: `set` leaves the
/// contents with `k` mapped to `v`, and `get` gives the contents' value.
pub proof fn law_set_then_get(before: KvStore, after: KvStore, k: Seq<char>, v: Seq<char>)
    requires
        after@ == before@.insert(k, v),
    ensures
        lookup(after@, k) == Some(v),
{
}

/// Reading a key that a store does not hold gives no value, which `get`
/// returns as `Ok(None)`.
pub proof fn law_absent_key_reads_none(s: KvStore, k: Seq<char>)
    requires
        !s@.contains_key(k),
    ensures
        lookup(s@, k) is None,
{
}

/// Reading a key after a successful `remove(k)` gives no value, and a second
/// `remove(k)` finds the key missing.
pub proof fn law_removed_key_reads_none(before: KvStore, after: KvStore, k: Seq<char>)
    requires
        after@ == before@.remove(k),
    ensures
        lookup(after@, k) is None,
        !after@.contains_key(k),
{
}

/// After a successful `set(k, v)` the store holds `v` for `k`: that is the
/// case in which a second `set(k, v)` leaves the log and the count as they
/// are; and setting again would not change the contents either.
pub proof fn law_repeated_set_is_noop(before: KvStore, after: KvStore, k: Seq<char>, v: Seq<char>)
    requires
        after@ == before@.insert(k, v),
    ensures
        lookup(after@, k) == Some(v),
        after@.insert(k, v) == after@,
{
    assert(after@.insert(k, v) =~= after@);
}

/// Reopening a store on its own log, where the log holds no bytes that
/// replay stopped at, replays all of it and gives the same contents: what was
/// written survives, and what was removed stays removed. (Records appended
/// behind unreadable bytes are not replayed until a compaction rewrites the
/// log.)
pub proof fn law_reopen_keeps_contents(s: KvStore)
    requires
        s.wf(),
        s.log_view() == s.record_log(),
    ensures
        replay_end(s.log_view()) == s.log_view().len(),
        s.log_view().subrange(0, replay_end(s.log_view()) as int) == s.log_view(),
        contents(s.log_view()) == s@,
{
    lemma_framed_replays_to_end(s.log@, 0, Map::empty());
    assert(s.log@.subrange(0, s.log@.len() as int) =~= s.log@);
}

/// The cache holds at most its capacity of entries, and each cached value
/// is the key's value in the store; `get` gives the store's value whether or
/// not the key is cached, so however many keys are written and whichever
/// were evicted, every read gives the value last set.
pub proof fn law_cache_agrees(s: KvStore)
    requires
        s.wf(),
    ensures
        s.cached().dom().finite(),
        s.cached().dom().len() <= CACHE_CAPACITY,
        forall|k: Seq<char>| #[trigger]
            s.cached().contains_key(k) ==> lookup(s@, k) == Some(s.cached()[k]),
{
}

/// Reads do not depend on the cache: two stores with the same records hold
/// the same contents, whatever each has cached or evicted, and `get` gives
/// the contents' value. So after any number of writes, more than the cache
/// holds, every key reads back its last value.
pub proof fn law_reads_ignore_cache(a: KvStore, b: KvStore)
    requires
        a.wf(),
        b.wf(),
        a.record_log() == b.record_log(),
    ensures
        a@ == b@,
        forall|k: Seq<char>| #[trigger] lookup(a@, k) == lookup(b@, k),
{
}

} // verus!
