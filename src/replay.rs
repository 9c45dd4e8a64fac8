//! Replay: how a log of records determines the index and the store's contents,
//! and the facts about appending whole records that the store relies on.

use vstd::prelude::*;
use crate::codec::{framed, msgpack_record_at};

verus! {

/// The bytes of `log` from `pos` to its end.
pub open spec fn tail(log: Seq<u8>, pos: nat) -> Seq<u8> {
    log.subrange(pos as int, log.len() as int)
}

/// The index after a record for `key` at offset `pos`: a write points the key
/// at the record, a removal drops the key.
pub open spec fn apply_record(
    idx: Map<Seq<char>, nat>,
    key: Seq<char>,
    value: Option<Seq<char>>,
    pos: nat,
) -> Map<Seq<char>, nat> {
    match value {
        Some(_) => idx.insert(key, pos),
        None => idx.remove(key),
    }
}

/// Replays `log` from `pos` onto `idx`: the index reached and the offset at
/// which replay stopped, which is the first offset where no record decodes.
pub open spec fn replay_from(log: Seq<u8>, pos: nat, idx: Map<Seq<char>, nat>) -> (Map<
    Seq<char>,
    nat,
>, nat)
    decreases log.len() - pos,
{
    if pos < log.len() {
        match msgpack_record_at(tail(log, pos)) {
            Some((k, v, n)) => if 0 < n && pos + n <= log.len() {
                replay_from(log, pos + n, apply_record(idx, k, v, pos))
            } else {
                (idx, pos)
            },
            None => (idx, pos),
        }
    } else {
        (idx, pos)
    }
}

/// The index that a full replay of `log` builds.
pub open spec fn log_index(log: Seq<u8>) -> Map<Seq<char>, nat> {
    replay_from(log, 0, Map::empty()).0
}

/// The offset at which a full replay of `log` stops.
pub open spec fn replay_end(log: Seq<u8>) -> nat {
    replay_from(log, 0, Map::empty()).1
}

/// The value of the write record at offset `off`.
pub open spec fn value_at(log: Seq<u8>, off: nat) -> Seq<char> {
    match msgpack_record_at(tail(log, off)) {
        Some((_, Some(v), _)) => v,
        _ => Seq::empty(),
    }
}

/// The contents that replaying `log` gives: each indexed key with the value
/// of the record that the index points at.
pub open spec fn contents(log: Seq<u8>) -> Map<Seq<char>, Seq<char>> {
    Map::new(
        |k: Seq<char>| log_index(log).contains_key(k),
        |k: Seq<char>| value_at(log, log_index(log)[k]),
    )
}

/// From `pos` on, `log` is a sequence of whole records with nothing after them.
pub open spec fn framed_from(log: Seq<u8>, pos: nat) -> bool
    decreases log.len() - pos,
{
    if pos < log.len() {
        match msgpack_record_at(tail(log, pos)) {
            Some((k, v, n)) => {
                &&& 0 < n
                &&& pos + n <= log.len()
                &&& framed(log.subrange(pos as int, (pos + n) as int), k, v)
                &&& framed_from(log, pos + n)
            },
            None => false,
        }
    } else {
        pos == log.len()
    }
}

/// At offset `off` of `log` stands a whole write record for `key`.
pub open spec fn live_at(log: Seq<u8>, off: nat, key: Seq<char>) -> bool {
    &&& off < log.len()
    &&& match msgpack_record_at(tail(log, off)) {
        Some((k, Some(v), n)) => {
            &&& k == key
            &&& off + n <= log.len()
            &&& framed(log.subrange(off as int, (off + n) as int), key, Some(v))
        },
        _ => false,
    }
}

/// Every key of `idx` points at a whole write record for that key.
pub open spec fn index_sound(log: Seq<u8>, idx: Map<Seq<char>, nat>) -> bool {
    forall|k: Seq<char>| #[trigger] idx.contains_key(k) ==> live_at(log, idx[k], k)
}

/// A whole record at `off` decodes the same with anything after the log.
pub proof fn lemma_record_extends(
    log: Seq<u8>,
    ext: Seq<u8>,
    off: nat,
    k: Seq<char>,
    v: Option<Seq<char>>,
    n: nat,
)
    requires
        off + n <= log.len(),
        framed(log.subrange(off as int, (off + n) as int), k, v),
    ensures
        msgpack_record_at(tail(log + ext, off)) == Some((k, v, n)),
        msgpack_record_at(tail(log, off)) == Some((k, v, n)),
        (log + ext).subrange(off as int, (off + n) as int) == log.subrange(off as int, (off + n) as int),
{
    let b = log.subrange(off as int, (off + n) as int);
    let after = log.subrange((off + n) as int, log.len() as int);
    assert(tail(log + ext, off) =~= b + (after + ext));
    assert(tail(log, off) =~= b + after);
    assert(msgpack_record_at(b + (after + ext)) == Some((k, v, b.len())));
    assert(msgpack_record_at(b + after) == Some((k, v, b.len())));
    assert((log + ext).subrange(off as int, (off + n) as int) =~= b);
}

/// A live record stays live, with its value, when bytes are added after the log.
pub proof fn lemma_live_extends(log: Seq<u8>, ext: Seq<u8>, off: nat, key: Seq<char>)
    requires
        live_at(log, off, key),
    ensures
        live_at(log + ext, off, key),
        value_at(log + ext, off) == value_at(log, off),
{
    if let Some((k, v, n)) = msgpack_record_at(tail(log, off)) {
        lemma_record_extends(log, ext, off, k, v, n);
    }
}

/// An index sound for a log stays sound when bytes are added after the log.
pub proof fn lemma_sound_extends(log: Seq<u8>, ext: Seq<u8>, idx: Map<Seq<char>, nat>)
    requires
        index_sound(log, idx),
    ensures
        index_sound(log + ext, idx),
        forall|k: Seq<char>| #[trigger]
            idx.contains_key(k) ==> value_at(log + ext, idx[k]) == value_at(log, idx[k]),
{
    assert forall|k: Seq<char>| #[trigger] idx.contains_key(k) implies live_at(
        log + ext,
        idx[k],
        k,
    ) && value_at(log + ext, idx[k]) == value_at(log, idx[k]) by {
        lemma_live_extends(log, ext, idx[k], k);
    }
}

/// A log made of whole records replays to its end.
pub proof fn lemma_framed_replays_to_end(log: Seq<u8>, pos: nat, idx: Map<Seq<char>, nat>)
    requires
        framed_from(log, pos),
    ensures
        replay_from(log, pos, idx).1 == log.len(),
    decreases log.len() - pos,
{
    if pos < log.len() {
        let (k, v, n) = msgpack_record_at(tail(log, pos))->0;
        lemma_framed_replays_to_end(log, pos + n, apply_record(idx, k, v, pos));
    }
}

/// Appending a whole record to a log of whole records: the result is again
/// whole records, and its replay is the old replay followed by the new record.
pub proof fn lemma_append_from(
    log: Seq<u8>,
    b: Seq<u8>,
    k: Seq<char>,
    v: Option<Seq<char>>,
    pos: nat,
    idx: Map<Seq<char>, nat>,
)
    requires
        pos <= log.len(),
        framed_from(log, pos),
        framed(b, k, v),
    ensures
        framed_from(log + b, pos),
        replay_from(log + b, pos, idx) == (
            apply_record(replay_from(log, pos, idx).0, k, v, log.len()),
            (log + b).len(),
        ),
    decreases log.len() - pos,
{
    let lb = log + b;
    if pos < log.len() {
        let (k1, v1, n1) = msgpack_record_at(tail(log, pos))->0;
        lemma_record_extends(log, b, pos, k1, v1, n1);
        lemma_append_from(log, b, k, v, pos + n1, apply_record(idx, k1, v1, pos));
    } else {
        assert(tail(lb, pos) =~= b + Seq::<u8>::empty());
        assert(lb.subrange(pos as int, (pos + b.len()) as int) =~= b);
        assert(msgpack_record_at(b + Seq::<u8>::empty()) == Some((k, v, b.len())));
        assert(framed_from(lb, pos + b.len()));
        assert(replay_from(lb, pos + b.len(), apply_record(idx, k, v, log.len())) == (
            apply_record(idx, k, v, log.len()),
            lb.len(),
        ));
    }
}

/// Appending a whole record to a well-formed log, from the start: the log
/// stays well formed and the index follows the record.
pub proof fn lemma_append_record(
    log: Seq<u8>,
    b: Seq<u8>,
    k: Seq<char>,
    v: Option<Seq<char>>,
)
    requires
        framed_from(log, 0),
        index_sound(log, log_index(log)),
        framed(b, k, v),
    ensures
        framed_from(log + b, 0),
        log_index(log + b) == apply_record(log_index(log), k, v, log.len()),
        index_sound(log + b, log_index(log + b)),
        v is Some ==> value_at(log + b, log.len()) == v->0,
        forall|kk: Seq<char>| #[trigger]
            log_index(log).contains_key(kk) ==> value_at(log + b, log_index(log)[kk]) == value_at(
                log,
                log_index(log)[kk],
            ),
{
    lemma_append_from(log, b, k, v, 0, Map::empty());
    lemma_sound_extends(log, b, log_index(log));
    let lb = log + b;
    assert(tail(lb, log.len()) =~= b + Seq::<u8>::empty());
    assert(lb.subrange(log.len() as int, (log.len() + b.len()) as int) =~= b);
    assert(msgpack_record_at(b + Seq::<u8>::empty()) == Some((k, v, b.len())));
    let idx2 = log_index(lb);
    assert forall|kk: Seq<char>| #[trigger] idx2.contains_key(kk) implies live_at(
        lb,
        idx2[kk],
        kk,
    ) by {
        if kk != k {
            assert(log_index(log).contains_key(kk));
        }
    }
}

/// Replay from `pos` reaches offset `off`: it is `pos` or the start of a later
/// record on the way.
pub open spec fn is_step(log: Seq<u8>, pos: nat, off: nat) -> bool
    decreases log.len() - pos,
{
    off == pos || (pos < log.len() && match msgpack_record_at(tail(log, pos)) {
        Some((_, _, n)) => 0 < n && pos + n <= log.len() && is_step(log, pos + n, off),
        None => false,
    })
}

/// Replay only moves forward.
pub proof fn lemma_step_after(log: Seq<u8>, pos: nat, off: nat)
    requires
        is_step(log, pos, off),
    ensures
        off >= pos,
    decreases log.len() - pos,
{
    if off != pos {
        let (_, _, n) = msgpack_record_at(tail(log, pos))->0;
        lemma_step_after(log, pos + n, off);
    }
}

/// Each offset that replay puts in the index is one that it reached, or was
/// there before.
pub proof fn lemma_index_steps(log: Seq<u8>, pos: nat, idx: Map<Seq<char>, nat>)
    ensures
        forall|k: Seq<char>| #[trigger]
            replay_from(log, pos, idx).0.contains_key(k) ==> (idx.contains_key(k)
                && replay_from(log, pos, idx).0[k] == idx[k]) || is_step(
                log,
                pos,
                replay_from(log, pos, idx).0[k],
            ),
    decreases log.len() - pos,
{
    if pos < log.len() {
        if let Some((k1, v1, n1)) = msgpack_record_at(tail(log, pos)) {
            if 0 < n1 && pos + n1 <= log.len() {
                let idx1 = apply_record(idx, k1, v1, pos);
                lemma_index_steps(log, pos + n1, idx1);
                let r = replay_from(log, pos + n1, idx1).0;
                assert forall|k: Seq<char>| #[trigger] r.contains_key(k) implies (idx.contains_key(
                    k,
                ) && r[k] == idx[k]) || is_step(log, pos, r[k]) by {
                    if is_step(log, pos + n1, r[k]) {
                    } else if k == k1 {
                    } else {
                    }
                }
            }
        }
    }
}

/// The live records of `log` from `pos` on, in log order: each record that
/// the index of the whole log points at, and nothing else.
pub open spec fn live_from(log: Seq<u8>, pos: nat) -> Seq<u8>
    decreases log.len() - pos,
{
    if pos < log.len() {
        match msgpack_record_at(tail(log, pos)) {
            Some((k, _, n)) => if 0 < n && pos + n <= log.len() {
                (if log_index(log).contains_key(k) && log_index(log)[k] == pos {
                    log.subrange(pos as int, (pos + n) as int)
                } else {
                    Seq::empty()
                }) + live_from(log, pos + n)
            } else {
                Seq::empty()
            },
            None => Seq::empty(),
        }
    } else {
        Seq::empty()
    }
}

/// The live records of `log`: one write record for each key of its index,
/// the one that the index points at, in log order.
pub open spec fn live_records(log: Seq<u8>) -> Seq<u8> {
    live_from(log, 0)
}

/// The live records from `pos` on are no longer than the log from there.
pub proof fn lemma_live_from_len(log: Seq<u8>, pos: nat)
    requires
        pos <= log.len(),
    ensures
        live_from(log, pos).len() <= log.len() - pos,
    decreases log.len() - pos,
{
    if pos < log.len() {
        if let Some((k, v, n)) = msgpack_record_at(tail(log, pos)) {
            if 0 < n && pos + n <= log.len() {
                lemma_live_from_len(log, pos + n);
            }
        }
    }
}

} // verus!
