//! The read cache: an `lru::LruCache` from keys to values, seen through the
//! map of entries it holds and the capacity it was made with.

use vstd::prelude::*;
use lru::LruCache;
use std::collections::hash_map::RandomState;

verus! {

#[verifier::external_type_specification]
#[verifier::external_body]
#[verifier::reject_recursive_types(K)]
#[verifier::reject_recursive_types(V)]
#[verifier::reject_recursive_types(S)]
pub struct ExLruCache<K, V, S>(LruCache<K, V, S>);

/// An LRU cache from keys to values.
pub type StringCache = LruCache<String, String, RandomState>;

/// The entries that an LRU cache of strings holds, key to value.
pub uninterp spec fn cache_entries(c: StringCache) -> Map<Seq<char>, Seq<char>>;

/// The keys of an LRU cache of strings in order of use: the least recently
/// used first, the most recently used last.
pub uninterp spec fn cache_recency(c: StringCache) -> Seq<Seq<char>>;

/// The number of entries that an LRU cache of strings was made to hold.
pub uninterp spec fn cache_capacity(c: StringCache) -> nat;

/// Relies on `lru::LruCache::with_hasher` (and `RandomState::new`): a new cache is empty and holds at most `cap` entries.
#[verifier::external_body]
pub(crate) fn cache_new(cap: usize) -> (r: StringCache)
    ensures
        cache_entries(r).dom() == Set::<Seq<char>>::empty(),
        cache_recency(r) == Seq::<Seq<char>>::empty(),
        cache_capacity(r) == cap,
{
    LruCache::with_hasher(cap, RandomState::new())
}

/// Relies on `lru::LruCache::get`: it gives the value held for the key, and
/// makes a key it finds the most recently used (`detach`, then `attach` at
/// the head of the list).
#[verifier::external_body]
pub(crate) fn cache_get(c: &mut StringCache, k: &String) -> (r: Option<String>)
    ensures
        cache_entries(*final(c)) == cache_entries(*old(c)),
        cache_capacity(*final(c)) == cache_capacity(*old(c)),
        r is Some ==> cache_recency(*final(c)) == cache_recency(*old(c)).filter(
            |x: Seq<char>| x != k@,
        ).push(k@),
        r is None ==> cache_recency(*final(c)) == cache_recency(*old(c)),
        match r {
            Some(v) => cache_entries(*old(c)).contains_key(k@) && cache_entries(*old(c))[k@]
                == v@,
            None => !cache_entries(*old(c)).contains_key(k@),
        },
{
    c.get(k).cloned()
}

/// Relies on `lru::LruCache::put`: it sets the key's value, evicting the least
/// recently used entry when a new key finds the cache full, and never adds
/// anything else. With a capacity of zero it holds nothing; otherwise the key
/// stays and is the most recently used.
#[verifier::external_body]
pub(crate) fn cache_put(c: &mut StringCache, k: String, v: String)
    ensures
        cache_capacity(*final(c)) == cache_capacity(*old(c)),
        forall|kk: Seq<char>| #[trigger]
            cache_entries(*final(c)).contains_key(kk) ==> cache_entries(*old(c)).insert(
                k@,
                v@,
            ).contains_key(kk) && cache_entries(*final(c))[kk] == cache_entries(*old(c)).insert(
                k@,
                v@,
            )[kk],
        cache_capacity(*old(c)) > 0 ==> cache_entries(*final(c)).contains_key(k@)
            && cache_entries(*final(c))[k@] == v@,
        cache_capacity(*old(c)) > 0 ==> cache_recency(*final(c)).len() > 0 && cache_recency(
            *final(c),
        ).last() == k@,
        cache_entries(*old(c)).contains_key(k@) ==> cache_recency(*final(c)) == cache_recency(
            *old(c),
        ).filter(|x: Seq<char>| x != k@).push(k@),
        cache_entries(*old(c)).dom().finite() && cache_entries(*old(c)).dom().len()
            <= cache_capacity(*old(c)) ==> cache_entries(*final(c)).dom().finite()
            && cache_entries(*final(c)).dom().len() <= cache_capacity(*final(c)),
        !cache_entries(*old(c)).contains_key(k@) && cache_capacity(*old(c)) > 0
            && cache_entries(*old(c)).dom().finite() && cache_entries(*old(c)).dom().len()
            < cache_capacity(*old(c)) ==> cache_entries(*final(c)) == cache_entries(
            *old(c),
        ).insert(k@, v@) && cache_recency(*final(c)) == cache_recency(*old(c)).push(k@),
        !cache_entries(*old(c)).contains_key(k@) && cache_capacity(*old(c)) > 0
            && cache_entries(*old(c)).dom().finite() && cache_entries(*old(c)).dom().len()
            == cache_capacity(*old(c)) && cache_recency(*old(c)).len() > 0 ==> cache_entries(
            *final(c),
        ) == cache_entries(*old(c)).remove(cache_recency(*old(c))[0]).insert(k@, v@)
            && cache_recency(*final(c)) == cache_recency(*old(c)).drop_first().push(k@),
{
    c.put(k, v);
}

/// Relies on `lru::LruCache::pop`: it removes the key's entry, if any, from
/// the map and from the order of use.
#[verifier::external_body]
pub(crate) fn cache_pop(c: &mut StringCache, k: &String)
    ensures
        cache_capacity(*final(c)) == cache_capacity(*old(c)),
        cache_entries(*final(c)) == cache_entries(*old(c)).remove(k@),
        cache_recency(*final(c)) == cache_recency(*old(c)).filter(|x: Seq<char>| x != k@),
{
    c.pop(k);
}

} // verus!
