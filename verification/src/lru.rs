//! The bounded cache of visibility decisions.
//!
//! The cache is an `lru_cache::LruCache` keyed by an actor's name and a
//! snapshot handle. Verus does not look inside it: what it holds goes by
//! the name [`lru_entries`], a sequence from the least to the most recently
//! used entry, and the functions here say what each operation does to that
//! sequence.

use lru_cache::LruCache;
use std::collections::hash_map::RandomState;
use vstd::prelude::*;

verus! {

/// `lru_cache::LruCache`, as a type that values of are carried through.
#[verifier::external_type_specification]
#[verifier::external_body]
#[verifier::reject_recursive_types(K)]
#[verifier::reject_recursive_types(V)]
#[verifier::reject_recursive_types(S)]
pub struct ExLruCache<K: Eq + std::hash::Hash, V, S: std::hash::BuildHasher>(LruCache<K, V, S>);

/// The key of a decision: the actor's name and the snapshot handle.
pub type DecisionKey = (Seq<char>, u64);

/// What the cache holds, from the least to the most recently used entry.
pub uninterp spec fn lru_entries(cache: LruCache<(String, u64), bool, RandomState>) -> Seq<
    (DecisionKey, bool),
>;

/// The number of entries that the cache was made to hold at most.
pub uninterp spec fn lru_capacity(cache: LruCache<(String, u64), bool, RandomState>) -> nat;

/// The decision that `entries` hold under `key`.
pub open spec fn cached(entries: Seq<(DecisionKey, bool)>, key: DecisionKey) -> Option<bool>
    decreases entries.len(),
{
    if entries.len() == 0 {
        None
    } else if entries.last().0 == key {
        Some(entries.last().1)
    } else {
        cached(entries.drop_last(), key)
    }
}

/// `entries` without those under `key`.
pub open spec fn without_key(entries: Seq<(DecisionKey, bool)>, key: DecisionKey) -> Seq<
    (DecisionKey, bool),
>
    decreases entries.len(),
{
    if entries.len() == 0 {
        entries
    } else if entries.last().0 == key {
        without_key(entries.drop_last(), key)
    } else {
        without_key(entries.drop_last(), key).push(entries.last())
    }
}

/// The entries after a look-up of `key`: an entry that was found becomes
/// the most recently used one.
pub open spec fn refreshed(entries: Seq<(DecisionKey, bool)>, key: DecisionKey) -> Seq<
    (DecisionKey, bool),
> {
    match cached(entries, key) {
        Some(value) => without_key(entries, key).push((key, value)),
        None => entries,
    }
}

/// The entries after `value` was put under `key` in a cache of the given
/// capacity: the entry becomes the most recently used one, and where the
/// cache then holds more than its capacity, the least recently used entry
/// leaves.
pub open spec fn inserted(
    entries: Seq<(DecisionKey, bool)>,
    capacity: nat,
    key: DecisionKey,
    value: bool,
) -> Seq<(DecisionKey, bool)> {
    let grown = without_key(entries, key).push((key, value));
    if grown.len() > capacity {
        grown.drop_first()
    } else {
        grown
    }
}

/// Taking a key out leaves nothing under it, and touches no other key.
pub proof fn lemma_without_key(entries: Seq<(DecisionKey, bool)>, key: DecisionKey, other: DecisionKey)
    ensures
        cached(without_key(entries, key), key) is None,
        other != key ==> cached(without_key(entries, key), other) == cached(entries, other),
        without_key(entries, key).len() <= entries.len(),
    decreases entries.len(),
{
    if entries.len() > 0 {
        lemma_without_key(entries.drop_last(), key, other);
        if entries.last().0 != key {
            let kept = without_key(entries.drop_last(), key).push(entries.last());
            assert(kept.drop_last() =~= without_key(entries.drop_last(), key));
            assert(kept.last() == entries.last());
        }
    }
}

/// What is found after the least recently used entry left: what was found
/// before, or nothing.
pub proof fn lemma_drop_first(entries: Seq<(DecisionKey, bool)>, key: DecisionKey)
    requires
        entries.len() > 0,
    ensures
        cached(entries.drop_first(), key) == cached(entries, key) || cached(
            entries.drop_first(),
            key,
        ) is None,
        entries.len() > 1 && entries.last().0 == key ==> cached(entries.drop_first(), key)
            == cached(entries, key),
    decreases entries.len(),
{
    let rest = entries.drop_first();
    if entries.len() == 1 {
        assert(rest.len() == 0);
    } else {
        assert(rest.last() == entries.last());
        assert(rest.drop_last() =~= entries.drop_last().drop_first());
        if entries.last().0 != key {
            lemma_drop_first(entries.drop_last(), key);
        }
    }
}

/// After a look-up the cache holds the same decisions under every key.
pub proof fn lemma_refreshed(entries: Seq<(DecisionKey, bool)>, key: DecisionKey, other: DecisionKey)
    ensures
        cached(refreshed(entries, key), other) == cached(entries, other),
{
    match cached(entries, key) {
        Some(value) => {
            let taken = without_key(entries, key);
            let after = taken.push((key, value));
            lemma_without_key(entries, key, other);
            assert(after.drop_last() =~= taken);
            assert(after.last() == (key, value));
        },
        None => {},
    }
}

/// After a decision was put into the cache, the cache holds that decision
/// under its key or nothing; and under any other key what it held before,
/// or nothing.
pub proof fn lemma_inserted(
    entries: Seq<(DecisionKey, bool)>,
    capacity: nat,
    key: DecisionKey,
    value: bool,
    other: DecisionKey,
)
    ensures
        cached(inserted(entries, capacity, key, value), key) == Some(value) || cached(
            inserted(entries, capacity, key, value),
            key,
        ) is None,
        capacity > 0 ==> cached(inserted(entries, capacity, key, value), key) == Some(value),
        other != key ==> cached(inserted(entries, capacity, key, value), other) == cached(
            entries,
            other,
        ) || cached(inserted(entries, capacity, key, value), other) is None,
{
    let taken = without_key(entries, key);
    let grown = taken.push((key, value));
    lemma_without_key(entries, key, other);
    assert(grown.drop_last() =~= taken);
    assert(grown.last() == (key, value));
    assert(cached(grown, key) == Some(value));
    if other != key {
        assert(cached(grown, other) == cached(entries, other));
    }
    if grown.len() > capacity {
        lemma_drop_first(grown, key);
        lemma_drop_first(grown, other);
    }
}

/// Taking out a key that is there makes the entries fewer.
pub proof fn lemma_without_key_shorter(entries: Seq<(DecisionKey, bool)>, key: DecisionKey)
    requires
        cached(entries, key) is Some,
    ensures
        without_key(entries, key).len() < entries.len(),
    decreases entries.len(),
{
    if entries.len() > 0 {
        if entries.last().0 == key {
            lemma_without_key(entries.drop_last(), key, key);
        } else {
            lemma_without_key_shorter(entries.drop_last(), key);
        }
    }
}

/// The cache keeps to its capacity: neither a look-up nor putting a
/// decision in makes it hold more than it was made for.
pub proof fn lemma_cache_keeps_capacity(
    entries: Seq<(DecisionKey, bool)>,
    capacity: nat,
    key: DecisionKey,
    value: bool,
)
    requires
        entries.len() <= capacity,
    ensures
        refreshed(entries, key).len() <= capacity,
        inserted(entries, capacity, key, value).len() <= capacity,
{
    lemma_without_key(entries, key, key);
    if cached(entries, key) is Some {
        lemma_without_key_shorter(entries, key);
    }
}

/// `LruCache::new`: an empty cache of the given capacity.
#[verifier::external_body]
pub(crate) fn lru_new(capacity: usize) -> (cache: LruCache<(String, u64), bool, RandomState>)
    ensures
        lru_entries(cache) == Seq::<(DecisionKey, bool)>::empty(),
        lru_capacity(cache) == capacity,
{
    LruCache::new(capacity)
}

/// `LruCache::get_mut`: the value under the key, which becomes the most
/// recently used entry; nothing else changes.
#[verifier::external_body]
pub(crate) fn lru_get(
    cache: &mut LruCache<(String, u64), bool, RandomState>,
    name: &str,
    handle: u64,
) -> (value: Option<bool>)
    ensures
        value == cached(lru_entries(*old(cache)), (name@, handle)),
        lru_entries(*final(cache)) == refreshed(lru_entries(*old(cache)), (name@, handle)),
        lru_capacity(*final(cache)) == lru_capacity(*old(cache)),
{
    cache.get_mut(&(name.to_owned(), handle)).copied()
}

/// `LruCache::insert`: the value goes under the key as the most recently
/// used entry, in place of what was there; where the cache then holds more
/// than its capacity, the least recently used entry is removed.
#[verifier::external_body]
pub(crate) fn lru_insert(
    cache: &mut LruCache<(String, u64), bool, RandomState>,
    name: &str,
    handle: u64,
    value: bool,
)
    ensures
        lru_entries(*final(cache)) == inserted(
            lru_entries(*old(cache)),
            lru_capacity(*old(cache)),
            (name@, handle),
            value,
        ),
        lru_capacity(*final(cache)) == lru_capacity(*old(cache)),
{
    cache.insert((name.to_owned(), handle), value);
}

/// `LruCache::len`: the number of entries.
#[verifier::external_body]
pub(crate) fn lru_len(cache: &LruCache<(String, u64), bool, RandomState>) -> (len: usize)
    ensures
        len == lru_entries(*cache).len(),
{
    cache.len()
}

/// `LruCache::clear`: removes every entry.
#[verifier::external_body]
pub(crate) fn lru_clear(cache: &mut LruCache<(String, u64), bool, RandomState>)
    ensures
        lru_entries(*final(cache)) == Seq::<(DecisionKey, bool)>::empty(),
        lru_capacity(*final(cache)) == lru_capacity(*old(cache)),
{
    cache.clear();
}

} // verus!
