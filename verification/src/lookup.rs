//! Finding the first item of a sequence that carries a given key.

use vstd::prelude::*;

verus! {

/// No key occurs twice.
pub open spec fn distinct<K>(keys: Seq<K>) -> bool {
    forall|i: int, j: int| 0 <= i < j < keys.len() ==> keys[i] != keys[j]
}

/// Putting a key in the place of its first occurrence, or at the end where
/// it does not occur, keeps the keys distinct.
pub proof fn lemma_put_distinct<K>(keys: Seq<K>, key: K)
    requires
        distinct(keys),
    ensures
        match lookup(keys, key) {
            Some(i) => distinct(keys.update(i, key)) && keys.update(i, key) == keys,
            None => distinct(keys.push(key)),
        },
{
    lemma_lookup(keys, key);
}

/// `i` is the first place in `keys` that holds `key`.
pub open spec fn is_first<K>(keys: Seq<K>, key: K, i: int) -> bool {
    &&& 0 <= i < keys.len()
    &&& keys[i] == key
    &&& forall|j: int| 0 <= j < i ==> keys[j] != key
}

/// The first place in `keys` that holds `key`, if any does.
pub open spec fn lookup<K>(keys: Seq<K>, key: K) -> Option<int> {
    if exists|i: int| is_first(keys, key, i) {
        Some(choose|i: int| is_first(keys, key, i))
    } else {
        None
    }
}

/// A first place is the one that `lookup` finds.
pub proof fn lemma_lookup_found<K>(keys: Seq<K>, key: K, i: int)
    requires
        is_first(keys, key, i),
    ensures
        lookup(keys, key) == Some(i),
{
}

/// What `lookup` finds is a first place; what it does not find is nowhere.
pub proof fn lemma_lookup<K>(keys: Seq<K>, key: K)
    ensures
        match lookup(keys, key) {
            Some(i) => is_first(keys, key, i),
            None => forall|j: int| 0 <= j < keys.len() ==> keys[j] != key,
        },
{
    if lookup(keys, key) is None {
        assert forall|j: int| 0 <= j < keys.len() implies keys[j] != key by {
            if keys[j] == key {
                lemma_some_first(keys, key, j);
            }
        }
    }
}

/// A key that occurs at `j` has a first place at or before `j`.
pub proof fn lemma_some_first<K>(keys: Seq<K>, key: K, j: int)
    requires
        0 <= j < keys.len(),
        keys[j] == key,
    ensures
        exists|i: int| is_first(keys, key, i) && i <= j,
    decreases j,
{
    if exists|k: int| 0 <= k < j && keys[k] == key {
        let k = choose|k: int| 0 <= k < j && keys[k] == key;
        lemma_some_first(keys, key, k);
    } else {
        assert(is_first(keys, key, j));
    }
}

} // verus!
