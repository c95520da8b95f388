//! Association vectors keyed by 128-bit identifiers.
//!
//! The registry and the game both keep small key-value collections whose keys
//! are connection or match identifiers. They are held as vectors of pairs in
//! insertion order, with unique keys as an invariant.

use vstd::prelude::*;

verus! {

/// No key occurs twice.
pub open spec fn unique_keys<T>(s: Seq<(u128, T)>) -> bool {
    forall|i: int, j: int| 0 <= i < j < s.len() ==> s[i].0 != s[j].0
}

/// Some entry carries `key`.
pub open spec fn has_key<T>(s: Seq<(u128, T)>, key: u128) -> bool {
    exists|i: int| 0 <= i < s.len() && s[i].0 == key
}

/// An index of the entry carrying `key` (the index, when keys are unique).
pub open spec fn idx_of<T>(s: Seq<(u128, T)>, key: u128) -> int {
    choose|i: int| 0 <= i < s.len() && s[i].0 == key
}

/// The value stored under `key`.
pub open spec fn val_of<T>(s: Seq<(u128, T)>, key: u128) -> T {
    s[idx_of(s, key)].1
}

/// With unique keys, an entry found at `i` is the entry `idx_of` denotes.
pub proof fn lemma_idx_of<T>(s: Seq<(u128, T)>, key: u128, i: int)
    requires
        unique_keys(s),
        0 <= i < s.len(),
        s[i].0 == key,
    ensures
        has_key(s, key),
        idx_of(s, key) == i,
        val_of(s, key) == s[i].1,
{
    assert(has_key(s, key));
    let j = idx_of(s, key);
    assert(0 <= j < s.len() && s[j].0 == key);
    if i < j {
        assert(s[i].0 != s[j].0);
    } else if j < i {
        assert(s[j].0 != s[i].0);
    }
}

/// Updating the value under one key keeps every key in place.
pub proof fn lemma_update_keeps_keys<T>(s: Seq<(u128, T)>, i: int, v: (u128, T))
    requires
        0 <= i < s.len(),
        s[i].0 == v.0,
    ensures
        forall|j: int| 0 <= j < s.len() ==> s.update(i, v)[j].0 == s[j].0,
        unique_keys(s) ==> unique_keys(s.update(i, v)),
        forall|k: u128| has_key(s.update(i, v), k) == has_key(s, k),
{
    let s2 = s.update(i, v);
    assert forall|k: u128| has_key(s2, k) == has_key(s, k) by {
        if has_key(s2, k) {
            let a = choose|a: int| 0 <= a < s2.len() && s2[a].0 == k;
            assert(s[a].0 == k);
        }
        if has_key(s, k) {
            let a = choose|a: int| 0 <= a < s.len() && s[a].0 == k;
            assert(s2[a].0 == k);
        }
    }
}

/// No identifier occurs twice.
pub open spec fn unique_ids(s: Seq<u128>) -> bool {
    forall|i: int, j: int| 0 <= i < j < s.len() ==> s[i] != s[j]
}

/// An index at which `id` occurs (the index, when identifiers are unique).
pub open spec fn id_idx(s: Seq<u128>, id: u128) -> int {
    choose|i: int| 0 <= i < s.len() && s[i] == id
}

/// The sequence with `id` taken out, when it occurs.
pub open spec fn remove_id(s: Seq<u128>, id: u128) -> Seq<u128> {
    if s.contains(id) {
        s.remove(id_idx(s, id))
    } else {
        s
    }
}

/// With unique identifiers, `id` found at `i` occurs at the index `id_idx`
/// denotes.
pub proof fn lemma_id_idx(s: Seq<u128>, id: u128, i: int)
    requires
        unique_ids(s),
        0 <= i < s.len(),
        s[i] == id,
    ensures
        s.contains(id),
        id_idx(s, id) == i,
{
    assert(s.contains(id));
    let j = id_idx(s, id);
    assert(0 <= j < s.len() && s[j] == id);
    if i < j {
        assert(s[i] != s[j]);
    } else if j < i {
        assert(s[j] != s[i]);
    }
}

/// The index of the entry carrying `key`, if any.
pub fn find_key<T>(v: &Vec<(u128, T)>, key: u128) -> (r: Option<usize>)
    ensures
        match r {
            Some(i) => i < v@.len() && v@[i as int].0 == key,
            None => !has_key(v@, key),
        },
{
    let mut i: usize = 0;
    while i < v.len()
        invariant
            i <= v@.len(),
            forall|j: int| 0 <= j < i ==> v@[j].0 != key,
        decreases v@.len() - i,
    {
        if v[i].0 == key {
            return Some(i);
        }
        i += 1;
    }
    None
}

/// Whether `id` occurs in `v`.
pub fn contains_id(v: &Vec<u128>, id: u128) -> (r: bool)
    ensures
        r == v@.contains(id),
{
    let mut i: usize = 0;
    while i < v.len()
        invariant
            i <= v@.len(),
            forall|j: int| 0 <= j < i ==> v@[j] != id,
        decreases v@.len() - i,
    {
        if v[i] == id {
            return true;
        }
        i += 1;
    }
    false
}

/// The index of `id` in `v`, if any.
pub fn find_id(v: &Vec<u128>, id: u128) -> (r: Option<usize>)
    ensures
        match r {
            Some(i) => i < v@.len() && v@[i as int] == id,
            None => !v@.contains(id),
        },
{
    let mut i: usize = 0;
    while i < v.len()
        invariant
            i <= v@.len(),
            forall|j: int| 0 <= j < i ==> v@[j] != id,
        decreases v@.len() - i,
    {
        if v[i] == id {
            return Some(i);
        }
        i += 1;
    }
    None
}

} // verus!
