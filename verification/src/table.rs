//! Keyed tables as sequences of rows: lookup of the row with a key, upsert
//! by key, and the uniqueness of keys that upserts keep.
use vstd::prelude::*;
use crate::ordering::{first_index, lemma_first_index_bounds};

verus! {

/// The predicate "the row's key is `k`".
pub open spec fn key_is<V, K>(key: spec_fn(V) -> K, k: K) -> spec_fn(V) -> bool {
    |r: V| key(r) == k
}

/// Position of the row with key `k`, or -1.
pub open spec fn position<V, K>(s: Seq<V>, key: spec_fn(V) -> K, k: K) -> int {
    first_index(s, key_is(key, k))
}

/// The row with key `k`, if any.
pub open spec fn lookup<V, K>(s: Seq<V>, key: spec_fn(V) -> K, k: K) -> Option<V> {
    let i = position(s, key, k);
    if i >= 0 {
        Some(s[i])
    } else {
        None
    }
}

/// `s` with the row keyed like `row` replaced by `row`, or `row` appended
/// when no row has that key.
pub open spec fn upsert<V, K>(s: Seq<V>, key: spec_fn(V) -> K, row: V) -> Seq<V> {
    let i = position(s, key, key(row));
    if i >= 0 {
        s.update(i, row)
    } else {
        s.push(row)
    }
}

/// `row` appended unless a row with its key is already there.
pub open spec fn insert_or_ignore<V, K>(s: Seq<V>, key: spec_fn(V) -> K, row: V) -> Seq<V> {
    if position(s, key, key(row)) >= 0 {
        s
    } else {
        s.push(row)
    }
}

/// No two rows of `s` share a key.
pub open spec fn unique_keys<V, K>(s: Seq<V>, key: spec_fn(V) -> K) -> bool {
    forall|i: int, j: int| 0 <= i < s.len() && 0 <= j < s.len() && i != j ==> key(s[i]) != key(s[j])
}

/// What a position is: -1 when no row has the key, else a row with the key
/// and no earlier one.
pub proof fn lemma_position<V, K>(s: Seq<V>, key: spec_fn(V) -> K, k: K)
    ensures
        -1 <= position(s, key, k) < s.len(),
        position(s, key, k) >= 0 ==> key(s[position(s, key, k)]) == k,
        position(s, key, k) < 0 ==> forall|m: int| 0 <= m < s.len() ==> key(#[trigger] s[m]) != k,
{
    lemma_first_index_bounds(s, key_is(key, k));
    let p = key_is(key, k);
    if position(s, key, k) < 0 {
        assert forall|m: int| 0 <= m < s.len() implies key(#[trigger] s[m]) != k by {
            assert(!p(s[m]));
        }
    } else {
        assert(p(s[position(s, key, k)]));
    }
}

/// With unique keys, the position of a row's key is that row's index.
pub proof fn lemma_unique_position<V, K>(s: Seq<V>, key: spec_fn(V) -> K, i: int)
    requires
        unique_keys(s, key),
        0 <= i < s.len(),
    ensures
        position(s, key, key(s[i])) == i,
{
    lemma_position(s, key, key(s[i]));
    let p = position(s, key, key(s[i]));
    if p != i {
        assert(p >= 0);
        assert(key(s[p]) == key(s[i]));
    }
}

/// Upserts and ignored inserts keep keys unique.
pub proof fn lemma_upsert_unique<V, K>(s: Seq<V>, key: spec_fn(V) -> K, row: V)
    requires
        unique_keys(s, key),
    ensures
        unique_keys(upsert(s, key, row), key),
        unique_keys(insert_or_ignore(s, key, row), key),
{
    lemma_position(s, key, key(row));
    let u = upsert(s, key, row);
    let p = position(s, key, key(row));
    assert forall|i: int, j: int|
        0 <= i < u.len() && 0 <= j < u.len() && i != j implies key(u[i]) != key(u[j]) by {
        if p < 0 {
            if i == s.len() as int {
                assert(key(s[j]) != key(row));
            } else if j == s.len() as int {
                assert(key(s[i]) != key(row));
            }
        } else {
            if i == p {
                assert(key(s[j]) != key(s[p]));
            } else if j == p {
                assert(key(s[i]) != key(s[p]));
            }
        }
    }
}

/// After an upsert, the row with that key is the new row.
pub proof fn lemma_upsert_lookup<V, K>(s: Seq<V>, key: spec_fn(V) -> K, row: V)
    requires
        unique_keys(s, key),
    ensures
        lookup(upsert(s, key, row), key, key(row)) == Some(row),
{
    lemma_upsert_unique(s, key, row);
    let u = upsert(s, key, row);
    lemma_position(s, key, key(row));
    let p = position(s, key, key(row));
    let i = if p >= 0 { p } else { s.len() as int };
    assert(u[i] == row);
    lemma_unique_position(u, key, i);
}

/// An upsert leaves the rows with other keys as they were.
pub proof fn lemma_upsert_other<V, K>(s: Seq<V>, key: spec_fn(V) -> K, row: V, k: K)
    requires
        unique_keys(s, key),
        k != key(row),
    ensures
        lookup(upsert(s, key, row), key, k) == lookup(s, key, k),
{
    lemma_upsert_unique(s, key, row);
    let u = upsert(s, key, row);
    lemma_position(s, key, key(row));
    lemma_position(s, key, k);
    lemma_position(u, key, k);
    let q = position(s, key, k);
    if q >= 0 {
        assert(u[q] == s[q]);
        lemma_unique_position(u, key, q);
    } else {
        let r = position(u, key, k);
        if r >= 0 {
            if r < s.len() {
                assert(u[r] == s[r]);
            } else {
                assert(u[r] == row);
            }
        }
    }
}

} // verus!
