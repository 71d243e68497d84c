//! Association lists keyed by `u64`.
//!
//! Every ledger in this crate stores its keyed state as a `Vec<(u64, V)>`
//! whose keys are pairwise distinct.  This module gives the spec-level
//! vocabulary for such lists — membership, lookup, and upsert — together
//! with the executable operations and the lemmas that connect the two.

use vstd::prelude::*;

verus! {

/// No key occurs twice in `s`.
pub open spec fn unique_keys<V>(s: Seq<(u64, V)>) -> bool {
    forall|i: int, j: int| 0 <= i < j < s.len() ==> (#[trigger] s[i]).0 != (#[trigger] s[j]).0
}

/// Some pair of `s` carries the key `k`.
pub open spec fn has_key<V>(s: Seq<(u64, V)>, k: u64) -> bool {
    exists|i: int| 0 <= i < s.len() && (#[trigger] s[i]).0 == k
}

/// The position of the pair carrying `k`; meaningful only when `has_key(s, k)`.
pub open spec fn index_of<V>(s: Seq<(u64, V)>, k: u64) -> int {
    choose|i: int| 0 <= i < s.len() && (#[trigger] s[i]).0 == k
}

/// The value stored under `k`; meaningful only when `has_key(s, k)`.
pub open spec fn value_of<V>(s: Seq<(u64, V)>, k: u64) -> V {
    s[index_of(s, k)].1
}

/// `s` with the value under `k` replaced by `v`, or with `(k, v)` appended
/// when `k` is not present.
pub open spec fn upsert<V>(s: Seq<(u64, V)>, k: u64, v: V) -> Seq<(u64, V)> {
    if has_key(s, k) {
        s.update(index_of(s, k), (k, v))
    } else {
        s.push((k, v))
    }
}

/// Under unique keys, any position carrying `k` is the position `index_of`
/// chooses.
pub proof fn lemma_index_of_unique<V>(s: Seq<(u64, V)>, k: u64, i: int)
    requires
        unique_keys(s),
        0 <= i < s.len(),
        s[i].0 == k,
    ensures
        has_key(s, k),
        index_of(s, k) == i,
{
    assert(has_key(s, k));
    let j = index_of(s, k);
    assert(0 <= j < s.len() && s[j].0 == k);
    if i < j {
        assert(s[i].0 != s[j].0);
    } else if j < i {
        assert(s[j].0 != s[i].0);
    }
}

/// How `upsert` acts on membership, lookup, and key uniqueness.
pub proof fn lemma_upsert<V>(s: Seq<(u64, V)>, k: u64, v: V)
    requires
        unique_keys(s),
    ensures
        unique_keys(upsert(s, k, v)),
        forall|k2: u64| #[trigger] has_key(upsert(s, k, v), k2) <==> (k2 == k || has_key(s, k2)),
        value_of(upsert(s, k, v), k) == v,
        forall|k2: u64|
            k2 != k && #[trigger] has_key(s, k2) ==> value_of(upsert(s, k, v), k2) == value_of(
                s,
                k2,
            ),
{
    let t = upsert(s, k, v);
    if has_key(s, k) {
        let i = index_of(s, k);
        assert(0 <= i < s.len() && s[i].0 == k);
        assert(forall|j: int| 0 <= j < t.len() && j != i ==> t[j] == s[j]);
        assert forall|k2: u64| #[trigger] has_key(t, k2) implies (k2 == k || has_key(s, k2)) by {
            let j = choose|j: int| 0 <= j < t.len() && (#[trigger] t[j]).0 == k2;
            if j != i {
                assert(s[j].0 == k2);
            }
        }
        assert forall|k2: u64| k2 == k || has_key(s, k2) implies #[trigger] has_key(t, k2) by {
            if k2 == k {
                assert(t[i].0 == k);
            } else {
                let j = choose|j: int| 0 <= j < s.len() && (#[trigger] s[j]).0 == k2;
                assert(j != i);
                assert(t[j].0 == k2);
            }
        }
        assert(unique_keys(t));
        lemma_index_of_unique(t, k, i);
        assert(value_of(t, k) == v);
        assert forall|k2: u64|
            k2 != k && #[trigger] has_key(s, k2) implies value_of(t, k2) == value_of(s, k2) by {
            let j = index_of(s, k2);
            assert(0 <= j < s.len() && s[j].0 == k2);
            assert(j != i);
            assert(t[j].0 == k2);
            lemma_index_of_unique(t, k2, j);
        }
    } else {
        assert(t == s.push((k, v)));
        assert(forall|j: int| 0 <= j < s.len() ==> t[j] == s[j]);
        assert(t[s.len() as int] == (k, v));
        assert forall|i: int, j: int| 0 <= i < j < t.len() implies (#[trigger] t[i]).0 != (
        #[trigger] t[j]).0 by {
            if j == s.len() {
                assert(s[i].0 == t[i].0);
                assert(!(s[i].0 == k)) by {
                    if s[i].0 == k {
                        assert(has_key(s, k));
                    }
                }
            }
        }
        assert forall|k2: u64| #[trigger] has_key(t, k2) implies (k2 == k || has_key(s, k2)) by {
            let j = choose|j: int| 0 <= j < t.len() && (#[trigger] t[j]).0 == k2;
            if j < s.len() {
                assert(s[j].0 == k2);
            }
        }
        assert forall|k2: u64| k2 == k || has_key(s, k2) implies #[trigger] has_key(t, k2) by {
            if k2 == k {
                assert(t[s.len() as int].0 == k);
            } else {
                let j = choose|j: int| 0 <= j < s.len() && (#[trigger] s[j]).0 == k2;
                assert(t[j].0 == k2);
            }
        }
        lemma_index_of_unique(t, k, s.len() as int);
        assert forall|k2: u64|
            k2 != k && #[trigger] has_key(s, k2) implies value_of(t, k2) == value_of(s, k2) by {
            let j = index_of(s, k2);
            assert(0 <= j < s.len() && s[j].0 == k2);
            assert(t[j].0 == k2);
            lemma_index_of_unique(t, k2, j);
        }
    }
}

/// Finds the position of the pair carrying `k`, if any.
pub fn find<V>(v: &Vec<(u64, V)>, k: u64) -> (r: Option<usize>)
    ensures
        match r {
            Some(i) => i < v@.len() && v@[i as int].0 == k,
            None => !has_key(v@, k),
        },
{
    let mut i: usize = 0;
    while i < v.len()
        invariant
            i <= v@.len(),
            forall|j: int| 0 <= j < i ==> (#[trigger] v@[j]).0 != k,
        decreases v@.len() - i,
    {
        if v[i].0 == k {
            return Some(i);
        }
        i = i + 1;
    }
    None
}

/// Stores `val` under `k`, replacing any previous value.
pub fn store<V: Copy>(v: &mut Vec<(u64, V)>, k: u64, val: V)
    requires
        unique_keys(old(v)@),
    ensures
        final(v)@ == upsert(old(v)@, k, val),
{
    let r = find(v, k);
    match r {
        Some(i) => {
            proof {
                lemma_index_of_unique(v@, k, i as int);
            }
            v.set(i, (k, val));
        },
        None => {
            v.push((k, val));
        },
    }
}

} // verus!
