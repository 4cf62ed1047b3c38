//! Association lists keyed by character sequences: the common model behind
//! the header and cookie stores, which keep one ordered list of values per
//! key and at most one entry per key.

use vstd::prelude::*;

verus! {

/// Index of the first entry with key `k`.
pub open spec fn spec_index_of_key<V>(m: Seq<(Seq<char>, V)>, k: Seq<char>) -> Option<int>
    decreases m.len(),
{
    if m.len() == 0 {
        None
    } else if m[0].0 == k {
        Some(0)
    } else {
        match spec_index_of_key(m.drop_first(), k) {
            None => None,
            Some(i) => Some(i + 1),
        }
    }
}

/// The value stored under `k`, if any.
pub open spec fn spec_lookup<V>(m: Seq<(Seq<char>, V)>, k: Seq<char>) -> Option<V> {
    match spec_index_of_key(m, k) {
        None => None,
        Some(i) => Some(m[i].1),
    }
}

/// No two entries share a key.
pub open spec fn spec_distinct_keys<V>(m: Seq<(Seq<char>, V)>) -> bool {
    forall|i: int, j: int| 0 <= i < j < m.len() ==> m[i].0 != m[j].0
}

pub proof fn lemma_index_of_key_props<V>(m: Seq<(Seq<char>, V)>, k: Seq<char>)
    ensures
        match spec_index_of_key(m, k) {
            Some(i) => 0 <= i < m.len() && m[i].0 == k && forall|j: int| 0 <= j < i ==> m[j].0 != k,
            None => forall|j: int| 0 <= j < m.len() ==> m[j].0 != k,
        },
    decreases m.len(),
{
    if m.len() > 0 && m[0].0 != k {
        lemma_index_of_key_props(m.drop_first(), k);
        match spec_index_of_key(m.drop_first(), k) {
            Some(i0) => {
                assert(m[i0 + 1].0 == m.drop_first()[i0].0);
                assert forall|j: int| 0 <= j < i0 + 1 implies m[j].0 != k by {
                    if j > 0 {
                        assert(m.drop_first()[j - 1] == m[j]);
                    }
                }
            },
            None => {
                assert forall|j: int| 0 <= j < m.len() implies m[j].0 != k by {
                    if j > 0 {
                        assert(m.drop_first()[j - 1] == m[j]);
                    }
                }
            },
        }
    }
}

pub proof fn lemma_index_of_key_witness<V>(m: Seq<(Seq<char>, V)>, k: Seq<char>, i: int)
    requires
        0 <= i < m.len(),
        m[i].0 == k,
        forall|j: int| 0 <= j < i ==> m[j].0 != k,
    ensures
        spec_index_of_key(m, k) == Some(i),
    decreases i,
{
    if i > 0 {
        assert(forall|j: int| 0 <= j < m.len() - 1 ==> m.drop_first()[j] == m[j + 1]);
        lemma_index_of_key_witness(m.drop_first(), k, i - 1);
    }
}

pub proof fn lemma_index_of_key_none<V>(m: Seq<(Seq<char>, V)>, k: Seq<char>)
    requires
        forall|j: int| 0 <= j < m.len() ==> m[j].0 != k,
    ensures
        spec_index_of_key(m, k) is None,
    decreases m.len(),
{
    if m.len() > 0 {
        assert(forall|j: int| 0 <= j < m.len() - 1 ==> m.drop_first()[j] == m[j + 1]);
        lemma_index_of_key_none(m.drop_first(), k);
    }
}

} // verus!
