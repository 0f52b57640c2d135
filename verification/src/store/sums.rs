//! Summation of a per-record contribution over a finite map.
//!
//! The ledger states each account balance as the sum of a contribution
//! function over the transfer store. This module defines that sum and proves
//! the lemmas the ledger needs: how the sum changes when a record is added or
//! replaced, how it is bounded by the number of records, and that it is
//! linear in the contribution function.

use vstd::prelude::*;

verus! {

/// The sum of `f` over all values of the finite map `m`.
///
/// For an infinite domain the sum is defined as 0; the ledger only ever
/// applies it to views of hash maps, which are finite.
pub open spec fn map_sum<K, V>(m: Map<K, V>, f: spec_fn(V) -> int) -> int
    decreases m.dom().len(),
{
    if m.dom().finite() && m.dom().len() > 0 {
        let k = m.dom().choose();
        f(m[k]) + map_sum(m.remove(k), f)
    } else {
        0
    }
}

/// Splitting off any one key of the map splits the sum.
pub proof fn lemma_map_sum_remove<K, V>(m: Map<K, V>, f: spec_fn(V) -> int, j: K)
    requires
        m.dom().finite(),
        m.dom().contains(j),
    ensures
        map_sum(m, f) == f(m[j]) + map_sum(m.remove(j), f),
    decreases m.dom().len(),
{
    let k = m.dom().choose();
    if k == j {
    } else {
        lemma_map_sum_remove(m.remove(k), f, j);
        lemma_map_sum_remove(m.remove(j), f, k);
        assert(m.remove(k).remove(j) =~= m.remove(j).remove(k));
    }
}

/// Adding a record under a fresh key adds its contribution to the sum.
pub proof fn lemma_map_sum_insert<K, V>(m: Map<K, V>, f: spec_fn(V) -> int, k: K, v: V)
    requires
        m.dom().finite(),
        !m.dom().contains(k),
    ensures
        map_sum(m.insert(k, v), f) == map_sum(m, f) + f(v),
{
    lemma_map_sum_remove(m.insert(k, v), f, k);
    assert(m.insert(k, v).remove(k) =~= m);
}

/// Replacing the record under an existing key exchanges its contribution.
pub proof fn lemma_map_sum_update<K, V>(m: Map<K, V>, f: spec_fn(V) -> int, k: K, v: V)
    requires
        m.dom().finite(),
        m.dom().contains(k),
    ensures
        map_sum(m.insert(k, v), f) == map_sum(m, f) - f(m[k]) + f(v),
{
    lemma_map_sum_remove(m, f, k);
    lemma_map_sum_remove(m.insert(k, v), f, k);
    assert(m.insert(k, v).remove(k) =~= m.remove(k));
}

/// A sum of pointwise-bounded contributions is bounded by the number of
/// records times the pointwise bounds.
pub proof fn lemma_map_sum_bounds<K, V>(m: Map<K, V>, f: spec_fn(V) -> int, lo: int, hi: int)
    requires
        m.dom().finite(),
        lo <= hi,
        forall|k: K| m.dom().contains(k) ==> lo <= #[trigger] f(m[k]) <= hi,
    ensures
        m.dom().len() * lo <= map_sum(m, f) <= m.dom().len() * hi,
    decreases m.dom().len(),
{
    if m.dom().len() > 0 {
        let k = m.dom().choose();
        let rest = m.remove(k);
        assert forall|x: K| rest.dom().contains(x) implies lo <= #[trigger] f(rest[x]) <= hi by {
            assert(f(rest[x]) == f(m[x]));
        }
        lemma_map_sum_bounds(rest, f, lo, hi);
        let n: nat = m.dom().len();
        assert(rest.dom().len() == n - 1);
        assert((n - 1) * lo + lo == n * lo && (n - 1) * hi + hi == n * hi) by (nonlinear_arith);
    }
}

/// The sum of a pointwise difference is the difference of the sums.
pub proof fn lemma_map_sum_linear<K, V>(
    m: Map<K, V>,
    f: spec_fn(V) -> int,
    g: spec_fn(V) -> int,
    h: spec_fn(V) -> int,
)
    requires
        m.dom().finite(),
        forall|v: V| #[trigger] h(v) == f(v) - g(v),
    ensures
        map_sum(m, h) == map_sum(m, f) - map_sum(m, g),
    decreases m.dom().len(),
{
    if m.dom().len() > 0 {
        let k = m.dom().choose();
        lemma_map_sum_linear(m.remove(k), f, g, h);
    }
}

} // verus!
