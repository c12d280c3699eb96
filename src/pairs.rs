//! Ordered pairs of indices, listed by the `itertools` crate.

use vstd::prelude::*;
use itertools::Itertools;

verus! {

/// Whether the pair `(i, j)` is one of the entries of `r`.
pub open spec fn lists_pair(r: Seq<(usize, usize)>, i: usize, j: usize) -> bool {
    exists|k: int| 0 <= k < r.len() && r[k] == (i, j)
}

/// Relies on itertools' `Itertools::permutations` with `k = 2` over `0..n`:
/// it yields every 2-permutation of the indices, that is every ordered pair of
/// two distinct indices below `n`, each as a vector of two elements.
#[verifier::external_body]
pub(crate) fn ordered_pairs(n: usize) -> (r: Vec<(usize, usize)>)
    ensures
        forall|k: int|
            0 <= k < r@.len() ==> #[trigger] r@[k].0 < n && r@[k].1 < n && r@[k].0 != r@[k].1,
        forall|i: usize, j: usize| i < n && j < n && i != j ==> #[trigger] lists_pair(r@, i, j),
{
    (0..n).permutations(2).map(|p| (p[0], p[1])).collect()
}

} // verus!
