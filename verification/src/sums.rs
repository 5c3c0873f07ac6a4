//! Sums of per-index force contributions. A contribution function maps an
//! index to an (x, y) pair of mathematical integers; the physics phases are
//! specified as such sums over node or edge indices.

use vstd::prelude::*;

verus! {

use crate::math::abs_i;

/// Sum of `f(0) + f(1) + ... + f(k - 1)`, componentwise.
pub open spec fn sum_pair(k: int, f: spec_fn(int) -> (int, int)) -> (int, int)
    decreases k,
{
    if k <= 0 {
        (0int, 0int)
    } else {
        let s = sum_pair(k - 1, f);
        let v = f(k - 1);
        (s.0 + v.0, s.1 + v.1)
    }
}

/// Contribution functions that agree below `k` have equal sums.
pub proof fn lemma_sum_pair_equal(k: int, f: spec_fn(int) -> (int, int), g: spec_fn(int) -> (int, int))
    requires
        forall|j: int| 0 <= j < k ==> #[trigger] f(j) == g(j),
    ensures
        sum_pair(k, f) == sum_pair(k, g),
    decreases k,
{
    if k > 0 {
        lemma_sum_pair_equal(k - 1, f, g);
    }
}

/// Turning on one index whose old contribution was zero adds exactly the
/// new contribution at that index.
pub proof fn lemma_sum_pair_update(
    k: int,
    f: spec_fn(int) -> (int, int),
    g: spec_fn(int) -> (int, int),
    j0: int,
)
    requires
        0 <= j0 < k,
        f(j0) == (0int, 0int),
        forall|j: int| 0 <= j < k && j != j0 ==> #[trigger] f(j) == g(j),
    ensures
        sum_pair(k, g).0 == sum_pair(k, f).0 + g(j0).0,
        sum_pair(k, g).1 == sum_pair(k, f).1 + g(j0).1,
    decreases k,
{
    if j0 == k - 1 {
        lemma_sum_pair_equal(k - 1, f, g);
    } else {
        lemma_sum_pair_update(k - 1, f, g, j0);
    }
}

/// A sum of zero contributions is zero.
pub proof fn lemma_sum_pair_zero(k: int, f: spec_fn(int) -> (int, int))
    requires
        forall|j: int| 0 <= j < k ==> #[trigger] f(j) == (0int, 0int),
    ensures
        sum_pair(k, f) == (0int, 0int),
    decreases k,
{
    if k > 0 {
        lemma_sum_pair_zero(k - 1, f);
    }
}

/// A componentwise magnitude bound on the contributions bounds the sum.
pub proof fn lemma_sum_pair_bound(k: int, f: spec_fn(int) -> (int, int), bound: int)
    requires
        bound >= 0,
        forall|j: int|
            0 <= j < k ==> abs_i((#[trigger] f(j)).0) <= bound && abs_i(f(j).1) <= bound,
    ensures
        abs_i(sum_pair(k, f).0) <= k * bound || k < 0,
        abs_i(sum_pair(k, f).1) <= k * bound || k < 0,
    decreases k,
{
    if k > 0 {
        lemma_sum_pair_bound(k - 1, f, bound);
        assert((k - 1) * bound + bound == k * bound) by (nonlinear_arith);
    } else if k == 0 {
        assert(k * bound == 0) by (nonlinear_arith)
            requires k == 0;
    }
}

} // verus!
