//! Integer square root: the floor of the square root of a non-negative
//! integer, as a spec-level definition and an executable binary search.

use vstd::prelude::*;

verus! {

/// The largest integer whose square does not exceed `x` (0 for `x <= 0`).
pub open spec fn sqrt_floor(x: int) -> int
    decreases x,
{
    if x <= 0 {
        0
    } else if (sqrt_floor(x - 1) + 1) * (sqrt_floor(x - 1) + 1) <= x {
        sqrt_floor(x - 1) + 1
    } else {
        sqrt_floor(x - 1)
    }
}

/// `sqrt_floor(x)` is the unique `r >= 0` with `r * r <= x < (r + 1) * (r + 1)`.
pub proof fn lemma_sqrt_floor_bounds(x: int)
    requires
        0 <= x,
    ensures
        0 <= sqrt_floor(x),
        sqrt_floor(x) * sqrt_floor(x) <= x,
        x < (sqrt_floor(x) + 1) * (sqrt_floor(x) + 1),
    decreases x,
{
    if x == 0 {
    } else {
        lemma_sqrt_floor_bounds(x - 1);
        let r = sqrt_floor(x - 1);
        if (r + 1) * (r + 1) <= x {
            assert(x < (r + 2) * (r + 2)) by (nonlinear_arith)
                requires
                    0 <= r,
                    x - 1 < (r + 1) * (r + 1);
        }
    }
}

/// Any `r >= 0` whose square brackets `x` is `sqrt_floor(x)`.
pub proof fn lemma_sqrt_floor_unique(x: int, r: int)
    requires
        0 <= x,
        0 <= r,
        r * r <= x,
        x < (r + 1) * (r + 1),
    ensures
        r == sqrt_floor(x),
{
    lemma_sqrt_floor_bounds(x);
    let f = sqrt_floor(x);
    if r < f {
        assert(f * f > x) by (nonlinear_arith)
            requires
                0 <= r,
                r + 1 <= f,
                x < (r + 1) * (r + 1);
    }
    if f < r {
        assert(r * r > x) by (nonlinear_arith)
            requires
                0 <= f,
                f + 1 <= r,
                x < (f + 1) * (f + 1);
    }
}

/// Binary search for the integer square root.
///
/// The bound on `x` keeps the squares computed during the search inside
/// `u128`: the search space is `[0, 2^47]` and `2^94` exceeds every
/// admitted `x`.
pub fn isqrt(x: u128) -> (r: u128)
    requires
        x < 19807040628566084398385987584,  // 2^94
    ensures
        r == sqrt_floor(x as int),
        r * r <= x,
        x < (r + 1) * (r + 1),
{
    let mut lo: u128 = 0;
    let mut hi: u128 = 140737488355328;  // 2^47
    assert(140737488355328u128 * 140737488355328u128 == 19807040628566084398385987584) by (nonlinear_arith);
    while lo + 1 < hi
        invariant
            lo < hi,
            hi <= 140737488355328,
            lo * lo <= x,
            x < hi * hi,
        decreases hi - lo,
    {
        let mid = lo + (hi - lo) / 2;
        assert(mid * mid <= 140737488355328u128 * 140737488355328u128) by (nonlinear_arith)
            requires
                0 <= mid <= 140737488355328u128;
        if mid * mid <= x {
            lo = mid;
        } else {
            hi = mid;
        }
    }
    proof {
        lemma_sqrt_floor_unique(x as int, lo as int);
    }
    lo
}

} // verus!
