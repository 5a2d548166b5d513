//! Wilson score confidence interval for a binomial proportion, in verified
//! fixed-point arithmetic.
//!
//! Given a number of observed successes out of a number of trials and a
//! confidence multiplier `z`, [`wilson`] returns a lower and an upper bound
//! on the true success probability.  All quantities are fixed-point numbers:
//! a stored value `v` stands for the real number `v / SCALE`, so fractional
//! successes and trials are supported directly.
//!
//! For trials at or below [`ZERO_TRIALS_THRESHOLD`] (a thousandth of a
//! trial, "effectively zero evidence") the maximally uninformative interval
//! `[0, SCALE]` is returned.  Otherwise the bounds are the standard Wilson
//! score interval
//!
//! ```text
//! p    = (s + z^2 / 2) / (n + z^2)
//! d    = (z / (n + z^2)) * sqrt(s * (n - s) / n + z^2 / 4)
//! low  = p - d
//! high = p + d
//! ```
//!
//! evaluated in fixed point, each intermediate rounded toward zero.  The
//! contract of [`wilson`] pins the result exactly, and the interval is
//! proved to satisfy `0 <= low <= high <= SCALE`.  The monotonicity of the
//! exact interval width in `z` and in the amount of evidence is proved in
//! [`lemma_width_nondecreasing_in_z`] and
//! [`lemma_width_nonincreasing_in_trials`].

mod sqrt;

use vstd::prelude::*;
use vstd::arithmetic::div_mod::lemma_div_is_ordered;
use vstd::arithmetic::div_mod::lemma_div_multiples_vanish;
use vstd::arithmetic::div_mod::lemma_div_pos_is_pos;
use vstd::arithmetic::div_mod::lemma_fundamental_div_mod;
use vstd::arithmetic::div_mod::lemma_mod_bound;
use vstd::arithmetic::mul::lemma_mul_inequality;

verus! {

pub use crate::sqrt::sqrt_floor;
pub use crate::sqrt::isqrt;

/// Fixed-point scale: a stored value `v` represents the real number
/// `v / SCALE`.
pub const SCALE: u64 = 1_000_000_000;

/// Trial counts at or below this threshold (a thousandth of a trial) count
/// as "no evidence": the interval degenerates to `[0, SCALE]`.
pub const ZERO_TRIALS_THRESHOLD: u64 = SCALE / 1000;

/// Largest admitted value for `trials` and `z` (one hundred thousand in
/// real terms): it keeps every intermediate product inside `u128`.
pub const MAX_INPUT: u64 = 100_000 * SCALE;

/// A Wilson score confidence interval.
///
/// The next trial is expected to succeed with a probability between
/// `low / SCALE` and `high / SCALE`, with a confidence that depends on the
/// `z` the interval was computed with.
pub struct WilsonResult {
    /// Lower bound of the interval, in `1 / SCALE` units.
    pub low: u64,
    /// Upper bound of the interval, in `1 / SCALE` units.
    pub high: u64,
}

/// Common denominator `n + z^2` of the Wilson formula, in `1 / SCALE^2`
/// units for scaled inputs.
pub open spec fn denom(n: int, z: int) -> int {
    n * (SCALE as int) + z * z
}

/// Center `(s + z^2 / 2) / (n + z^2)` of the interval, in `1 / SCALE`
/// units, rounded toward zero.
pub open spec fn center(s: int, n: int, z: int) -> int {
    ((SCALE as int) / 2) * (2 * s * (SCALE as int) + z * z) / denom(n, z)
}

/// Argument `s * (n - s) / n + z^2 / 4` of the square root, in
/// `1 / SCALE^2` units, each quotient rounded toward zero.
pub open spec fn radicand(s: int, n: int, z: int) -> int {
    s * (n - s) * (SCALE as int) / n + z * z / 4
}

/// Half-width `(z / (n + z^2)) * sqrt(s * (n - s) / n + z^2 / 4)` of the
/// interval, in `1 / SCALE` units, rounded toward zero.
pub open spec fn half_width(s: int, n: int, z: int) -> int {
    z * sqrt_floor(radicand(s, n, z)) * (SCALE as int) / denom(n, z)
}

/// Lower bound of the interval computed by [`wilson`] on the general path.
pub open spec fn wilson_low(s: int, n: int, z: int) -> int {
    center(s, n, z) - half_width(s, n, z)
}

/// Upper bound of the interval computed by [`wilson`] on the general path.
pub open spec fn wilson_high(s: int, n: int, z: int) -> int {
    center(s, n, z) + half_width(s, n, z)
}

/// Numerator of the squared exact interval width: for scaled inputs the
/// real-valued Wilson interval has width `w` (in probability units) with
/// `w^2 == width_sq_num(s, n, z) / width_sq_den(n, z)`.
pub open spec fn width_sq_num(s: int, n: int, z: int) -> int {
    z * z * (4 * s * (n - s) * (SCALE as int) + z * z * n)
}

/// Denominator of the squared exact interval width; see [`width_sq_num`].
pub open spec fn width_sq_den(n: int, z: int) -> int {
    n * denom(n, z) * denom(n, z)
}

/// For a non-negative dividend and a positive divisor, the quotient is
/// non-negative and multiplying it back never exceeds the dividend.
proof fn lemma_div_times_denominator_le(x: int, d: int)
    requires
        0 <= x,
        0 < d,
    ensures
        0 <= x / d,
        d * (x / d) <= x,
{
    lemma_fundamental_div_mod(x, d);
    lemma_mod_bound(x, d);
    lemma_div_pos_is_pos(x, d);
}

/// Floor division distributes over addition with a loss: the sum of the
/// quotients never exceeds the quotient of the sum.
proof fn lemma_div_sum_le(a: int, b: int, d: int)
    requires
        0 <= a,
        0 <= b,
        0 < d,
    ensures
        a / d + b / d <= (a + b) / d,
{
    lemma_div_times_denominator_le(a, d);
    lemma_div_times_denominator_le(b, d);
    assert(d * (a / d + b / d) == d * (a / d) + d * (b / d)) by (nonlinear_arith);
    lemma_div_multiples_vanish(a / d + b / d, d);
    lemma_div_is_ordered(d * (a / d + b / d), a + b, d);
}

/// Compute the Wilson score interval for `successes` successes out of
/// `trials` trials with confidence multiplier `z`, all three in `1 / SCALE`
/// units (so fractional successes and trials are supported).
///
/// With `trials` at or below [`ZERO_TRIALS_THRESHOLD`] the maximally
/// uninformative interval `[0, SCALE]` is returned, whatever `successes`
/// and `z` hold.  Otherwise the result is exactly the fixed-point Wilson
/// formula of [`wilson_low`] and [`wilson_high`], the interval is ordered
/// and stays inside `[0, SCALE]`, and its width never exceeds the width of
/// the exact real-valued interval (the last `ensures` clause, stated over
/// the squared widths to avoid the irrational square root).
pub fn wilson(successes: u64, trials: u64, z: u64) -> (r: WilsonResult)
    requires
        trials > ZERO_TRIALS_THRESHOLD ==> successes <= trials && trials <= MAX_INPUT && z
            <= MAX_INPUT,
    ensures
        r.low <= r.high <= SCALE,
        trials <= ZERO_TRIALS_THRESHOLD ==> r.low == 0 && r.high == SCALE,
        trials > ZERO_TRIALS_THRESHOLD ==> r.low == wilson_low(
            successes as int,
            trials as int,
            z as int,
        ),
        trials > ZERO_TRIALS_THRESHOLD ==> r.high == wilson_high(
            successes as int,
            trials as int,
            z as int,
        ),
        trials > ZERO_TRIALS_THRESHOLD ==> (r.high - r.low) * (r.high - r.low) * width_sq_den(
            trials as int,
            z as int,
        ) <= width_sq_num(successes as int, trials as int, z as int) * (SCALE as int) * (
        SCALE as int),
{
    if trials <= ZERO_TRIALS_THRESHOLD {
        return WilsonResult { low: 0, high: SCALE };
    }
    let s: u128 = successes as u128;
    let n: u128 = trials as u128;
    let zz: u128 = z as u128;
    let sc: u128 = 1_000_000_000;
    assert(s <= n <= 100_000_000_000_000 && zz <= 100_000_000_000_000);
    assert(zz * zz <= 10_000_000_000_000_000_000_000_000_000) by (nonlinear_arith)
        requires
            zz <= 100_000_000_000_000u128;
    let u: u128 = zz * zz;
    let den: u128 = n * sc + u;
    let pnum: u128 = (sc / 2) * (2 * s * sc + u);
    let p: u128 = pnum / den;
    assert(s * (n - s) <= 10_000_000_000_000_000_000_000_000_000) by (nonlinear_arith)
        requires
            s <= n <= 100_000_000_000_000u128;
    let q: u128 = s * (n - s) * sc / n;
    let v: u128 = u / 4;
    proof {
        // s * (n - s) <= n * n bounds the radicand by n * SCALE + z^2 / 4.
        assert(s * (n - s) * 1_000_000_000 <= n * (n * 1_000_000_000)) by (nonlinear_arith)
            requires
                s <= n,
        ;
        lemma_div_is_ordered(
            s as int * (n - s) as int * 1_000_000_000,
            n as int * (n as int * 1_000_000_000),
            n as int,
        );
        lemma_div_multiples_vanish(n as int * 1_000_000_000, n as int);
    }
    let rad: u128 = q + v;
    let r1: u128 = isqrt(rad);
    assert(r1 <= 51_000_000_000_000) by (nonlinear_arith)
        requires
            r1 * r1 <= 2_600_000_000_000_000_000_000_000_000u128,
    ;
    assert(zz * r1 <= 5_100_000_000_000_000_000_000_000_000) by (nonlinear_arith)
        requires
            zz <= 100_000_000_000_000u128,
            r1 <= 51_000_000_000_000u128,
    ;
    let dnum: u128 = zz * r1 * sc;
    let d: u128 = dnum / den;
    proof {
        lemma_wilson_bounds(s as int, n as int, zz as int, q as int, v as int, r1 as int);
        lemma_div_is_ordered(dnum as int, pnum as int, den as int);
        lemma_div_sum_le(pnum as int, dnum as int, den as int);
        lemma_div_is_ordered(pnum as int + dnum as int, 1_000_000_000 * den as int, den as int);
        lemma_div_multiples_vanish(1_000_000_000, den as int);
        assert(den as int * 1_000_000_000 == 1_000_000_000 * den as int) by (nonlinear_arith);
        lemma_div_pos_is_pos(dnum as int, den as int);
        lemma_div_pos_is_pos(pnum as int, den as int);
    }
    let low: u64 = (p - d) as u64;
    let high: u64 = (p + d) as u64;
    proof {
        lemma_wilson_width_link(
            s as int,
            n as int,
            zz as int,
            q as int,
            v as int,
            r1 as int,
            d as int,
        );
    }
    WilsonResult { low, high }
}

/// Core inequalities of the fixed-point Wilson formula: with `q`, `v` the
/// two floored quotients of the radicand and `r1` the integer square root,
/// the scaled half-width numerator `z * r1 * SCALE` stays below both the
/// center numerator and its complement, so the interval stays in
/// `[0, SCALE]`.
proof fn lemma_wilson_bounds(s: int, n: int, z: int, q: int, v: int, r1: int)
    requires
        0 <= s <= n,
        0 < n,
        0 <= z,
        0 <= r1,
        q == s * (n - s) * 1_000_000_000 / n,
        v == z * z / 4,
        r1 * r1 <= q + v,
    ensures
        z * r1 * 1_000_000_000 <= 500_000_000 * (2 * s * 1_000_000_000 + z * z),
        500_000_000 * (2 * s * 1_000_000_000 + z * z) + z * r1 * 1_000_000_000 <= 1_000_000_000 * (
        n * 1_000_000_000 + z * z),
{
    let sc: int = 1_000_000_000;
    let u = z * z;
    assert(0 <= s * (n - s) * sc) by (nonlinear_arith)
        requires
            0 <= s <= n,
            sc == 1_000_000_000,
    ;
    lemma_div_times_denominator_le(s * (n - s) * sc, n);
    lemma_div_times_denominator_le(u, 4);
    // n * q <= s * (n - s) * sc and 4 * v <= u.
    assert(n * q <= s * (n - s) * sc);
    assert(4 * v <= u);
    // Square of the halved width numerator, bounded via the radicand.
    let t = 2 * z * r1;
    assert(t * t == 4 * u * (r1 * r1)) by (nonlinear_arith)
        requires
            t == 2 * z * r1,
            u == z * z,
    ;
    assert(4 * u * (r1 * r1) <= 4 * u * (q + v)) by (nonlinear_arith)
        requires
            r1 * r1 <= q + v,
            0 <= u,
    ;
    assert(4 * u * (q + v) <= 4 * u * q + u * u) by (nonlinear_arith)
        requires
            4 * v <= u,
            0 <= u,
    ;
    // Cancel n in n * (4 * u * q) <= n * (4 * s * s * sc * sc + 4 * s * sc * u).
    assert(n * (4 * u * q) == 4 * u * (n * q)) by (nonlinear_arith);
    assert(4 * u * (n * q) <= 4 * u * (s * (n - s) * sc)) by (nonlinear_arith)
        requires
            n * q <= s * (n - s) * sc,
            0 <= u,
    ;
    assert(4 * u * (s * (n - s) * sc) <= n * (4 * s * s * sc * sc + 4 * s * sc * u))
        by (nonlinear_arith)
        requires
            0 <= s <= n,
            0 <= u,
            sc == 1_000_000_000,
    ;
    assert(4 * u * q <= 4 * s * s * sc * sc + 4 * s * sc * u) by (nonlinear_arith)
        requires
            n * (4 * u * q) <= n * (4 * s * s * sc * sc + 4 * s * sc * u),
            0 < n,
    ;
    // t^2 <= (2 * s * sc + u)^2, both sides non-negative, so t <= 2 * s * sc + u.
    assert((2 * s * sc + u) * (2 * s * sc + u) == 4 * s * s * sc * sc + 4 * s * sc * u + u * u)
        by (nonlinear_arith);
    assert(0 <= t) by (nonlinear_arith)
        requires
            t == 2 * z * r1,
            0 <= z,
            0 <= r1,
    ;
    assert(t <= 2 * s * sc + u) by (nonlinear_arith)
        requires
            0 <= t,
            0 <= 2 * s * sc + u,
            t * t <= (2 * s * sc + u) * (2 * s * sc + u),
    ;
    // The same bound against the complement 2 * (n - s) * sc + u.
    assert(4 * u * (s * (n - s) * sc) <= n * (4 * (n - s) * (n - s) * sc * sc + 4 * (n - s) * sc
        * u)) by (nonlinear_arith)
        requires
            0 <= s <= n,
            0 <= u,
            sc == 1_000_000_000,
    ;
    assert(4 * u * q <= 4 * (n - s) * (n - s) * sc * sc + 4 * (n - s) * sc * u) by (nonlinear_arith)
        requires
            n * (4 * u * q) <= n * (4 * (n - s) * (n - s) * sc * sc + 4 * (n - s) * sc * u),
            0 < n,
    ;
    assert((2 * (n - s) * sc + u) * (2 * (n - s) * sc + u) == 4 * (n - s) * (n - s) * sc * sc + 4 * (
    n - s) * sc * u + u * u) by (nonlinear_arith);
    assert(t <= 2 * (n - s) * sc + u) by (nonlinear_arith)
        requires
            0 <= t,
            0 <= 2 * (n - s) * sc + u,
            t * t <= (2 * (n - s) * sc + u) * (2 * (n - s) * sc + u),
    ;
    // Halve: z * r1 * sc == t * 500_000_000.
    assert(z * r1 * sc == t * 500_000_000) by (nonlinear_arith)
        requires
            t == 2 * z * r1,
            sc == 1_000_000_000,
    ;
    lemma_mul_inequality(t, 2 * s * sc + u, 500_000_000);
    assert((2 * s * sc + u) * 500_000_000 == 500_000_000 * (2 * s * sc + u)) by (nonlinear_arith);
    lemma_mul_inequality(t, 2 * (n - s) * sc + u, 500_000_000);
    assert(500_000_000 * (2 * s * sc + u) + (2 * (n - s) * sc + u) * 500_000_000 == sc * (n * sc
        + u)) by (nonlinear_arith)
        requires
            sc == 1_000_000_000,
    ;
}

/// The computed width `2 * d` never exceeds the exact real-valued interval
/// width, stated over squares: `(2 d)^2 * width_sq_den <= width_sq_num *
/// SCALE^2`.
proof fn lemma_wilson_width_link(s: int, n: int, z: int, q: int, v: int, r1: int, d: int)
    requires
        0 <= s <= n,
        0 < n,
        0 <= z,
        0 <= r1,
        q == s * (n - s) * 1_000_000_000 / n,
        v == z * z / 4,
        r1 * r1 <= q + v,
        d == z * r1 * 1_000_000_000 / denom(n, z),
    ensures
        (2 * d) * (2 * d) * width_sq_den(n, z) <= width_sq_num(s, n, z) * 1_000_000_000
            * 1_000_000_000,
{
    let sc: int = 1_000_000_000;
    let u = z * z;
    let den = denom(n, z);
    assert(den > 0) by (nonlinear_arith)
        requires
            0 < n,
            u == z * z,
            den == n * 1_000_000_000 + u,
    ;
    assert(0 <= z * r1 * sc) by (nonlinear_arith)
        requires
            0 <= z,
            0 <= r1,
            sc == 1_000_000_000,
    ;
    lemma_div_times_denominator_le(z * r1 * sc, den);
    assert(0 <= s * (n - s) * sc) by (nonlinear_arith)
        requires
            0 <= s <= n,
            sc == 1_000_000_000,
    ;
    lemma_div_times_denominator_le(s * (n - s) * sc, n);
    lemma_div_times_denominator_le(u, 4);
    assert(den * d <= z * r1 * sc);
    assert(0 <= d);
    let wd = 2 * d * den;
    assert(wd <= 2 * (z * r1 * sc)) by (nonlinear_arith)
        requires
            den * d <= z * r1 * sc,
            wd == 2 * d * den,
    ;
    assert(0 <= wd) by (nonlinear_arith)
        requires
            0 <= d,
            0 < den,
            wd == 2 * d * den,
    ;
    assert(wd * wd <= (2 * (z * r1 * sc)) * (2 * (z * r1 * sc))) by (nonlinear_arith)
        requires
            0 <= wd,
            wd <= 2 * (z * r1 * sc),
    ;
    assert((2 * (z * r1 * sc)) * (2 * (z * r1 * sc)) == 4 * u * (r1 * r1) * (sc * sc))
        by (nonlinear_arith)
        requires
            u == z * z,
    ;
    // 4 * n * r1^2 <= 4 * s * (n - s) * sc + u * n.
    assert(4 * (n * (r1 * r1)) <= 4 * (n * (q + v))) by (nonlinear_arith)
        requires
            r1 * r1 <= q + v,
            0 < n,
    ;
    assert(n * (q + v) == n * q + n * v) by (nonlinear_arith);
    assert(4 * (n * q) <= 4 * (s * (n - s) * sc));
    assert(4 * (n * v) <= u * n) by (nonlinear_arith)
        requires
            4 * v <= u,
            0 < n,
    ;
    assert(4 * (n * (r1 * r1)) <= 4 * (s * (n - s) * sc) + u * n);
    // Assemble: (2 d)^2 * n * den^2 <= u * (4 s (n - s) sc + u n) * sc^2.
    assert((2 * d) * (2 * d) * (n * den * den) == n * (wd * wd)) by (nonlinear_arith)
        requires
            wd == 2 * d * den,
    ;
    assert(n * (wd * wd) <= n * (4 * u * (r1 * r1) * (sc * sc))) by (nonlinear_arith)
        requires
            wd * wd <= 4 * u * (r1 * r1) * (sc * sc),
            0 < n,
    ;
    assert(n * (4 * u * (r1 * r1) * (sc * sc)) == u * (4 * (n * (r1 * r1))) * (sc * sc))
        by (nonlinear_arith);
    assert(u * (4 * (n * (r1 * r1))) * (sc * sc) <= u * (4 * (s * (n - s) * sc) + u * n) * (sc
        * sc)) by (nonlinear_arith)
        requires
            4 * (n * (r1 * r1)) <= 4 * (s * (n - s) * sc) + u * n,
            0 <= u,
    ;
    assert(u * (4 * (s * (n - s) * sc) + u * n) * (sc * sc) == width_sq_num(s, n, z) * sc * sc)
        by (nonlinear_arith)
        requires
            u == z * z,
            width_sq_num(s, n, z) == z * z * (4 * s * (n - s) * sc + z * z * n),
    ;
    assert(width_sq_den(n, z) == n * den * den);
}

/// Core inequality behind the monotonicity in `z`: with `a` the scaled
/// evidence term `4 s (n - s) SCALE`, `m` the scaled trials `n * SCALE` and
/// `u1 <= u2` two squared multipliers, the squared width grows with the
/// multiplier.  `a <= n * m` holds for every well-formed input since
/// `4 s (n - s) <= n^2`.
proof fn lemma_z_core(a: int, n: int, m: int, u1: int, u2: int)
    requires
        0 <= a,
        a <= n * m,
        0 < n,
        0 <= m,
        0 <= u1 <= u2,
    ensures
        u1 * (a + u1 * n) * ((m + u2) * (m + u2)) <= u2 * (a + u2 * n) * ((m + u1) * (m + u1)),
{
    let d1 = a + u1 * n;
    let d2 = a + u2 * n;
    let p1 = (m + u1) * (m + u1);
    let p2 = (m + u2) * (m + u2);
    let r = 2 * m + u1 + u2;
    let a2 = d2 * p1;
    let a1 = d1 * p2;
    let k = a2 + u1 * (n * p1) - u1 * (d1 * r);
    // Telescope the difference of the two sides into the factor u2 - u1.
    assert(u2 * a2 - u1 * a1 == (u2 - u1) * a2 + u1 * (a2 - a1)) by (nonlinear_arith);
    assert(d2 - d1 == (u2 - u1) * n) by (nonlinear_arith)
        requires
            d1 == a + u1 * n,
            d2 == a + u2 * n,
    ;
    assert(a2 - a1 == ((u2 - u1) * n) * p1 + d1 * (p1 - p2)) by (nonlinear_arith)
        requires
            a2 == d2 * p1,
            a1 == d1 * p2,
            d2 - d1 == (u2 - u1) * n,
    ;
    assert(p1 - p2 == (u1 - u2) * r) by (nonlinear_arith)
        requires
            p1 == (m + u1) * (m + u1),
            p2 == (m + u2) * (m + u2),
            r == 2 * m + u1 + u2,
    ;
    assert(((u2 - u1) * n) * p1 == (u2 - u1) * (n * p1)) by (nonlinear_arith);
    assert(d1 * ((u1 - u2) * r) == -((u2 - u1) * (d1 * r))) by (nonlinear_arith);
    assert(a2 - a1 == (u2 - u1) * (n * p1) - (u2 - u1) * (d1 * r));
    assert(u1 * ((u2 - u1) * (n * p1) - (u2 - u1) * (d1 * r)) == (u2 - u1) * (u1 * (n * p1) - u1 * (
    d1 * r))) by (nonlinear_arith);
    assert((u2 - u1) * a2 + (u2 - u1) * (u1 * (n * p1) - u1 * (d1 * r)) == (u2 - u1) * k)
        by (nonlinear_arith)
        requires
            k == a2 + u1 * (n * p1) - u1 * (d1 * r),
    ;
    assert(u2 * a2 - u1 * a1 == (u2 - u1) * k);
    // The factor k equals d1 * (m^2 - u1 u2) + n u2 (m + u1)^2.
    assert(a2 + u1 * (n * p1) == (d1 + n * u2) * p1) by (nonlinear_arith)
        requires
            a2 == d2 * p1,
            d1 == a + u1 * n,
            d2 == a + u2 * n,
    ;
    assert(u1 * (d1 * r) == d1 * (u1 * r)) by (nonlinear_arith);
    assert((d1 + n * u2) * p1 - d1 * (u1 * r) == d1 * (p1 - u1 * r) + (n * u2) * p1)
        by (nonlinear_arith);
    assert(p1 - u1 * r == m * m - u1 * u2) by (nonlinear_arith)
        requires
            p1 == (m + u1) * (m + u1),
            r == 2 * m + u1 + u2,
    ;
    assert(k == d1 * (m * m - u1 * u2) + (n * u2) * p1);
    // k is non-negative: either both of its terms are, or d1 is replaced by
    // its bound n * (m + u1), where the sum factors cleanly.
    assert(0 <= d1) by (nonlinear_arith)
        requires
            d1 == a + u1 * n,
            0 <= a,
            0 <= u1,
            0 < n,
    ;
    assert(0 <= p1) by (nonlinear_arith)
        requires
            p1 == (m + u1) * (m + u1),
    ;
    if u1 * u2 <= m * m {
        assert(0 <= d1 * (m * m - u1 * u2)) by (nonlinear_arith)
            requires
                0 <= d1,
                u1 * u2 <= m * m,
        ;
        assert(0 <= (n * u2) * p1) by (nonlinear_arith)
            requires
                0 < n,
                0 <= u2,
                0 <= p1,
        ;
        assert(0 <= k);
    } else {
        assert(d1 <= n * (m + u1)) by (nonlinear_arith)
            requires
                d1 == a + u1 * n,
                a <= n * m,
        ;
        assert((n * (m + u1)) * (m * m - u1 * u2) <= d1 * (m * m - u1 * u2)) by (nonlinear_arith)
            requires
                d1 <= n * (m + u1),
                m * m - u1 * u2 < 0,
        ;
        assert((n * u2) * p1 == (n * (m + u1)) * (u2 * (m + u1))) by (nonlinear_arith)
            requires
                p1 == (m + u1) * (m + u1),
        ;
        assert((n * (m + u1)) * (m * m - u1 * u2) + (n * (m + u1)) * (u2 * (m + u1)) == (n * (m
            + u1)) * ((m * m - u1 * u2) + u2 * (m + u1))) by (nonlinear_arith);
        assert((m * m - u1 * u2) + u2 * (m + u1) == m * (m + u2)) by (nonlinear_arith);
        assert(0 <= (n * (m + u1)) * (m * (m + u2))) by (nonlinear_arith)
            requires
                0 < n,
                0 <= m,
                0 <= u1,
                0 <= u2,
        ;
        assert(0 <= k);
    }
    assert(0 <= (u2 - u1) * k) by (nonlinear_arith)
        requires
            u1 <= u2,
            0 <= k,
    ;
    assert(u1 * d1 * p2 == u1 * a1) by (nonlinear_arith)
        requires
            a1 == d1 * p2,
    ;
    assert(u2 * d2 * p1 == u2 * a2) by (nonlinear_arith)
        requires
            a2 == d2 * p1,
    ;
}

/// Monotonicity in the confidence multiplier: for fixed well-formed
/// `successes` and `trials` (scaled, with `trials` positive), a larger `z`
/// never shrinks the exact real-valued interval.  The widths are compared
/// through their squares, `width_sq_num / width_sq_den`, by
/// cross-multiplication; since both widths are non-negative this orders the
/// widths themselves.
pub proof fn lemma_width_nondecreasing_in_z(s: int, n: int, z1: int, z2: int)
    requires
        0 <= s <= n,
        0 < n,
        0 <= z1 <= z2,
    ensures
        width_sq_num(s, n, z1) * width_sq_den(n, z2) <= width_sq_num(s, n, z2) * width_sq_den(
            n,
            z1,
        ),
{
    let sc: int = 1_000_000_000;
    let u1 = z1 * z1;
    let u2 = z2 * z2;
    let a = 4 * s * (n - s) * sc;
    let m = n * sc;
    let p1 = (m + u1) * (m + u1);
    let p2 = (m + u2) * (m + u2);
    let w1 = u1 * (a + u1 * n);
    let w2 = u2 * (a + u2 * n);
    assert(u1 <= u2) by (nonlinear_arith)
        requires
            0 <= z1 <= z2,
            u1 == z1 * z1,
            u2 == z2 * z2,
    ;
    assert(0 <= u1) by (nonlinear_arith)
        requires
            u1 == z1 * z1,
    ;
    assert(0 <= a) by (nonlinear_arith)
        requires
            a == 4 * s * (n - s) * sc,
            0 <= s <= n,
            sc == 1_000_000_000,
    ;
    // 4 s (n - s) <= n^2 is (n - 2 s)^2 >= 0.
    assert(a <= n * m) by (nonlinear_arith)
        requires
            a == 4 * s * (n - s) * sc,
            m == n * sc,
            0 <= s <= n,
            sc == 1_000_000_000,
    ;
    assert(0 <= m) by (nonlinear_arith)
        requires
            m == n * sc,
            0 < n,
            sc == 1_000_000_000,
    ;
    lemma_z_core(a, n, m, u1, u2);
    assert(width_sq_num(s, n, z1) == w1) by (nonlinear_arith)
        requires
            width_sq_num(s, n, z1) == z1 * z1 * (4 * s * (n - s) * sc + z1 * z1 * n),
            u1 == z1 * z1,
            a == 4 * s * (n - s) * sc,
            w1 == u1 * (a + u1 * n),
    ;
    assert(width_sq_num(s, n, z2) == w2) by (nonlinear_arith)
        requires
            width_sq_num(s, n, z2) == z2 * z2 * (4 * s * (n - s) * sc + z2 * z2 * n),
            u2 == z2 * z2,
            a == 4 * s * (n - s) * sc,
            w2 == u2 * (a + u2 * n),
    ;
    assert(width_sq_den(n, z1) == n * p1) by (nonlinear_arith)
        requires
            width_sq_den(n, z1) == n * (n * sc + z1 * z1) * (n * sc + z1 * z1),
            u1 == z1 * z1,
            m == n * sc,
            p1 == (m + u1) * (m + u1),
    ;
    assert(width_sq_den(n, z2) == n * p2) by (nonlinear_arith)
        requires
            width_sq_den(n, z2) == n * (n * sc + z2 * z2) * (n * sc + z2 * z2),
            u2 == z2 * z2,
            m == n * sc,
            p2 == (m + u2) * (m + u2),
    ;
    assert(w1 * p2 <= w2 * p1);
    assert(w1 * (n * p2) == n * (w1 * p2)) by (nonlinear_arith);
    assert(w2 * (n * p1) == n * (w2 * p1)) by (nonlinear_arith);
    assert(n * (w1 * p2) <= n * (w2 * p1)) by (nonlinear_arith)
        requires
            w1 * p2 <= w2 * p1,
            0 < n,
    ;
}

/// Core inequality behind the monotonicity in the trial count: with `b` the
/// scaled evidence term of the smaller sample, growing the sample from `n1`
/// to `n2` at the same success proportion never widens the squared width.
/// `b <= n1 * n1 * sc` holds for every well-formed input.
proof fn lemma_trials_core(b: int, n1: int, n2: int, u: int, sc: int)
    requires
        0 <= b,
        b <= n1 * n1 * sc,
        0 < n1,
        n1 <= n2,
        0 <= u,
        0 < sc,
    ensures
        (b * n2 + u * (n1 * n1)) * ((n1 * sc + u) * (n1 * sc + u)) <= (b * n1 + u * (n1 * n1)) * ((
        n2 * sc + u) * (n2 * sc + u)),
{
    let x = n1 * sc;
    let y = n2 * sc;
    let e = (x + u) * (x + u);
    let f = (y + u) * (y + u);
    let r2 = x + y + 2 * u;
    let g1 = x * y - u * u;
    let lhsf = b * n2 + u * (n1 * n1);
    let rhsf = b * n1 + u * (n1 * n1);
    let k2 = b * g1 + (u * (n1 * n1)) * (sc * r2);
    // Split both sides along b and u * n1^2.
    assert(rhsf * f == b * (n1 * f) + (u * (n1 * n1)) * f) by (nonlinear_arith)
        requires
            rhsf == b * n1 + u * (n1 * n1),
    ;
    assert(lhsf * e == b * (n2 * e) + (u * (n1 * n1)) * e) by (nonlinear_arith)
        requires
            lhsf == b * n2 + u * (n1 * n1),
    ;
    // Telescope n1 * f - n2 * e into the factor n2 - n1.
    assert(f - e == (y - x) * r2) by (nonlinear_arith)
        requires
            e == (x + u) * (x + u),
            f == (y + u) * (y + u),
            r2 == x + y + 2 * u,
    ;
    assert(y - x == (n2 - n1) * sc) by (nonlinear_arith)
        requires
            x == n1 * sc,
            y == n2 * sc,
    ;
    assert(n1 * f - n2 * e == n1 * (f - e) - (n2 - n1) * e) by (nonlinear_arith);
    assert(n1 * (((n2 - n1) * sc) * r2) == (n2 - n1) * (x * r2)) by (nonlinear_arith)
        requires
            x == n1 * sc,
    ;
    assert(f - e == ((n2 - n1) * sc) * r2);
    assert(n1 * (f - e) == (n2 - n1) * (x * r2));
    assert(x * r2 - e == g1) by (nonlinear_arith)
        requires
            e == (x + u) * (x + u),
            r2 == x + y + 2 * u,
            g1 == x * y - u * u,
    ;
    assert((n2 - n1) * (x * r2) - (n2 - n1) * e == (n2 - n1) * (x * r2 - e)) by (nonlinear_arith);
    assert(n1 * f - n2 * e == (n2 - n1) * g1);
    // Assemble the telescoped difference of the two sides.
    assert(b * (n1 * f) - b * (n2 * e) == b * (n1 * f - n2 * e)) by (nonlinear_arith);
    assert(b * ((n2 - n1) * g1) == (n2 - n1) * (b * g1)) by (nonlinear_arith);
    assert((u * (n1 * n1)) * f - (u * (n1 * n1)) * e == (u * (n1 * n1)) * (f - e))
        by (nonlinear_arith);
    assert((u * (n1 * n1)) * (((n2 - n1) * sc) * r2) == (n2 - n1) * ((u * (n1 * n1)) * (sc * r2)))
        by (nonlinear_arith);
    assert((n2 - n1) * (b * g1) + (n2 - n1) * ((u * (n1 * n1)) * (sc * r2)) == (n2 - n1) * k2)
        by (nonlinear_arith)
        requires
            k2 == b * g1 + (u * (n1 * n1)) * (sc * r2),
    ;
    assert(rhsf * f - lhsf * e == (n2 - n1) * k2);
    // k2 is non-negative: either both of its terms are, or b is replaced by
    // its bound n1 * x, where the sum factors cleanly.
    assert(0 <= x && 0 <= y) by (nonlinear_arith)
        requires
            x == n1 * sc,
            y == n2 * sc,
            0 < n1,
            n1 <= n2,
            0 < sc,
    ;
    if u * u <= x * y {
        assert(0 <= b * g1) by (nonlinear_arith)
            requires
                0 <= b,
                0 <= g1,
        ;
        assert(0 <= (u * (n1 * n1)) * (sc * r2)) by (nonlinear_arith)
            requires
                0 <= u,
                0 < n1,
                0 < sc,
                0 <= r2,
        ;
        assert(0 <= k2);
    } else {
        assert(b <= n1 * x) by (nonlinear_arith)
            requires
                b <= n1 * n1 * sc,
                x == n1 * sc,
        ;
        assert((n1 * x) * g1 <= b * g1) by (nonlinear_arith)
            requires
                b <= n1 * x,
                g1 < 0,
        ;
        assert((u * (n1 * n1)) * (sc * r2) == (n1 * x) * (u * r2)) by (nonlinear_arith)
            requires
                x == n1 * sc,
        ;
        assert((n1 * x) * g1 + (n1 * x) * (u * r2) == (n1 * x) * (g1 + u * r2))
            by (nonlinear_arith);
        assert(g1 + u * r2 == (x + u) * (y + u)) by (nonlinear_arith)
            requires
                g1 == x * y - u * u,
                r2 == x + y + 2 * u,
        ;
        assert(0 <= (n1 * x) * ((x + u) * (y + u))) by (nonlinear_arith)
            requires
                0 < n1,
                0 <= x,
                0 <= u,
                0 <= y,
        ;
        assert(0 <= k2);
    }
    assert(0 <= (n2 - n1) * k2) by (nonlinear_arith)
        requires
            n1 <= n2,
            0 <= k2,
    ;
}

/// Monotonicity in the amount of evidence: scaling well-formed `successes`
/// and `trials` up by a common factor (the success proportion stays fixed,
/// expressed by `s1 * n2 == s2 * n1`) at a fixed `z` never widens the exact
/// real-valued interval.  As in [`lemma_width_nondecreasing_in_z`], widths
/// are compared through their squares by cross-multiplication.
pub proof fn lemma_width_nonincreasing_in_trials(s1: int, n1: int, s2: int, n2: int, z: int)
    requires
        0 <= s1 <= n1,
        0 < n1,
        n1 <= n2,
        s1 * n2 == s2 * n1,
        0 <= z,
    ensures
        width_sq_num(s2, n2, z) * width_sq_den(n1, z) <= width_sq_num(s1, n1, z) * width_sq_den(
            n2,
            z,
        ),
{
    let sc: int = 1_000_000_000;
    let u = z * z;
    let x = n1 * sc;
    let y = n2 * sc;
    let b1 = 4 * s1 * (n1 - s1) * sc;
    let b2 = 4 * s2 * (n2 - s2) * sc;
    let ee = (x + u) * (x + u);
    let ff = (y + u) * (y + u);
    let nn1 = n1 * n1;
    let nn2 = n2 * n2;
    let xb2 = b2 + u * n2;
    let yb1 = b1 + u * n1;
    let yterm = b1 * n2 + u * (n1 * n1);
    let zterm = b1 * n1 + u * (n1 * n1);
    assert(0 <= u) by (nonlinear_arith)
        requires
            u == z * z,
    ;
    assert(0 <= s2 && s2 <= n2) by (nonlinear_arith)
        requires
            s1 * n2 == s2 * n1,
            0 <= s1 <= n1,
            0 < n1,
            n1 <= n2,
    ;
    assert(0 <= b1) by (nonlinear_arith)
        requires
            b1 == 4 * s1 * (n1 - s1) * sc,
            0 <= s1 <= n1,
            sc == 1_000_000_000,
    ;
    // 4 s1 (n1 - s1) <= n1^2 is (n1 - 2 s1)^2 >= 0.
    assert(b1 <= n1 * n1 * sc) by (nonlinear_arith)
        requires
            b1 == 4 * s1 * (n1 - s1) * sc,
            0 <= s1 <= n1,
            sc == 1_000_000_000,
    ;
    // The equal proportions tie the two evidence terms together:
    // b2 * n1^2 == b1 * n2^2.
    let ev = s1 * n2;
    assert(s2 * (n2 - s2) * (n1 * n1) == ev * (n1 * n2) - ev * ev) by (nonlinear_arith)
        requires
            ev == s2 * n1,
    ;
    assert(s1 * (n1 - s1) * (n2 * n2) == ev * (n1 * n2) - ev * ev) by (nonlinear_arith)
        requires
            ev == s1 * n2,
    ;
    assert(b2 * (n1 * n1) == 4 * sc * (s2 * (n2 - s2) * (n1 * n1))) by (nonlinear_arith)
        requires
            b2 == 4 * s2 * (n2 - s2) * sc,
    ;
    assert(b1 * (n2 * n2) == 4 * sc * (s1 * (n1 - s1) * (n2 * n2))) by (nonlinear_arith)
        requires
            b1 == 4 * s1 * (n1 - s1) * sc,
    ;
    assert(b2 * nn1 == b1 * nn2);
    lemma_trials_core(b1, n1, n2, u, sc);
    assert(yterm * ee <= zterm * ff);
    assert((u * nn2) * (yterm * ee) <= (u * nn2) * (zterm * ff)) by (nonlinear_arith)
        requires
            yterm * ee <= zterm * ff,
            0 <= u,
            nn2 == n2 * n2,
            0 < n2,
    ;
    // Rewrite both width products into the multiplied core inequality.
    assert(width_sq_num(s2, n2, z) == u * xb2) by (nonlinear_arith)
        requires
            width_sq_num(s2, n2, z) == z * z * (4 * s2 * (n2 - s2) * sc + z * z * n2),
            u == z * z,
            b2 == 4 * s2 * (n2 - s2) * sc,
            xb2 == b2 + u * n2,
    ;
    assert(width_sq_num(s1, n1, z) == u * yb1) by (nonlinear_arith)
        requires
            width_sq_num(s1, n1, z) == z * z * (4 * s1 * (n1 - s1) * sc + z * z * n1),
            u == z * z,
            b1 == 4 * s1 * (n1 - s1) * sc,
            yb1 == b1 + u * n1,
    ;
    assert(width_sq_den(n1, z) == n1 * ee) by (nonlinear_arith)
        requires
            width_sq_den(n1, z) == n1 * (n1 * sc + z * z) * (n1 * sc + z * z),
            u == z * z,
            x == n1 * sc,
            ee == (x + u) * (x + u),
    ;
    assert(width_sq_den(n2, z) == n2 * ff) by (nonlinear_arith)
        requires
            width_sq_den(n2, z) == n2 * (n2 * sc + z * z) * (n2 * sc + z * z),
            u == z * z,
            y == n2 * sc,
            ff == (y + u) * (y + u),
    ;
    // Left side: (u xb2) (n1 ee) (n1 n2) == (u nn2) (yterm ee).
    assert(xb2 * (nn1 * n2) == (b2 * nn1) * n2 + u * (nn1 * nn2)) by (nonlinear_arith)
        requires
            xb2 == b2 + u * n2,
            nn2 == n2 * n2,
    ;
    assert((b1 * nn2) * n2 + u * (nn1 * nn2) == nn2 * yterm) by (nonlinear_arith)
        requires
            yterm == b1 * n2 + u * nn1,
    ;
    assert(xb2 * (nn1 * n2) == nn2 * yterm);
    assert(((u * xb2) * (n1 * ee)) * (n1 * n2) == (u * ee) * (xb2 * (nn1 * n2)))
        by (nonlinear_arith)
        requires
            nn1 == n1 * n1,
    ;
    assert((u * ee) * (nn2 * yterm) == (u * nn2) * (yterm * ee)) by (nonlinear_arith);
    assert(((u * xb2) * (n1 * ee)) * (n1 * n2) == (u * nn2) * (yterm * ee));
    // Right side: (u yb1) (n2 ff) (n1 n2) == (u nn2) (zterm ff).
    assert(n1 * yb1 == zterm) by (nonlinear_arith)
        requires
            yb1 == b1 + u * n1,
            zterm == b1 * n1 + u * (n1 * n1),
    ;
    assert(((u * yb1) * (n2 * ff)) * (n1 * n2) == (u * nn2) * ((n1 * yb1) * ff))
        by (nonlinear_arith)
        requires
            nn2 == n2 * n2,
    ;
    assert(((u * yb1) * (n2 * ff)) * (n1 * n2) == (u * nn2) * (zterm * ff));
    // Combine and cancel the positive factor n1 * n2.
    assert((width_sq_num(s2, n2, z) * width_sq_den(n1, z)) * (n1 * n2) <= (width_sq_num(s1, n1, z)
        * width_sq_den(n2, z)) * (n1 * n2));
    assert(width_sq_num(s2, n2, z) * width_sq_den(n1, z) <= width_sq_num(s1, n1, z) * width_sq_den(
        n2,
        z,
    )) by (nonlinear_arith)
        requires
            (width_sq_num(s2, n2, z) * width_sq_den(n1, z)) * (n1 * n2) <= (width_sq_num(s1, n1, z)
                * width_sq_den(n2, z)) * (n1 * n2),
            0 < n1,
            0 < n2,
    ;
}

} // verus!
