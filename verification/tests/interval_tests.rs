use wilson::isqrt;
use wilson::wilson;
use wilson::MAX_INPUT;
use wilson::SCALE;
use wilson::ZERO_TRIALS_THRESHOLD;

/// True when the fixed-point value `v` is within a millionth of `expected`.
fn close(v: u64, expected: f64) -> bool {
    let got = v as f64 / SCALE as f64;
    (got - expected).abs() <= 0.000001
}

#[test]
fn it_works() {
    {
        let out = wilson(SCALE, 2 * SCALE, 2 * SCALE);
        assert!(close(out.low, 0.09175170954));
        assert!(close(out.high, 0.9082482905));
    }
    {
        let out = wilson(10 * SCALE, 20 * SCALE, 2 * SCALE);
        assert!(close(out.low, 0.2958758548));
        assert!(close(out.high, 0.7041241452));
    }
    {
        let out = wilson(2 * SCALE, 20 * SCALE, 2 * SCALE);
        assert!(close(out.low, 0.02722332891));
        assert!(close(out.high, 0.3061100044));
    }
    {
        let out = wilson(2 * SCALE, 20 * SCALE, 3 * SCALE);
        assert!(close(out.low, 0.01595229175));
        assert!(close(out.high, 0.4323235703));
    }
    {
        let out = wilson(20 * SCALE, 20 * SCALE, 2 * SCALE);
        assert!(close(out.low, 0.8333333333));
        assert!(close(out.high, 1.0));
    }
    {
        let out = wilson(0, 20 * SCALE, 2 * SCALE);
        assert!(close(out.low, 0.0));
        assert!(close(out.high, 0.1666666667));
    }
}

#[test]
fn degenerate() {
    let out = wilson(0, 0, 2 * SCALE);
    assert!(close(out.low, 0.0));
    assert!(close(out.high, 1.0));
}

#[test]
fn degenerate2() {
    let out = wilson(5_000_000, 10_000_000, 2 * SCALE);
    assert!(close(out.low, 0.0006238305611));
    assert!(close(out.high, 0.9993761694));
}

#[test]
fn exact_fixed_point_values() {
    let out = wilson(SCALE, 2 * SCALE, 2 * SCALE);
    assert_eq!(out.low, 91_751_710);
    assert_eq!(out.high, 908_248_290);

    let out = wilson(10 * SCALE, 20 * SCALE, 2 * SCALE);
    assert_eq!(out.low, 295_875_855);
    assert_eq!(out.high, 704_124_145);

    let out = wilson(5_000_000, 10_000_000, 2 * SCALE);
    assert_eq!(out.low, 623_831);
    assert_eq!(out.high, 999_376_169);
}

#[test]
fn degenerate_ignores_successes_and_z() {
    let out = wilson(5 * SCALE, 0, 7);
    assert_eq!(out.low, 0);
    assert_eq!(out.high, SCALE);

    let out = wilson(u64::MAX, ZERO_TRIALS_THRESHOLD, u64::MAX);
    assert_eq!(out.low, 0);
    assert_eq!(out.high, SCALE);
}

#[test]
fn threshold_edge() {
    // Exactly at the threshold: degenerate.
    let out = wilson(0, ZERO_TRIALS_THRESHOLD, 2 * SCALE);
    assert_eq!(out.low, 0);
    assert_eq!(out.high, SCALE);
    // One step above: the general formula.
    let out = wilson(0, ZERO_TRIALS_THRESHOLD + 1, 2 * SCALE);
    assert_eq!(out.low, 0);
    assert_eq!(out.high, 999_750_062);
}

#[test]
fn boundary_successes() {
    // No successes: the lower bound is exactly zero here.
    let out = wilson(0, 20 * SCALE, 2 * SCALE);
    assert_eq!(out.low, 0);
    assert_eq!(out.high, 166_666_666);
    // All successes: the upper bound reaches one up to rounding.
    let out = wilson(20 * SCALE, 20 * SCALE, 2 * SCALE);
    assert_eq!(out.low, 833_333_333);
    assert_eq!(out.high, 999_999_999);
}

#[test]
fn fractional_inputs() {
    // Half a success out of one trial: finite, ordered result.
    let out = wilson(SCALE / 2, SCALE, 2 * SCALE);
    assert!(out.low <= out.high);
    assert!(out.high <= SCALE);
    assert_eq!(out.low, 52_786_405);
    assert_eq!(out.high, 947_213_595);
}

#[test]
fn z_zero_collapses_to_proportion() {
    let out = wilson(SCALE / 2, SCALE, 0);
    assert_eq!(out.low, 500_000_000);
    assert_eq!(out.high, 500_000_000);
    let out = wilson(10 * SCALE, 20 * SCALE, 0);
    assert_eq!(out.low, 500_000_000);
    assert_eq!(out.high, 500_000_000);
}

#[test]
fn wider_z_does_not_shrink_interval() {
    let narrow = wilson(10 * SCALE, 20 * SCALE, 2 * SCALE);
    let wide = wilson(10 * SCALE, 20 * SCALE, 3 * SCALE);
    assert!(wide.high - wide.low >= narrow.high - narrow.low);
    assert_eq!(wide.low, 221_456_993);
    assert_eq!(wide.high, 778_543_007);
}

#[test]
fn more_trials_do_not_widen_interval() {
    let sparse = wilson(10 * SCALE, 20 * SCALE, 2 * SCALE);
    let dense = wilson(20 * SCALE, 40 * SCALE, 2 * SCALE);
    assert!(dense.high - dense.low <= sparse.high - sparse.low);
    assert_eq!(dense.low, 349_244_328);
    assert_eq!(dense.high, 650_755_672);
}

#[test]
fn ordering_invariant_samples() {
    let cases: Vec<(u64, u64, u64)> = vec![
        (0, SCALE, 0),
        (0, SCALE, 3 * SCALE),
        (SCALE, SCALE, SCALE),
        (1, 2_000_000, 5 * SCALE),
        (MAX_INPUT, MAX_INPUT, MAX_INPUT),
        (MAX_INPUT / 3, MAX_INPUT, MAX_INPUT / 7),
    ];
    for (s, n, z) in cases {
        let out = wilson(s, n, z);
        assert!(out.low <= out.high);
        assert!(out.high <= SCALE);
    }
}

#[test]
fn isqrt_exact_values() {
    assert_eq!(isqrt(0), 0);
    assert_eq!(isqrt(1), 1);
    assert_eq!(isqrt(2), 1);
    assert_eq!(isqrt(3), 1);
    assert_eq!(isqrt(4), 2);
    assert_eq!(isqrt(999_999_999_999_999_999), 999_999_999);
    assert_eq!(isqrt(1_000_000_000_000_000_000), 1_000_000_000);
}
