use prediction_market_arbitrage::binary64::figures::{
    fixed_field, fixed_text, signed_field, signed_text,
};
use prediction_market_arbitrage::binary64::{numbers, one, zero, Binary64};

fn d(x: f64) -> Binary64 {
    Binary64::from_bits(x.to_bits())
}

fn f(x: Binary64) -> f64 {
    f64::from_bits(x.bits)
}

/// The same number, or both not a number.
fn same(x: Binary64, y: f64) -> bool {
    (x.is_nan() && y.is_nan()) || x.bits == y.to_bits()
}

fn samples() -> Vec<f64> {
    let mut all = vec![
        0.0,
        -0.0,
        1.0,
        -1.0,
        0.1,
        0.2,
        0.3,
        0.45,
        0.5,
        0.75,
        0.9,
        0.99,
        1.5,
        2.5,
        3.0,
        7.0,
        10.0,
        99.0,
        99.5,
        100.0,
        -2.5,
        -100.25,
        1e-10,
        1e10,
        1e300,
        -1e300,
        1e-300,
        5e-324,
        2.2250738585072014e-308,
        2.225073858507201e-308,
        f64::MAX,
        f64::MIN,
        f64::INFINITY,
        f64::NEG_INFINITY,
        f64::NAN,
        9007199254740993.0,
        4503599627370497.5,
        0.49999999999999994,
        1.0 / 3.0,
        2.0 / 3.0,
    ];
    let mut state: u64 = 0x9E37_79B9_7F4A_7C15;
    for _ in 0..60 {
        state = state.wrapping_mul(6364136223846793005).wrapping_add(1442695040888963407);
        all.push(f64::from_bits(state));
        // Numbers of ordinary size.
        all.push((state >> 11) as f64 / 9007199254740992.0 * 200.0 - 100.0);
    }
    all
}

#[test]
fn arithmetic_is_that_of_the_machine() {
    let all = samples();
    for &a in &all {
        for &b in &all {
            let (x, y) = (d(a), d(b));
            assert!(same(x.add(&y), a + b), "{a:e} + {b:e}");
            assert!(same(x.sub(&y), a - b), "{a:e} - {b:e}");
            assert!(same(x.mul(&y), a * b), "{a:e} * {b:e}");
            assert!(same(x.div(&y), a / b), "{a:e} / {b:e}");
        }
    }
}

#[test]
fn exact_results_of_arithmetic() {
    assert_eq!(f(d(0.1).add(&d(0.2))), 0.30000000000000004);
    assert_eq!(f(d(1.0).sub(&d(0.9))), 0.09999999999999998);
    assert_eq!(f(d(0.1).mul(&d(3.0))), 0.30000000000000004);
    assert_eq!(f(d(1.0).div(&d(3.0))), 0.3333333333333333);
    assert_eq!(f(d(2.0).sqrt()), 1.4142135623730951);
}

#[test]
fn roots_are_those_of_the_machine() {
    for a in samples() {
        assert!(same(d(a).sqrt(), a.sqrt()), "sqrt {a:e}");
        assert!(same(d(a.abs()).sqrt(), a.abs().sqrt()), "sqrt |{a:e}|");
    }
}

#[test]
fn order_is_that_of_the_machine() {
    let all = samples();
    for &a in &all {
        for &b in &all {
            let (x, y) = (d(a), d(b));
            assert_eq!(x.lt(&y), a < b);
            assert_eq!(x.le(&y), a <= b);
            assert_eq!(x.gt(&y), a > b);
            assert_eq!(x.ge(&y), a >= b);
            if a != b {
                assert!(same(x.min(&y), a.min(b)));
                assert!(same(x.max(&y), a.max(b)));
            }
        }
        assert!(same(d(a).abs(), a.abs()));
        assert!(same(d(a).neg(), -a));
        assert_eq!(d(a).is_nan(), a.is_nan());
        assert_eq!(d(a).is_infinite(), a.is_infinite());
        assert!(same(d(a).clamp(&d(-1.0), &d(99.0)), a.clamp(-1.0, 99.0)));
    }
}

#[test]
fn whole_numbers_are_converted_as_by_the_machine() {
    for a in samples() {
        assert_eq!(d(a).trunc_i64(), a as i64, "{a:e} as i64");
        assert_eq!(d(a).trunc_u64(), a as u64, "{a:e} as u64");
        assert_eq!(d(a).trunc_u16(), a as u16, "{a:e} as u16");
        assert_eq!(d(a).floor_i64(), a.floor() as i64, "floor {a:e}");
        assert_eq!(d(a).round_i64(), a.round() as i64, "round {a:e}");
        assert_eq!(d(a).round_u16(), a.round() as u16, "round {a:e}");
    }
    for n in [0u64, 1, 99, 100, 65535, 1 << 53, (1 << 53) + 1, u64::MAX - 1, u64::MAX] {
        assert_eq!(f(Binary64::from_u64(n)), n as f64);
        assert_eq!(f(Binary64::from_i64(n as i64)), n as i64 as f64);
    }
    assert_eq!(f(Binary64::from_i64(i64::MIN)), i64::MIN as f64);
    assert_eq!(d(2.5).round_i64(), 3);
    assert_eq!(d(-2.5).round_i64(), -3);
    assert_eq!(d(-2.5).floor_i64(), -3);
    assert_eq!(d(-2.5).trunc_i64(), -2);
}

#[test]
fn figures_are_those_of_the_formatter() {
    let mut all = samples();
    all.extend_from_slice(&[
        0.005, 0.015, 0.025, 0.125, 0.375, 0.5, 1.5, 2.5, 99.95, 99.995, 999.9999, 123456.789, 1e15,
    ]);
    for a in all {
        assert_eq!(fixed_text(&d(a), 0), format!("{:.0}", a));
        assert_eq!(fixed_text(&d(a), 1), format!("{:.1}", a));
        assert_eq!(fixed_text(&d(a), 2), format!("{:.2}", a));
        assert_eq!(fixed_text(&d(a), 3), format!("{:.3}", a));
        assert_eq!(fixed_text(&d(a), 4), format!("{:.4}", a));
        assert_eq!(signed_text(&d(a), 2), format!("{:+.2}", a));
        assert_eq!(fixed_field(&d(a), 2, 10), format!("{:>10.2}", a));
        assert_eq!(signed_field(&d(a), 2, 10), format!("{:>+10.2}", a));
    }
    assert_eq!(fixed_text(&d(0.125), 2), "0.12");
    assert_eq!(fixed_text(&d(0.375), 2), "0.38");
    assert_eq!(fixed_text(&d(-0.001), 2), "-0.00");
}

#[test]
fn constants_are_what_their_names_say() {
    let pairs = [
        (numbers::D_0_00001, 0.00001),
        (numbers::D_0_0001, 0.0001),
        (numbers::D_0_0005, 0.0005),
        (numbers::D_0_001, 0.001),
        (numbers::D_0_003, 0.003),
        (numbers::D_0_005, 0.005),
        (numbers::D_0_01, 0.01),
        (numbers::D_0_015, 0.015),
        (numbers::D_0_02, 0.02),
        (numbers::D_0_025, 0.025),
        (numbers::D_0_05, 0.05),
        (numbers::D_0_07, 0.07),
        (numbers::D_0_1, 0.1),
        (numbers::D_0_15, 0.15),
        (numbers::D_0_2, 0.2),
        (numbers::D_0_25, 0.25),
        (numbers::D_0_35, 0.35),
        (numbers::D_0_5, 0.5),
        (numbers::D_0_75, 0.75),
        (numbers::D_0_88, 0.88),
        (numbers::D_0_9, 0.9),
        (numbers::D_0_93, 0.93),
        (numbers::D_0_99, 0.99),
        (numbers::D_1_005, 1.005),
        (numbers::D_1_96, 1.96),
        (numbers::D_2, 2.0),
        (numbers::D_5, 5.0),
        (numbers::D_10, 10.0),
        (numbers::D_12, 12.0),
        (numbers::D_15, 15.0),
        (numbers::D_20, 20.0),
        (numbers::D_24, 24.0),
        (numbers::D_25, 25.0),
        (numbers::D_48, 48.0),
        (numbers::D_50, 50.0),
        (numbers::D_60, 60.0),
        (numbers::D_99, 99.0),
        (numbers::D_100, 100.0),
        (numbers::D_168, 168.0),
        (numbers::D_500, 500.0),
        (numbers::D_3600, 3600.0),
        (numbers::D_10000, 10000.0),
    ];
    for (bits, value) in pairs {
        assert_eq!(f64::from_bits(bits), value);
    }
    assert_eq!(f(zero()), 0.0);
    assert_eq!(f(one()), 1.0);
}

#[test]
fn differences_and_shares_keep_their_bounds() {
    let (a, b) = (d(100.0), d(33.3));
    assert!(a.sub(&b).le(&a));
    assert!(zero().le(&a.sub(&b)));
    assert!(d(0.7).mul(&a).le(&a));
    assert!(b.div(&a).le(&one()));
}
