use plotter::sample::{
    is_above_zero, is_below_zero, is_finite, is_zero, precedes, INFINITY, ONE, SIGN, ZERO,
};

fn specimens() -> Vec<f64> {
    let mut all = vec![
        0.0,
        -0.0,
        1.0,
        -1.0,
        0.5,
        2.0,
        4.0,
        -5.0,
        10.0,
        1e-320,
        -1e-320,
        f64::MIN_POSITIVE,
        -f64::MIN_POSITIVE,
        f64::MAX,
        f64::MIN,
        f64::EPSILON,
        f64::INFINITY,
        f64::NEG_INFINITY,
        f64::NAN,
        -f64::NAN,
        f64::from_bits(1),
        f64::from_bits(0x8000_0000_0000_0001),
        f64::from_bits(0x7ff0_0000_0000_0001),
        f64::from_bits(0xfff0_0000_0000_0001),
        f64::from_bits(0x7fff_ffff_ffff_ffff),
        f64::from_bits(0xffff_ffff_ffff_ffff),
        f64::from_bits(0x7fef_ffff_ffff_ffff),
        f64::from_bits(0xffef_ffff_ffff_ffff),
    ];
    let mut seed: u64 = 0x9e37_79b9_7f4a_7c15;
    for _ in 0..2000 {
        seed ^= seed << 13;
        seed ^= seed >> 7;
        seed ^= seed << 17;
        all.push(f64::from_bits(seed));
    }
    all
}

#[test]
fn constants_are_the_patterns_of_their_numbers() {
    assert_eq!(ZERO, 0.0f64.to_bits());
    assert_eq!(ONE, 1.0f64.to_bits());
    assert_eq!(SIGN, (-0.0f64).to_bits());
    assert_eq!(INFINITY, f64::INFINITY.to_bits());
}

#[test]
fn finite_agrees_with_the_standard_library() {
    for v in specimens() {
        assert_eq!(is_finite(v.to_bits()), v.is_finite(), "{:?}", v);
    }
}

#[test]
fn zero_agrees_with_comparison() {
    for v in specimens() {
        assert_eq!(is_zero(v.to_bits()), v == 0.0, "{:?}", v);
    }
}

#[test]
fn above_zero_agrees_with_comparison() {
    for v in specimens() {
        assert_eq!(is_above_zero(v.to_bits()), v > 0.0, "{:?}", v);
    }
}

#[test]
fn below_zero_agrees_with_comparison() {
    for v in specimens() {
        assert_eq!(is_below_zero(v.to_bits()), v < 0.0, "{:?}", v);
    }
}

#[test]
fn precedes_agrees_with_the_total_order() {
    let all = specimens();
    for a in all.iter().take(200) {
        for b in all.iter().take(200) {
            let wanted = a.total_cmp(b) != std::cmp::Ordering::Greater;
            assert_eq!(precedes(a.to_bits(), b.to_bits()), wanted, "{:?} {:?}", a, b);
        }
    }
}

#[test]
fn negative_zero_precedes_positive_zero() {
    assert!(precedes(SIGN, ZERO));
    assert!(!precedes(ZERO, SIGN));
    assert!(precedes(ZERO, ZERO));
}
