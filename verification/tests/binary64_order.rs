use elisa::binary64::{clamp, exceeds, is_finite, is_nan, total_le};
use std::cmp::Ordering;

fn samples() -> Vec<f64> {
    vec![
        0.0,
        -0.0,
        1.0,
        -1.0,
        0.05,
        0.1,
        2.0,
        100.0,
        -3.5,
        1.0e-320,
        -1.0e-320,
        f64::MIN_POSITIVE,
        f64::MAX,
        f64::MIN,
        f64::EPSILON,
        f64::INFINITY,
        f64::NEG_INFINITY,
        f64::NAN,
        -f64::NAN,
        f64::from_bits(0x7FF0_0000_0000_0001),
        f64::from_bits(0xFFF0_0000_0000_0001),
    ]
}

#[test]
fn is_finite_agrees_with_the_hardware() {
    for x in samples() {
        assert_eq!(is_finite(x.to_bits()), x.is_finite(), "{x:?}");
    }
}

#[test]
fn is_nan_agrees_with_the_hardware() {
    for x in samples() {
        assert_eq!(is_nan(x.to_bits()), x.is_nan(), "{x:?}");
    }
}

#[test]
fn total_le_agrees_with_total_order() {
    for a in samples() {
        for b in samples() {
            let expected = a.total_cmp(&b) != Ordering::Greater;
            assert_eq!(total_le(a.to_bits(), b.to_bits()), expected, "{a:?} {b:?}");
        }
    }
}

#[test]
fn exceeds_agrees_with_greater_than() {
    for a in samples() {
        for b in samples() {
            assert_eq!(exceeds(a.to_bits(), b.to_bits()), a > b, "{a:?} {b:?}");
        }
    }
}

#[test]
fn clamp_agrees_with_the_hardware() {
    for x in samples() {
        for lo in samples() {
            for hi in samples() {
                if lo.is_nan() || hi.is_nan() || lo > hi {
                    continue;
                }
                let got = clamp(x.to_bits(), lo.to_bits(), hi.to_bits());
                assert_eq!(got, x.clamp(lo, hi).to_bits(), "{x:?} {lo:?} {hi:?}");
            }
        }
    }
}

#[test]
fn clamp_exact_values() {
    let lo = 0.05f64.to_bits();
    let hi = 0.25f64.to_bits();
    assert_eq!(clamp(0.01f64.to_bits(), lo, hi), lo);
    assert_eq!(clamp(0.3f64.to_bits(), lo, hi), hi);
    assert_eq!(clamp(0.125f64.to_bits(), lo, hi), 0.125f64.to_bits());
    assert!(f64::from_bits(clamp(f64::NAN.to_bits(), lo, hi)).is_nan());
}

#[test]
fn negative_zero_is_not_below_positive_zero() {
    let neg = (-0.0f64).to_bits();
    let pos = 0.0f64.to_bits();
    assert!(!exceeds(pos, neg));
    assert!(!exceeds(neg, pos));
    assert!(total_le(neg, pos));
    assert!(!total_le(pos, neg));
}
