//! Binary64 comparisons agree with `f64`.

use gprinterp::Binary64;

fn b(x: f64) -> Binary64 {
    Binary64 { bits: x.to_bits() }
}

fn samples() -> Vec<f64> {
    vec![
        0.0,
        -0.0,
        1.0,
        -1.0,
        0.4,
        -12.0,
        f64::MIN_POSITIVE,
        -f64::MIN_POSITIVE,
        5e-324,
        -5e-324,
        f64::MAX,
        f64::MIN,
        f64::INFINITY,
        f64::NEG_INFINITY,
        f64::NAN,
        -f64::NAN,
        1677501559.0,
        1677502104.5,
    ]
}

#[test]
fn comparisons_match_f64_on_every_pair() {
    for &x in &samples() {
        for &y in &samples() {
            assert_eq!(b(x).lt(&b(y)), x < y, "{x} < {y}");
            assert_eq!(b(x).le(&b(y)), x <= y, "{x} <= {y}");
            assert_eq!(b(x).num_eq(&b(y)), x == y, "{x} == {y}");
            assert_eq!(b(x) == b(y), x == y, "{x} == {y}");
        }
        assert_eq!(b(x).is_finite(), x.is_finite(), "{x} finite");
        assert_eq!(b(x).is_nan(), x.is_nan(), "{x} nan");
    }
}

#[test]
fn integer_conversion_matches_as_f64() {
    let mut values: Vec<u64> = vec![
        0,
        1,
        2,
        3,
        1199,
        2047,
        (1 << 53) - 1,
        1 << 53,
        (1 << 53) + 1,
        (1 << 53) + 2,
        (1 << 53) + 3,
        (1 << 54) + 2,
        (1 << 54) + 6,
        u64::MAX,
        u64::MAX - 1,
        u64::MAX - 1024,
        u64::MAX - 1025,
        (1 << 63) + (1 << 10),
        (1 << 63) + (1 << 10) + 1,
    ];
    let mut x: u64 = 0x9e37_79b9_7f4a_7c15;
    for _ in 0..2000 {
        x ^= x << 13;
        x ^= x >> 7;
        x ^= x << 17;
        values.push(x);
        values.push(x >> (x % 64));
    }
    for n in values {
        assert_eq!(Binary64::from_u64(n).bits, (n as f64).to_bits(), "{n}");
    }
}

#[test]
fn zero_is_positive_zero() {
    assert_eq!(Binary64::zero().bits, 0.0f64.to_bits());
    assert_eq!(Binary64::from_bits(42).bits, 42);
}
