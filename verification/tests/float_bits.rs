use graphix_to_hugr::float_bits::{EPSILON_BITS, INFINITY_BITS, SIGN_BIT};
use graphix_to_hugr::FloatBits;

fn of(x: f64) -> FloatBits {
    FloatBits::from_bits(x.to_bits())
}

fn samples() -> Vec<f64> {
    vec![
        0.0,
        -0.0,
        1e-10,
        -1e-10,
        f64::from_bits(1e-10f64.to_bits() + 1),
        f64::from_bits(1e-10f64.to_bits() - 1),
        -f64::from_bits(1e-10f64.to_bits() + 1),
        9.9e-11,
        1.1e-10,
        1e-300,
        5e-324,
        0.25,
        -0.25,
        std::f64::consts::PI,
        -std::f64::consts::PI / 4.0,
        1e300,
        f64::MAX,
        f64::MIN,
        f64::INFINITY,
        f64::NEG_INFINITY,
        f64::NAN,
        -f64::NAN,
        f64::from_bits(0x7ff0_0000_0000_0001),
        f64::from_bits(0xffff_ffff_ffff_ffff),
    ]
}

#[test]
fn the_constants_are_the_patterns_of_the_values() {
    assert_eq!(EPSILON_BITS, 1e-10f64.to_bits());
    assert_eq!(INFINITY_BITS, f64::INFINITY.to_bits());
    assert_eq!(SIGN_BIT, (-0.0f64).to_bits());
    assert_eq!(EPSILON_BITS, 0x3ddb_7cdf_d9d7_bdbb);
}

#[test]
fn bits_round_trip() {
    for x in samples() {
        assert_eq!(of(x).to_bits(), x.to_bits());
        assert_eq!(of(x).bits, x.to_bits());
    }
    assert_eq!(FloatBits::from_bits(42).to_bits(), 42);
}

#[test]
fn neg_is_unary_minus() {
    for x in samples() {
        assert_eq!(of(x).neg().to_bits(), (-x).to_bits());
        assert_eq!(of(x).neg().neg(), of(x));
    }
    assert_eq!(of(0.5).neg(), of(-0.5));
    assert_eq!(FloatBits::from_bits(0).neg().to_bits(), 0x8000_0000_0000_0000);
}

#[test]
fn abs_bits_is_the_pattern_of_the_absolute_value() {
    for x in samples() {
        assert_eq!(of(x).abs_bits(), x.abs().to_bits());
    }
    assert_eq!(of(-2.0).abs_bits(), 0x4000_0000_0000_0000);
}

#[test]
fn threshold_test_is_the_comparison_of_magnitudes() {
    for x in samples() {
        assert_eq!(of(x).abs_exceeds_epsilon(), x.abs() > 1e-10);
    }
}

#[test]
fn threshold_is_not_exceeded_at_the_boundary() {
    assert!(!of(1e-10).abs_exceeds_epsilon());
    assert!(!of(-1e-10).abs_exceeds_epsilon());
    assert!(of(f64::from_bits(1e-10f64.to_bits() + 1)).abs_exceeds_epsilon());
    assert!(!of(0.0).abs_exceeds_epsilon());
    assert!(!of(f64::NAN).abs_exceeds_epsilon());
    assert!(of(f64::INFINITY).abs_exceeds_epsilon());
    assert!(of(f64::NEG_INFINITY).abs_exceeds_epsilon());
}
