use analwave::level::{Level, INFINITY_BITS, NEG_INFINITY_BITS, SIGN_BIT};

fn level(value: f64) -> Level {
    Level::from_bits(value.to_bits())
}

#[test]
fn constants_are_the_binary64_encodings() {
    assert_eq!(f64::INFINITY.to_bits(), INFINITY_BITS);
    assert_eq!(f64::NEG_INFINITY.to_bits(), NEG_INFINITY_BITS);
    assert_eq!((-0.0f64).to_bits(), SIGN_BIT);
    assert_eq!(Level::neg_infinity().to_bits(), f64::NEG_INFINITY.to_bits());
    assert_eq!(Level::zero().to_bits(), 0.0f64.to_bits());
}

#[test]
fn lt_agrees_with_the_numbers() {
    let values = [
        f64::NEG_INFINITY,
        -1.0e300,
        -70.0,
        -69.999,
        -1.0,
        -f64::MIN_POSITIVE,
        -5e-324,
        -0.0,
        0.0,
        5e-324,
        f64::MIN_POSITIVE,
        0.5,
        1.0,
        23.0,
        1.0e300,
        f64::INFINITY,
        f64::NAN,
        -f64::NAN,
    ];
    for a in values {
        for b in values {
            assert_eq!(level(a).lt(&level(b)), a < b, "{} < {}", a, b);
        }
    }
}

#[test]
fn nan_and_sentinel_are_told_apart() {
    assert!(level(f64::NAN).is_nan());
    assert!(Level::from_bits(0x7FF0_0000_0000_0001).is_nan());
    assert!(Level::from_bits(0xFFF8_0000_0000_0000).is_nan());
    assert!(!level(f64::INFINITY).is_nan());
    assert!(!level(f64::NEG_INFINITY).is_nan());
    assert!(!level(-70.0).is_nan());
    assert!(level(f64::NEG_INFINITY).is_sentinel());
    assert!(!level(f64::INFINITY).is_sentinel());
    assert!(!level(-1.0e308).is_sentinel());
}

#[test]
fn an_unmeasurable_level_is_negative_infinity() {
    assert_eq!(level(f64::NAN).or_unmeasurable(), Level::neg_infinity());
    assert_eq!(level(-23.5).or_unmeasurable(), level(-23.5));
    assert_eq!(level(f64::INFINITY).or_unmeasurable(), level(f64::INFINITY));
}
