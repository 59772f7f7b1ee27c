use raytracer::distance::{bits_of_key, is_nan, key_of_bits, INFINITY_BITS, SIGN_BIT};
use raytracer::interval::Interval;
use raytracer::surface::Sign;
use raytracer::world::Crossing;

fn samples() -> Vec<f64> {
    vec![
        f64::NEG_INFINITY,
        f64::MIN,
        -1000.5,
        -1.0,
        -0.001,
        -f64::MIN_POSITIVE,
        -5e-324,
        0.0,
        5e-324,
        f64::MIN_POSITIVE,
        0.001,
        0.5,
        1.0,
        3.5,
        1e300,
        f64::MAX,
        f64::INFINITY,
    ]
}

#[test]
fn keys_order_as_the_distances_do() {
    let values = samples();
    for a in values.iter() {
        for b in values.iter() {
            let ka = key_of_bits(a.to_bits());
            let kb = key_of_bits(b.to_bits());
            assert_eq!(ka < kb, a < b);
            assert_eq!(ka == kb, a == b);
        }
    }
}

#[test]
fn both_zeros_share_a_key() {
    assert_eq!(key_of_bits((0.0f64).to_bits()), key_of_bits((-0.0f64).to_bits()));
    assert_eq!(key_of_bits(0), SIGN_BIT);
}

#[test]
fn exact_keys_of_some_bit_patterns() {
    assert_eq!(key_of_bits(1), SIGN_BIT + 1);
    assert_eq!(key_of_bits(SIGN_BIT + 1), SIGN_BIT - 1);
    assert_eq!(key_of_bits(u64::MAX), 1);
    assert_eq!(key_of_bits(INFINITY_BITS), 0xFFF0_0000_0000_0000);
    assert_eq!(key_of_bits(SIGN_BIT + INFINITY_BITS), 0x0010_0000_0000_0000);
}

#[test]
fn key_and_bits_round_trip() {
    for v in samples() {
        let bits = bits_of_key(key_of_bits(v.to_bits())).unwrap();
        assert_eq!(f64::from_bits(bits), v);
    }
    assert_eq!(bits_of_key(key_of_bits((-0.0f64).to_bits())), Some(0));
}

#[test]
fn key_zero_has_no_bits() {
    assert_eq!(bits_of_key(0), None);
    assert_eq!(bits_of_key(1), Some(u64::MAX));
    assert_eq!(bits_of_key(u64::MAX), Some(u64::MAX - SIGN_BIT));
}

#[test]
fn is_nan_agrees_with_the_float() {
    for v in samples() {
        assert!(!is_nan(v.to_bits()));
    }
    assert!(is_nan(f64::NAN.to_bits()));
    assert!(is_nan((-f64::NAN).to_bits()));
    assert!(is_nan(INFINITY_BITS + 1));
    assert!(!is_nan(INFINITY_BITS));
    assert!(!is_nan(SIGN_BIT + INFINITY_BITS));
}

#[test]
fn sign_of_bits_agrees_with_the_float() {
    for v in samples() {
        let expected = if v < 0.0 {
            Sign::Negative
        } else if v > 0.0 {
            Sign::Positive
        } else {
            Sign::Zero
        };
        assert_eq!(Sign::of_bits(v.to_bits()), expected);
    }
    assert_eq!(Sign::of_bits((-0.0f64).to_bits()), Sign::Zero);
    assert_eq!(Sign::of_bits(f64::NAN.to_bits()), Sign::Zero);
}

#[test]
fn interval_from_bits_rejects_what_is_no_number() {
    assert_eq!(Interval::from_bits(f64::NAN.to_bits(), (1.0f64).to_bits()), None);
    assert_eq!(Interval::from_bits((1.0f64).to_bits(), f64::NAN.to_bits()), None);
    let iv = Interval::from_bits((0.001f64).to_bits(), f64::INFINITY.to_bits()).unwrap();
    assert_eq!(iv.min, key_of_bits((0.001f64).to_bits()));
    assert_eq!(iv.max, 0xFFF0_0000_0000_0000);
    assert!(iv.contains(key_of_bits((0.001f64).to_bits())));
    assert!(iv.contains(key_of_bits(f64::MAX.to_bits())));
    assert!(!iv.contains(key_of_bits(f64::INFINITY.to_bits())));
    assert!(!iv.contains(key_of_bits((0.0f64).to_bits())));
}

#[test]
fn crossing_from_bits_wants_numbers_in_order() {
    let near = (0.5f64).to_bits();
    let far = (1.5f64).to_bits();
    assert_eq!(
        Crossing::from_bits(near, far),
        Crossing::new(key_of_bits(near), key_of_bits(far))
    );
    assert_eq!(
        Crossing::from_bits(near, near),
        Crossing::new(key_of_bits(near), key_of_bits(near))
    );
    assert_eq!(Crossing::from_bits(far, near), None);
    assert_eq!(Crossing::from_bits(f64::NAN.to_bits(), far), None);
    assert_eq!(Crossing::from_bits(near, f64::NAN.to_bits()), None);
    assert!(Crossing::from_bits((-2.0f64).to_bits(), near).is_some());
}
