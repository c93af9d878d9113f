use pentagram::fx::{isqrt_u64, Fx, V2};

#[test]
fn int_roundtrip() {
    for n in [-1000, -1, 0, 1, 7, 1000] {
        assert_eq!(Fx::from_int(n).floor_int(), n);
    }
}

#[test]
fn ratio_is_exact_where_it_can_be() {
    assert_eq!(Fx::ratio(1, 2), Fx::half());
    assert_eq!(Fx::ratio(4, 2), Fx::from_int(2));
    assert_eq!(Fx::ratio(-1, 2), (-Fx::half()));
}

#[test]
fn mul_div_roundtrip_within_one_ulp() {
    let a = Fx::ratio(355, 113);
    let b = Fx::ratio(7, 3);
    let back = (a * b) / b;
    assert!((back - a).abs().raw() <= 2, "got {:?} want {:?}", back, a);
}

#[test]
fn div_by_zero_is_total_and_signed() {
    assert_eq!(Fx::from_int(5) / Fx::zero(), Fx::largest());
    assert_eq!(Fx::from_int(-5) / Fx::zero(), Fx::smallest());
    assert_eq!(Fx::zero() / Fx::zero(), Fx::zero());
}

#[test]
fn add_saturates_instead_of_wrapping() {
    assert_eq!(Fx::largest() + Fx::one(), Fx::largest());
    assert_eq!(Fx::smallest() - Fx::one(), Fx::smallest());
}

#[test]
fn isqrt_matches_known_values() {
    assert_eq!(isqrt_u64(0), 0);
    assert_eq!(isqrt_u64(1), 1);
    assert_eq!(isqrt_u64(4), 2);
    assert_eq!(isqrt_u64(99), 9);
    assert_eq!(isqrt_u64(100), 10);
    assert_eq!(isqrt_u64(u32::MAX as u64), 65535);
}

#[test]
fn sqrt_is_close() {
    let r = Fx::from_int(144).sqrt();
    assert!((r - Fx::from_int(12)).abs().raw() <= 2, "{:?}", r);
    let r2 = Fx::from_int(2).sqrt();

    assert!((r2.raw() - 92681).abs() <= 2, "{:?}", r2);
}

#[test]
fn normalized_is_unit_length() {
    let v = V2::new(Fx::from_int(3), Fx::from_int(4));
    assert_eq!(v.len(), Fx::from_int(5));
    let n = v.normalized();
    assert!((n.len() - Fx::one()).abs().raw() <= 4, "{:?}", n.len());
}

#[test]
fn normalized_zero_is_zero() {
    assert_eq!(V2::zero().normalized(), V2::zero());
}

#[test]
fn normalized_is_accurate_for_very_short_vectors() {
    for raw in [1i32, 3, 17, 128, 655, 4096] {
        let v = V2::new(Fx::from_raw(raw), Fx::from_raw(raw / 2 + 1));
        let n = v.normalized();
        assert!(
            (n.len() - Fx::one()).abs().raw() <= 4,
            "raw {} normalised to length {:?}",
            raw,
            n.len()
        );
    }
}

#[test]
fn len_is_exact_for_pythagorean_triples() {
    for (a, b, c) in [(3, 4, 5), (5, 12, 13), (8, 15, 17), (20, 21, 29)] {
        let v = V2::new(Fx::from_int(a), Fx::from_int(b));
        assert_eq!(v.len(), Fx::from_int(c), "{}-{}-{}", a, b, c);
    }
}
