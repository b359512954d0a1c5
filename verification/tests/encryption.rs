use ecc_threshold_decryption::curve::{EllipticCurve, Point};
use ecc_threshold_decryption::error::EccError;
use ecc_threshold_decryption::scheme::{decrypt, encrypt, encrypt_with, Ciphertext};
use num_bigint::BigUint;

fn n(v: u32) -> BigUint {
    BigUint::from(v)
}

fn hex(digits: &str) -> BigUint {
    BigUint::parse_bytes(digits.as_bytes(), 16).unwrap()
}

fn pt(x: u32, y: u32) -> Point {
    Point::new(n(x), n(y))
}

fn curve23() -> EllipticCurve {
    EllipticCurve::new(n(1), n(1), n(23)).unwrap()
}

fn prime_order_curve() -> EllipticCurve {
    EllipticCurve::new(n(5), n(14), n(23)).unwrap()
}

#[test]
fn the_example_base_point_is_not_on_the_curve() {
    assert!(!curve23().is_on_curve(&pt(5, 11)));
    assert!(curve23().is_on_curve(&pt(3, 10)));
}

#[test]
fn encrypt_then_decrypt_recovers_the_plaintext() {
    let c = curve23();
    let p = n(23);
    let g = pt(3, 10);
    let d = n(7);
    let ct = encrypt_with(&c, &n(5), &n(12), &g, &d, &p, &n(1)).unwrap();
    assert_eq!(ct.masking, pt(3, 10));
    assert_eq!(ct.s1, n(9));
    assert_eq!(ct.s2, n(17));
    assert_eq!(decrypt(&c, &ct, &d, &p), Ok((n(5), n(12))));
}

#[test]
fn encrypt_fails_where_a_multiple_cannot_be_computed() {
    let c = curve23();
    let p = n(23);
    for k in 2..22u32 {
        let r = encrypt_with(&c, &n(5), &n(12), &pt(3, 10), &n(7), &p, &n(k));
        assert_eq!(r.err(), Some(EccError::NoInverse));
    }
}

#[test]
fn a_drawn_scalar_gives_the_ciphertext_of_one_scalar_in_range() {
    let c = curve23();
    let p = n(23);
    let g = pt(3, 10);
    let d = n(7);
    for _ in 0..50 {
        match encrypt(&c, &n(5), &n(12), &g, &d, &p) {
            Ok(ct) => {
                assert_eq!(ct.masking, pt(3, 10));
                assert_eq!(decrypt(&c, &ct, &d, &p), Ok((n(5), n(12))));
            }
            Err(e) => assert_eq!(e, EccError::NoInverse),
        }
    }
}

#[test]
fn a_key_that_annihilates_the_base_point_masks_with_zero() {
    let c = curve23();
    let p = n(23);
    let d = n(7);
    let ct = encrypt_with(&c, &n(5), &n(12), &pt(5, 4), &d, &p, &n(3)).unwrap();
    assert_eq!(ct.masking, pt(13, 16));
    assert_eq!(ct.s1, n(0));
    assert_eq!(ct.s2, n(0));
    assert_eq!(decrypt(&c, &ct, &d, &p), Err(EccError::NoInverse));
}

#[test]
fn decrypt_can_fail_on_a_ciphertext_that_encrypt_gave() {
    let c = curve23();
    let p = n(23);
    let d = n(1);
    let ct = encrypt_with(&c, &n(5), &n(12), &pt(3, 10), &d, &p, &n(14)).unwrap();
    assert_eq!(ct.masking, pt(4, 0));
    assert_eq!(ct.s1, n(20));
    assert_eq!(ct.s2, n(2));
    assert_eq!(decrypt(&c, &ct, &d, &p), Err(EccError::NoInverse));
}

#[test]
fn decrypt_fails_on_a_masking_point_at_infinity() {
    let c = curve23();
    let ct = Ciphertext {
        masking: Point::infinity(),
        s1: n(9),
        s2: n(17),
    };
    assert_eq!(decrypt(&c, &ct, &n(7), &n(23)), Err(EccError::NoInverse));
}

#[test]
fn decrypt_fails_where_the_multiple_cannot_be_computed() {
    let c = curve23();
    let ct = Ciphertext {
        masking: pt(4, 0),
        s1: n(9),
        s2: n(17),
    };
    assert_eq!(decrypt(&c, &ct, &n(7), &n(23)), Err(EccError::NoInverse));
}

#[test]
fn every_scalar_in_range_round_trips_on_a_curve_of_prime_order() {
    let c = prime_order_curve();
    let p = n(23);
    let g = pt(2, 3);
    let d = n(7);
    for k in 1..22u32 {
        let ct = encrypt_with(&c, &n(5), &n(12), &g, &d, &p, &n(k)).unwrap();
        assert_eq!(Ok(ct.masking.clone()), c.scalar_mult(&n(k), &g));
        assert_eq!(decrypt(&c, &ct, &d, &p), Ok((n(5), n(12))));
    }
}

#[test]
fn a_ciphertext_on_a_curve_of_prime_order() {
    let c = prime_order_curve();
    let ct = encrypt_with(&c, &n(5), &n(12), &pt(2, 3), &n(7), &n(23), &n(5)).unwrap();
    assert_eq!(ct.masking, pt(12, 10));
    assert_eq!(ct.s1, n(2));
    assert_eq!(ct.s2, n(14));
}

#[test]
fn a_drawn_scalar_round_trips_on_a_curve_of_prime_order() {
    let c = prime_order_curve();
    let p = n(23);
    let g = pt(2, 3);
    let d = n(7);
    for _ in 0..50 {
        let ct = encrypt(&c, &n(5), &n(12), &g, &d, &p).unwrap();
        let mut scalars = 0;
        for k in 1..22u32 {
            if c.scalar_mult(&n(k), &g) == Ok(ct.masking.clone()) {
                scalars += 1;
            }
        }
        assert_eq!(scalars, 1);
        assert_eq!(decrypt(&c, &ct, &d, &p), Ok((n(5), n(12))));
    }
}

#[test]
fn plaintext_at_or_above_the_modulus_comes_back_reduced() {
    let c = prime_order_curve();
    let p = n(23);
    let d = n(7);
    let ct = encrypt_with(&c, &n(28), &n(23), &pt(2, 3), &d, &p, &n(5)).unwrap();
    assert_eq!(decrypt(&c, &ct, &d, &p), Ok((n(5), n(0))));
}

#[test]
fn a_round_trip_on_a_large_curve() {
    let p = hex("fffffffffffffffffffffffffffffffffffffffffffffffffffffffefffffc2f");
    let c = EllipticCurve::new(n(0), n(7), p.clone()).unwrap();
    let g = Point::new(
        hex("79be667ef9dcbbac55a06295ce870b07029bfcdb2dce28d959f2815b16f81798"),
        hex("483ada7726a3c4655da4fbfc0e1108a8fd17b448a68554199c47d08ffb10d4b8"),
    );
    let k = hex("1234567890abcdef1234567890abcdef1234567890abcdef1234567890abcdef");
    let d = hex("deadbeefcafebabe0123456789abcdef00112233445566778899aabbccddeeff");
    let x1 = hex("1111111111111111111111111111111111111111111111111111111111111111");
    let x2 = hex("2222222222222222222222222222222222222222222222222222222222222222");
    let ct = encrypt_with(&c, &x1, &x2, &g, &d, &p, &k).unwrap();
    assert_eq!(
        ct.masking,
        Point::new(
            hex("bb50e2d89a4ed70663d080659fe0ad4b9bc3e06c17a227433966cb59ceee020d"),
            hex("ecddbf6e00192011648d13b1c00af770c0c1bb609d4d3a5c98a43772e0e18ef4"),
        )
    );
    assert_eq!(
        ct.s1,
        hex("559114d6a58c2f8e11dbe40355aab6f61136613d6842b19b0630fb0ed6aa0e1f")
    );
    assert_eq!(
        ct.s2,
        hex("ab2229ad4b185f1c23b7c806ab556dec226cc27ad08563360c61f61dad541c3e")
    );
    assert_eq!(decrypt(&c, &ct, &d, &p), Ok((x1, x2)));
}

#[test]
fn a_drawn_scalar_round_trips_on_a_large_curve() {
    let p = hex("fffffffffffffffffffffffffffffffffffffffffffffffffffffffefffffc2f");
    let c = EllipticCurve::new(n(0), n(7), p.clone()).unwrap();
    let g = Point::new(
        hex("79be667ef9dcbbac55a06295ce870b07029bfcdb2dce28d959f2815b16f81798"),
        hex("483ada7726a3c4655da4fbfc0e1108a8fd17b448a68554199c47d08ffb10d4b8"),
    );
    let d = hex("deadbeefcafebabe0123456789abcdef00112233445566778899aabbccddeeff");
    let ct = encrypt(&c, &n(5), &n(12), &g, &d, &p).unwrap();
    assert!(c.is_on_curve(&ct.masking));
    assert_eq!(decrypt(&c, &ct, &d, &p), Ok((n(5), n(12))));
}
