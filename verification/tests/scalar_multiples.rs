use ecc_threshold_decryption::curve::{EllipticCurve, Point};
use ecc_threshold_decryption::error::EccError;
use num_bigint::BigUint;

fn n(v: u32) -> BigUint {
    BigUint::from(v)
}

fn hex(digits: &str) -> BigUint {
    BigUint::parse_bytes(digits.as_bytes(), 16).unwrap()
}

fn pt(x: u32, y: u32) -> Point {
    Point::new(n(x), n(y))
}

fn curve23() -> EllipticCurve {
    EllipticCurve::new(n(1), n(1), n(23)).unwrap()
}

fn prime_order_curve() -> EllipticCurve {
    EllipticCurve::new(n(5), n(14), n(23)).unwrap()
}

fn secp256k1() -> (EllipticCurve, Point) {
    let p = hex("fffffffffffffffffffffffffffffffffffffffffffffffffffffffefffffc2f");
    let g = Point::new(
        hex("79be667ef9dcbbac55a06295ce870b07029bfcdb2dce28d959f2815b16f81798"),
        hex("483ada7726a3c4655da4fbfc0e1108a8fd17b448a68554199c47d08ffb10d4b8"),
    );
    (EllipticCurve::new(n(0), n(7), p).unwrap(), g)
}

#[test]
fn the_multiple_by_zero_is_infinity() {
    let c = curve23();
    assert_eq!(c.scalar_mult(&n(0), &pt(3, 10)), Ok(Point::infinity()));
    assert_eq!(c.scalar_mult(&n(0), &pt(4, 0)), Ok(Point::infinity()));
    assert_eq!(c.scalar_mult(&n(0), &pt(5, 11)), Ok(Point::infinity()));
    assert_eq!(
        c.scalar_mult(&n(0), &Point::infinity()),
        Ok(Point::infinity())
    );
}

#[test]
fn multiples_of_infinity_are_infinity() {
    assert_eq!(
        curve23().scalar_mult(&n(13), &Point::infinity()),
        Ok(Point::infinity())
    );
}

#[test]
fn small_multiples_of_a_point() {
    let c = curve23();
    let g = pt(3, 10);
    assert_eq!(c.scalar_mult(&n(1), &g), Ok(pt(3, 10)));
    assert_eq!(c.scalar_mult(&n(2), &g), Ok(pt(7, 12)));
    assert_eq!(c.scalar_mult(&n(3), &g), Ok(pt(19, 5)));
    assert_eq!(c.scalar_mult(&n(4), &g), Ok(pt(17, 3)));
    assert_eq!(c.scalar_mult(&n(5), &g), Ok(pt(9, 16)));
    assert_eq!(c.scalar_mult(&n(6), &g), Ok(pt(12, 4)));
    assert_eq!(c.scalar_mult(&n(7), &g), Ok(pt(11, 3)));
}

#[test]
fn multiples_on_a_curve_of_prime_order() {
    let c = prime_order_curve();
    let g = pt(2, 3);
    assert_eq!(c.scalar_mult(&n(2), &g), Ok(pt(20, 15)));
    assert_eq!(c.scalar_mult(&n(5), &g), Ok(pt(12, 10)));
    assert_eq!(c.scalar_mult(&n(7), &g), Ok(pt(9, 12)));
    assert_eq!(c.scalar_mult(&n(23), &g), Ok(Point::infinity()));
    assert_eq!(c.scalar_mult(&n(24), &g), Ok(pt(2, 3)));
}

#[test]
fn multiples_add_up_on_a_curve_of_prime_order() {
    let c = prime_order_curve();
    let g = pt(2, 3);
    for k in 0..30u32 {
        for m in 0..30u32 {
            let left = c.scalar_mult(&n(k + m), &g).unwrap();
            let right = c
                .add(
                    &c.scalar_mult(&n(k), &g).unwrap(),
                    &c.scalar_mult(&n(m), &g).unwrap(),
                )
                .unwrap();
            assert_eq!(left, right);
        }
    }
}

#[test]
fn multiples_stay_on_the_curve() {
    let c = curve23();
    for k in 0..40u32 {
        if let Ok(multiple) = c.scalar_mult(&n(k), &pt(5, 4)) {
            assert!(c.is_on_curve(&multiple));
        }
    }
}

#[test]
fn the_doubling_after_the_last_bit_can_fail() {
    let c = curve23();
    assert_eq!(c.scalar_mult(&n(1), &pt(4, 0)), Err(EccError::NoInverse));
    assert_eq!(c.scalar_mult(&n(1), &pt(11, 3)), Ok(pt(11, 3)));
    assert_eq!(c.add(&pt(11, 3), &pt(11, 3)), Ok(pt(4, 0)));
    assert_eq!(c.scalar_mult(&n(2), &pt(11, 3)), Err(EccError::NoInverse));
}

#[test]
fn doubling_on_a_large_curve() {
    let (c, g) = secp256k1();
    assert!(c.is_on_curve(&g));
    let twice = Point::new(
        hex("c6047f9441ed7d6d3045406e95c07cd85c778e4b8cef3ca7abac09b95c709ee5"),
        hex("1ae168fea63dc339a3c58419466ceaeef7f632653266d0e1236431a950cfe52a"),
    );
    assert_eq!(c.add(&g, &g), Ok(twice.clone()));
    assert_eq!(c.scalar_mult(&n(2), &g), Ok(twice));
}

#[test]
fn a_large_multiple_on_a_large_curve() {
    let (c, g) = secp256k1();
    let k = hex("1234567890abcdef1234567890abcdef1234567890abcdef1234567890abcdef");
    let expected = Point::new(
        hex("bb50e2d89a4ed70663d080659fe0ad4b9bc3e06c17a227433966cb59ceee020d"),
        hex("ecddbf6e00192011648d13b1c00af770c0c1bb609d4d3a5c98a43772e0e18ef4"),
    );
    assert_eq!(c.scalar_mult(&k, &g), Ok(expected));
}

#[test]
fn the_group_order_times_the_generator_is_infinity() {
    let (c, g) = secp256k1();
    let order = hex("fffffffffffffffffffffffffffffffebaaedce6af48a03bbfd25e8cd0364141");
    assert_eq!(c.scalar_mult(&order, &g), Ok(Point::infinity()));
}

#[test]
fn a_high_bit_adds_its_own_multiple() {
    let c = curve23();
    for g in [pt(3, 10), pt(5, 4), pt(11, 3), pt(6, 4), pt(4, 0)] {
        for j in 0..6u32 {
            let high = 1u32 << j;
            for k in 0..high {
                let whole = c.scalar_mult(&n(k + high), &g);
                let parts = match (c.scalar_mult(&n(k), &g), c.scalar_mult(&n(high), &g)) {
                    (Ok(low), Ok(top)) => c.add(&low, &top),
                    _ => Err(EccError::NoInverse),
                };
                assert_eq!(whole, parts);
            }
        }
    }
}
