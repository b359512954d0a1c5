use ecc_threshold_decryption::curve::{EllipticCurve, Point};
use ecc_threshold_decryption::error::EccError;
use num_bigint::BigUint;

fn n(v: u32) -> BigUint {
    BigUint::from(v)
}

fn pt(x: u32, y: u32) -> Point {
    Point::new(n(x), n(y))
}

fn curve23() -> EllipticCurve {
    EllipticCurve::new(n(1), n(1), n(23)).unwrap()
}

fn points_of(c: &EllipticCurve, p: u32) -> Vec<Point> {
    let mut all = Vec::new();
    for x in 0..p {
        for y in 0..p {
            if c.is_on_curve(&pt(x, y)) {
                all.push(pt(x, y));
            }
        }
    }
    all
}

#[test]
fn a_curve_needs_a_modulus_above_two() {
    assert!(EllipticCurve::new(n(1), n(1), n(0)).is_none());
    assert!(EllipticCurve::new(n(1), n(1), n(2)).is_none());
    assert!(EllipticCurve::new(n(1), n(1), n(3)).is_some());
}

#[test]
fn a_curve_keeps_its_parameters() {
    let c = EllipticCurve::new(n(2), n(3), n(97)).unwrap();
    assert_eq!(c.a(), &n(2));
    assert_eq!(c.b(), &n(3));
    assert_eq!(c.p(), &n(97));
}

#[test]
fn infinity_is_on_every_curve() {
    assert!(curve23().is_on_curve(&Point::infinity()));
}

#[test]
fn membership_follows_the_equation() {
    let c = curve23();
    assert!(c.is_on_curve(&pt(5, 4)));
    assert!(c.is_on_curve(&pt(5, 19)));
    assert!(c.is_on_curve(&pt(3, 10)));
    assert!(c.is_on_curve(&pt(4, 0)));
    assert!(!c.is_on_curve(&pt(5, 11)));
    assert!(!c.is_on_curve(&pt(0, 0)));
}

#[test]
fn membership_reduces_coordinates() {
    let c = curve23();
    assert!(c.is_on_curve(&pt(5 + 23, 4 + 46)));
}

#[test]
fn the_curve_has_twenty_seven_affine_points() {
    assert_eq!(points_of(&curve23(), 23).len(), 27);
}

#[test]
fn check_point_rejects_a_point_off_the_curve() {
    let c = curve23();
    assert_eq!(c.check_point(&pt(5, 11)), Err(EccError::InvalidPoint));
    assert_eq!(c.check_point(&pt(5, 4)), Ok(()));
    assert_eq!(c.check_point(&Point::infinity()), Ok(()));
}

#[test]
fn points_are_equal_by_coordinates() {
    assert!(pt(5, 4).equal(&pt(5, 4)));
    assert!(!pt(5, 4).equal(&pt(5, 19)));
    assert!(!pt(5, 4).equal(&pt(6, 4)));
    assert!(Point::infinity().equal(&Point::infinity()));
    assert!(!Point::infinity().equal(&pt(0, 0)));
    assert!(!pt(0, 0).equal(&Point::infinity()));
}

#[test]
fn a_copy_of_a_point_is_equal_to_it() {
    let g = pt(5, 4);
    assert_eq!(g.clone(), g);
    assert_eq!(Point::infinity().clone(), Point::infinity());
}

#[test]
fn the_first_coordinate_of_infinity_reads_as_zero() {
    assert_eq!(Point::infinity().x_or_zero(), n(0));
    assert_eq!(pt(5, 4).x_or_zero(), n(5));
}

#[test]
fn adding_infinity_changes_nothing() {
    let c = curve23();
    let g = pt(5, 4);
    assert_eq!(c.add(&g, &Point::infinity()), Ok(pt(5, 4)));
    assert_eq!(c.add(&Point::infinity(), &g), Ok(pt(5, 4)));
    assert_eq!(
        c.add(&Point::infinity(), &Point::infinity()),
        Ok(Point::infinity())
    );
}

#[test]
fn adding_infinity_keeps_a_point_off_the_curve() {
    let c = curve23();
    assert_eq!(c.add(&pt(5, 11), &Point::infinity()), Ok(pt(5, 11)));
    assert_eq!(c.add(&Point::infinity(), &pt(50, 60)), Ok(pt(50, 60)));
}

#[test]
fn doubling_follows_the_tangent() {
    assert_eq!(curve23().add(&pt(3, 10), &pt(3, 10)), Ok(pt(7, 12)));
}

#[test]
fn adding_follows_the_chord() {
    let c = curve23();
    assert_eq!(c.add(&pt(3, 10), &pt(9, 7)), Ok(pt(17, 20)));
    assert_eq!(c.add(&pt(9, 7), &pt(3, 10)), Ok(pt(17, 20)));
}

#[test]
fn opposite_points_add_to_infinity() {
    assert_eq!(curve23().add(&pt(5, 4), &pt(5, 19)), Ok(Point::infinity()));
}

#[test]
fn doubling_a_point_on_the_axis_fails() {
    assert_eq!(curve23().add(&pt(4, 0), &pt(4, 0)), Err(EccError::NoInverse));
}

#[test]
fn first_coordinates_that_differ_by_the_modulus_fail() {
    assert_eq!(
        curve23().add(&pt(3, 10), &pt(3 + 23, 10)),
        Err(EccError::NoInverse)
    );
}

#[test]
fn a_modulus_that_is_no_prime_can_fail_on_a_chord() {
    let c = EllipticCurve::new(n(1), n(1), n(15)).unwrap();
    assert_eq!(c.add(&pt(1, 2), &pt(4, 3)), Err(EccError::NoInverse));
}

#[test]
fn sums_of_points_of_the_curve_are_on_the_curve() {
    let c = curve23();
    let all = points_of(&c, 23);
    let mut sums = 0;
    for p1 in &all {
        for p2 in &all {
            match c.add(p1, p2) {
                Ok(sum) => {
                    assert!(c.is_on_curve(&sum));
                    sums += 1;
                }
                Err(e) => {
                    assert_eq!(e, EccError::NoInverse);
                    assert_eq!(p1, &pt(4, 0));
                    assert_eq!(p2, &pt(4, 0));
                }
            }
        }
    }
    assert_eq!(sums, 27 * 27 - 1);
}

#[test]
fn addition_commutes() {
    let c = curve23();
    let mut all = points_of(&c, 23);
    all.push(Point::infinity());
    all.push(pt(5, 11));
    all.push(pt(3 + 23, 10));
    for p1 in &all {
        for p2 in &all {
            assert_eq!(c.add(p1, p2), c.add(p2, p1));
        }
    }
}

#[test]
fn over_a_prime_only_doubling_on_the_axis_fails() {
    let c = curve23();
    let mut grid = Vec::new();
    for x in 0..23u32 {
        for y in [0u32, 1, 5, 22] {
            grid.push((x, y));
        }
    }
    for &(x1, y1) in &grid {
        for &(x2, y2) in &grid {
            let fails = c.add(&pt(x1, y1), &pt(x2, y2)).is_err();
            assert_eq!(fails, x1 == x2 && y1 == y2 && y1 == 0);
        }
    }
}
