use ecc_threshold_decryption::curve::{EllipticCurve, Point};
use ecc_threshold_decryption::error::EccError;
use ecc_threshold_decryption::scheme::{decrypt, encrypt_with};
use ecc_threshold_decryption::threshold::{combine, partial_decrypt, threshold_decrypt, unmask};
use num_bigint::BigUint;

fn n(v: u32) -> BigUint {
    BigUint::from(v)
}

fn pt(x: u32, y: u32) -> Point {
    Point::new(n(x), n(y))
}

fn curve23() -> EllipticCurve {
    EllipticCurve::new(n(1), n(1), n(23)).unwrap()
}

#[test]
fn a_partial_value_is_the_share_times_the_first_coordinate() {
    assert_eq!(partial_decrypt(&n(3), &pt(3, 10), &n(23)), n(9));
    assert_eq!(partial_decrypt(&n(4), &pt(3, 10), &n(23)), n(12));
    assert_eq!(partial_decrypt(&n(9), &pt(20, 15), &n(23)), n(19));
}

#[test]
fn a_partial_value_of_infinity_is_zero() {
    assert_eq!(partial_decrypt(&n(3), &Point::infinity(), &n(23)), n(0));
}

#[test]
fn unmask_divides_both_values() {
    assert_eq!(unmask(&n(9), &n(17), &n(11), &n(23)), Ok((n(5), n(12))));
    assert_eq!(unmask(&n(9), &n(17), &n(0), &n(23)), Err(EccError::NoInverse));
}

#[test]
fn two_shares_on_the_curve_do_not_recover_what_the_whole_key_does() {
    let c = curve23();
    let p = n(23);
    let ct = encrypt_with(&c, &n(5), &n(12), &pt(3, 10), &n(7), &p, &n(1)).unwrap();
    let q1 = partial_decrypt(&n(3), &ct.masking, &p);
    let q2 = partial_decrypt(&n(4), &ct.masking, &p);
    assert_eq!(q1, n(9));
    assert_eq!(q2, n(12));
    assert_eq!(
        threshold_decrypt(&ct.s1, &ct.s2, &q1, &q2, &p),
        Ok((n(7), n(3)))
    );
    assert_eq!(decrypt(&c, &ct, &n(7), &p), Ok((n(5), n(12))));
}

#[test]
fn two_shares_divide_by_their_sum() {
    assert_eq!(
        threshold_decrypt(&n(9), &n(17), &n(9), &n(12), &n(23)),
        Ok((n(7), n(3)))
    );
    assert_eq!(
        threshold_decrypt(&n(9), &n(17), &n(12), &n(9), &n(23)),
        Ok((n(7), n(3)))
    );
}

#[test]
fn two_shares_that_cancel_have_no_inverse() {
    assert_eq!(
        threshold_decrypt(&n(9), &n(17), &n(9), &n(14), &n(23)),
        Err(EccError::NoInverse)
    );
}

#[test]
fn combine_of_two_shares_is_threshold_decrypt() {
    let shares = vec![n(9), n(12)];
    assert_eq!(combine(&n(9), &n(17), &shares, &n(23)), Ok((n(7), n(3))));
}

#[test]
fn combine_adds_up_any_number_of_shares() {
    let shares = vec![n(9), n(12), n(5)];
    assert_eq!(combine(&n(9), &n(17), &shares, &n(23)), Ok((n(3), n(21))));
    let one = vec![n(11)];
    assert_eq!(combine(&n(9), &n(17), &one, &n(23)), Ok((n(5), n(12))));
}

#[test]
fn combine_reduces_shares_above_the_modulus() {
    let shares = vec![n(9 + 23), n(12 + 46), n(5)];
    assert_eq!(combine(&n(9), &n(17), &shares, &n(23)), Ok((n(3), n(21))));
}

#[test]
fn combine_of_no_shares_has_no_inverse() {
    let shares: Vec<BigUint> = Vec::new();
    assert_eq!(
        combine(&n(9), &n(17), &shares, &n(23)),
        Err(EccError::NoInverse)
    );
}

#[test]
fn combine_of_shares_that_cancel_has_no_inverse() {
    let shares = vec![n(20), n(2), n(1)];
    assert_eq!(
        combine(&n(9), &n(17), &shares, &n(23)),
        Err(EccError::NoInverse)
    );
}
