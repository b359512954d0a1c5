//! What this library believes of `num_bigint::BigUint`.
//!
//! A `BigUint` is opaque to the verifier. Its value as a natural number is
//! given the name [`value`], and each operation that the library uses is
//! reached through one function of this module whose contract says, over
//! that name, what the operation computes. None of these contracts is
//! proved: they restate the documentation of `num_bigint`.

use crate::modular::is_inverse_mod;
use num_bigint::BigUint;
use num_bigint::RandBigInt;
use num_traits::One;
use num_traits::Zero;
use vstd::arithmetic::power2::pow2;
use vstd::prelude::*;

verus! {

#[verifier::external_type_specification]
#[verifier::external_body]
pub struct ExBigUint(num_bigint::BigUint);

/// The natural number that a `BigUint` holds.
pub uninterp spec fn value(n: &BigUint) -> nat;

/// `<BigUint as Zero>::zero`: the number 0.
#[verifier::external_body]
pub(crate) fn big_zero() -> (r: BigUint)
    ensures
        value(&r) == 0,
{
    BigUint::zero()
}

/// `<BigUint as One>::one`: the number 1.
#[verifier::external_body]
pub(crate) fn big_one() -> (r: BigUint)
    ensures
        value(&r) == 1,
{
    BigUint::one()
}

/// `<BigUint as From<u32>>::from`: the same number, widened.
#[verifier::external_body]
pub(crate) fn big_from_u32(n: u32) -> (r: BigUint)
    ensures
        value(&r) == n,
{
    BigUint::from(n)
}

/// `<BigUint as Clone>::clone`: a copy holds the same number.
#[verifier::external_body]
pub(crate) fn big_clone(a: &BigUint) -> (r: BigUint)
    ensures
        value(&r) == value(a),
{
    a.clone()
}

/// `==` on `BigUint`: true exactly when both hold the same number.
#[verifier::external_body]
pub(crate) fn big_eq(a: &BigUint, b: &BigUint) -> (r: bool)
    ensures
        r == (value(a) == value(b)),
{
    a == b
}

/// `<` on `BigUint`: the order of the natural numbers.
#[verifier::external_body]
pub(crate) fn big_lt(a: &BigUint, b: &BigUint) -> (r: bool)
    ensures
        r == (value(a) < value(b)),
{
    a < b
}

/// `+` on `&BigUint`: the exact sum.
#[verifier::external_body]
pub(crate) fn big_add(a: &BigUint, b: &BigUint) -> (r: BigUint)
    ensures
        value(&r) == value(a) + value(b),
{
    a + b
}

/// `-` on `&BigUint`: the exact difference. The operator panics when the
/// result would be negative, so the contract leaves that case out.
#[verifier::external_body]
pub(crate) fn big_sub(a: &BigUint, b: &BigUint) -> (r: BigUint)
    requires
        value(b) <= value(a),
    ensures
        value(&r) == value(a) - value(b),
{
    a - b
}

/// `*` on `&BigUint`: the exact product.
#[verifier::external_body]
pub(crate) fn big_mul(a: &BigUint, b: &BigUint) -> (r: BigUint)
    ensures
        value(&r) == value(a) * value(b),
{
    a * b
}

/// `%` on `&BigUint`: the remainder of the division. The operator panics on
/// a zero divisor, so the contract leaves that case out.
#[verifier::external_body]
pub(crate) fn big_rem(a: &BigUint, m: &BigUint) -> (r: BigUint)
    requires
        value(m) > 0,
    ensures
        value(&r) == value(a) % value(m),
{
    a % m
}

/// `>>` on `&BigUint`: the quotient by the given power of two, rounded down.
#[verifier::external_body]
pub(crate) fn big_shr(a: &BigUint, bits: u32) -> (r: BigUint)
    ensures
        value(&r) == value(a) / pow2(bits as nat),
{
    a >> bits
}

/// `BigUint::modinv`: the inverse of `a` modulo `m` in `[0, m)` where there
/// is one, and `None` where there is none. The method panics on a zero
/// modulus, so the contract leaves that case out.
#[verifier::external_body]
pub(crate) fn big_modinv(a: &BigUint, m: &BigUint) -> (r: Option<BigUint>)
    requires
        value(m) > 0,
    ensures
        match r {
            Some(x) => is_inverse_mod(value(a), value(&x), value(m)),
            None => forall|x: nat| !is_inverse_mod(value(a), x, value(m)),
        },
{
    a.modinv(m)
}

/// `RandBigInt::gen_biguint_range` on `rand::thread_rng()`: some number at
/// least `low` and below `high`. Which one is not said. The method panics on
/// an empty range, so the contract leaves that case out.
#[verifier::external_body]
pub(crate) fn big_random_range(low: &BigUint, high: &BigUint) -> (r: BigUint)
    requires
        value(low) < value(high),
    ensures
        value(low) <= value(&r) < value(high),
{
    rand::thread_rng().gen_biguint_range(low, high)
}

} // verus!
