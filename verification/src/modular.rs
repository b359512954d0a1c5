//! Arithmetic modulo a positive integer on arbitrary-precision numbers, and
//! the facts about congruences that the rest of the library is proved from.

use crate::bignum::{big_add, big_modinv, big_mul, big_rem, big_sub, value};
use crate::error::EccError;
use crate::euclid::{gcd, lemma_inverse_iff_coprime};
use num_bigint::BigUint;
use vstd::arithmetic::div_mod::{
    lemma_add_mod_noop, lemma_fundamental_div_mod, lemma_mod_bound, lemma_mod_equivalence,
    lemma_mod_multiples_basic, lemma_mul_mod_noop_right, lemma_small_mod,
};
use vstd::prelude::*;

verus! {

/// The product of `a` and `b`, reduced into `[0, p)`.
pub open spec fn spec_mod_mul(a: nat, b: nat, p: nat) -> nat {
    (a * b) % p
}

/// The sum of `a` and `b`, reduced into `[0, p)`.
pub open spec fn spec_mod_add(a: nat, b: nat, p: nat) -> nat {
    (a + b) % p
}

/// The difference `a - b`, reduced into `[0, p)`.
pub open spec fn spec_mod_sub(a: nat, b: nat, p: nat) -> nat {
    ((a - b) % (p as int)) as nat
}

/// `x` is the inverse of `a` modulo `p`: it lies in `[0, p)` and `a * x` is
/// congruent to 1.
pub open spec fn is_inverse_mod(a: nat, x: nat, p: nat) -> bool {
    x < p && (a * x) % p == 1nat % p
}

/// `a` has an inverse modulo `p`.
pub open spec fn has_inverse_mod(a: nat, p: nat) -> bool {
    exists|x: nat| is_inverse_mod(a, x, p)
}

/// The inverse of `a` modulo `p`, where `a` has one.
pub open spec fn spec_mod_inv(a: nat, p: nat) -> nat {
    choose|x: nat| is_inverse_mod(a, x, p)
}

/// `x` is a multiple of `p`.
pub open spec fn is_multiple(x: int, p: int) -> bool {
    x % p == 0
}

/// `a` and `b` differ by a multiple of `p`.
pub open spec fn congruent(a: int, b: int, p: int) -> bool {
    is_multiple(a - b, p)
}

/// The sum of two multiples of `p` is a multiple of `p`.
pub proof fn lemma_multiple_add(x: int, y: int, p: int)
    requires
        p > 0,
        is_multiple(x, p),
        is_multiple(y, p),
    ensures
        is_multiple(x + y, p),
{
    lemma_add_mod_noop(x, y, p);
    lemma_small_mod(0, p as nat);
}

/// Any product with a multiple of `p` is a multiple of `p`.
pub proof fn lemma_multiple_mul(c: int, x: int, p: int)
    requires
        p > 0,
        is_multiple(x, p),
    ensures
        is_multiple(c * x, p),
        is_multiple(x * c, p),
{
    lemma_mul_mod_noop_right(c, x, p);
    assert(c * 0 == 0);
    lemma_small_mod(0, p as nat);
    assert(c * x == x * c) by (nonlinear_arith);
}

/// The negation of a multiple of `p` is a multiple of `p`.
pub proof fn lemma_multiple_neg(x: int, p: int)
    requires
        p > 0,
        is_multiple(x, p),
    ensures
        is_multiple(-x, p),
{
    lemma_multiple_mul(-1, x, p);
    assert((-1) * x == -x);
}

/// A number is congruent to its remainder.
pub proof fn lemma_congruent_rem(x: int, p: int)
    requires
        p > 0,
    ensures
        congruent(x % p, x, p),
        congruent(x, x % p, p),
{
    lemma_fundamental_div_mod(x, p);
    let q = x / p;
    assert(x - x % p == q * p) by (nonlinear_arith)
        requires
            x == p * q + x % p,
    ;
    lemma_mod_multiples_basic(q, p);
    lemma_multiple_neg(x - x % p, p);
}

/// Congruent numbers are those with the same remainder.
pub proof fn lemma_congruent_iff(a: int, b: int, p: int)
    requires
        p > 0,
    ensures
        congruent(a, b, p) <==> a % p == b % p,
{
    lemma_mod_equivalence(a, b, p);
}

/// Congruence is symmetric.
pub proof fn lemma_congruent_sym(a: int, b: int, p: int)
    requires
        p > 0,
        congruent(a, b, p),
    ensures
        congruent(b, a, p),
{
    lemma_multiple_neg(a - b, p);
}

/// Congruence is transitive.
pub proof fn lemma_congruent_trans(a: int, b: int, c: int, p: int)
    requires
        p > 0,
        congruent(a, b, p),
        congruent(b, c, p),
    ensures
        congruent(a, c, p),
{
    lemma_multiple_add(a - b, b - c, p);
}

/// Congruences can be added.
pub proof fn lemma_congruent_add(a: int, b: int, c: int, d: int, p: int)
    requires
        p > 0,
        congruent(a, b, p),
        congruent(c, d, p),
    ensures
        congruent(a + c, b + d, p),
{
    lemma_multiple_add(a - b, c - d, p);
}

/// Congruences can be subtracted.
pub proof fn lemma_congruent_sub(a: int, b: int, c: int, d: int, p: int)
    requires
        p > 0,
        congruent(a, b, p),
        congruent(c, d, p),
    ensures
        congruent(a - c, b - d, p),
{
    lemma_multiple_neg(c - d, p);
    lemma_multiple_add(a - b, -(c - d), p);
}

/// Congruences can be multiplied.
pub proof fn lemma_congruent_mul(a: int, b: int, c: int, d: int, p: int)
    requires
        p > 0,
        congruent(a, b, p),
        congruent(c, d, p),
    ensures
        congruent(a * c, b * d, p),
{
    lemma_multiple_mul(c, a - b, p);
    lemma_multiple_mul(b, c - d, p);
    lemma_multiple_add((a - b) * c, b * (c - d), p);
    assert(a * c - b * d == (a - b) * c + b * (c - d)) by (nonlinear_arith);
}

/// Two numbers in `[0, p)` that are congruent are equal.
pub proof fn lemma_congruent_small(a: int, b: int, p: int)
    requires
        0 <= a < p,
        0 <= b < p,
        congruent(a, b, p),
    ensures
        a == b,
{
    lemma_congruent_iff(a, b, p);
    lemma_small_mod(a as nat, p as nat);
    lemma_small_mod(b as nat, p as nat);
}

/// An element has at most one inverse modulo `p`.
pub proof fn lemma_inverse_unique(a: nat, x: nat, y: nat, p: nat)
    requires
        p > 0,
        is_inverse_mod(a, x, p),
        is_inverse_mod(a, y, p),
    ensures
        x == y,
{
    let ai = a as int;
    let xi = x as int;
    let yi = y as int;
    let pi = p as int;
    lemma_congruent_iff(ai * xi, 1, pi);
    lemma_congruent_iff(ai * yi, 1, pi);
    lemma_multiple_mul(yi, ai * xi - 1, pi);
    lemma_multiple_mul(xi, ai * yi - 1, pi);
    lemma_congruent_sub(yi * (ai * xi - 1), 0, xi * (ai * yi - 1), 0, pi);
    assert(yi * (ai * xi - 1) - xi * (ai * yi - 1) == xi - yi) by (nonlinear_arith);
    lemma_congruent_small(xi, yi, pi);
}

/// The inverse that `spec_mod_inv` names is the only one.
pub proof fn lemma_inverse_is_spec(a: nat, x: nat, p: nat)
    requires
        p > 0,
        is_inverse_mod(a, x, p),
    ensures
        has_inverse_mod(a, p),
        spec_mod_inv(a, p) == x,
{
    lemma_inverse_unique(a, x, spec_mod_inv(a, p), p);
}

/// Reducing after the first of two subtractions changes nothing.
pub proof fn lemma_sub_chain(a: int, x: int, y: int, p: int)
    requires
        p > 0,
    ensures
        (((a % p) - x) % p - y) % p == (a - x - y) % p,
{
    lemma_congruent_rem(a, p);
    lemma_congruent_sub(a % p, a, x, x, p);
    lemma_congruent_rem((a % p) - x, p);
    lemma_congruent_trans(((a % p) - x) % p, (a % p) - x, a - x, p);
    lemma_congruent_sub(((a % p) - x) % p, a - x, y, y, p);
    lemma_congruent_iff(((a % p) - x) % p - y, a - x - y, p);
}

/// Reducing a factor and a product before a subtraction changes nothing.
pub proof fn lemma_mul_sub_chain(l: int, d: int, y: int, p: int)
    requires
        p > 0,
    ensures
        ((l * (d % p)) % p - y) % p == (l * d - y) % p,
{
    lemma_congruent_rem(d, p);
    lemma_congruent_mul(l, l, d % p, d, p);
    lemma_congruent_rem(l * (d % p), p);
    lemma_congruent_trans((l * (d % p)) % p, l * (d % p), l * d, p);
    lemma_congruent_sub((l * (d % p)) % p, l * d, y, y, p);
    lemma_congruent_iff((l * (d % p)) % p - y, l * d - y, p);
}

/// Multiplies two numbers modulo `p`.
pub fn mod_mul(a: &BigUint, b: &BigUint, p: &BigUint) -> (r: BigUint)
    requires
        value(p) > 0,
    ensures
        value(&r) == spec_mod_mul(value(a), value(b), value(p)),
        value(&r) < value(p),
{
    proof {
        lemma_mod_bound((value(a) * value(b)) as int, value(p) as int);
    }
    big_rem(&big_mul(a, b), p)
}

/// Adds two numbers modulo `p`.
pub fn mod_add(a: &BigUint, b: &BigUint, p: &BigUint) -> (r: BigUint)
    requires
        value(p) > 0,
    ensures
        value(&r) == spec_mod_add(value(a), value(b), value(p)),
        value(&r) < value(p),
{
    proof {
        lemma_mod_bound((value(a) + value(b)) as int, value(p) as int);
    }
    big_rem(&big_add(a, b), p)
}

/// Subtracts `b` from `a` modulo `p`. The operands may be in any order of
/// size: the result is the representative of `a - b` in `[0, p)`.
pub fn mod_sub(a: &BigUint, b: &BigUint, p: &BigUint) -> (r: BigUint)
    requires
        value(p) > 0,
    ensures
        value(&r) == spec_mod_sub(value(a), value(b), value(p)),
        value(&r) < value(p),
{
    let ra = big_rem(a, p);
    let rb = big_rem(b, p);
    let lifted = big_add(&ra, p);
    proof {
        lemma_mod_bound(value(a) as int, value(p) as int);
        lemma_mod_bound(value(b) as int, value(p) as int);
    }
    let diff = big_sub(&lifted, &rb);
    let r = big_rem(&diff, p);
    proof {
        let ai = value(a) as int;
        let bi = value(b) as int;
        let pi = value(p) as int;
        lemma_congruent_rem(ai, pi);
        lemma_congruent_rem(bi, pi);
        lemma_congruent_sub(ai % pi, ai, bi % pi, bi, pi);
        lemma_mod_multiples_basic(1, pi);
        lemma_congruent_add(ai % pi - bi % pi, ai - bi, pi, 0, pi);
        lemma_congruent_iff(ai % pi - bi % pi + pi, ai - bi, pi);
        lemma_mod_bound(ai - bi, pi);
    }
    r
}

/// Inverts `a` modulo `p`. The inverse is the one number `x` in `[0, p)` with
/// `a * x` congruent to 1. There is one exactly when `a` and `p` have no
/// common divisor but 1; otherwise the call fails with `NoInverse`.
pub fn mod_inv(a: &BigUint, p: &BigUint) -> (r: Result<BigUint, EccError>)
    requires
        value(p) > 0,
    ensures
        match r {
            Ok(x) => has_inverse_mod(value(a), value(p)) && value(&x) == spec_mod_inv(
                value(a),
                value(p),
            ) && is_inverse_mod(value(a), value(&x), value(p)),
            Err(e) => e == EccError::NoInverse && !has_inverse_mod(value(a), value(p)),
        },
        r.is_ok() <==> gcd(value(a), value(p)) == 1,
{
    proof {
        lemma_inverse_iff_coprime(value(a), value(p));
    }
    match big_modinv(a, p) {
        Some(x) => {
            proof {
                lemma_inverse_is_spec(value(a), value(&x), value(p));
            }
            Ok(x)
        },
        None => Err(EccError::NoInverse),
    }
}

} // verus!
