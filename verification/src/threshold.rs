//! Decryption by several holders of key shares. Each holder turns the
//! masking element of a ciphertext and its own share into a partial value;
//! the combiner adds the partial values up and divides both masked values by
//! the sum.
//!
//! The sum of the partial values stands in for the field element that a
//! holder of the whole key would compute. On a curve nothing makes the two
//! agree: the first coordinate of a multiple of a point is not the multiple
//! of its first coordinate. The combiner computes exactly what is written
//! above, for any number of shares; it is no interpolation of a shared
//! polynomial.

use crate::bignum::{big_zero, value};
use crate::group::GroupElement;
use crate::error::EccError;
use crate::modular::{
    has_inverse_mod, lemma_congruent_add, lemma_congruent_iff, lemma_congruent_mul,
    lemma_congruent_rem, lemma_congruent_trans, mod_add, mod_inv, mod_mul, spec_mod_inv,
    spec_mod_mul,
};
use num_bigint::BigUint;
use vstd::arithmetic::div_mod::lemma_small_mod;
use vstd::prelude::*;

verus! {

/// The model of a fallible pair of numbers.
pub open spec fn pair_outcome(r: Result<(BigUint, BigUint), EccError>) -> Result<
    (nat, nat),
    EccError,
> {
    match r {
        Ok(pair) => Ok((value(&pair.0), value(&pair.1))),
        Err(e) => Err(e),
    }
}

/// Both masked values divided by `q` modulo `p`, where `q` has an inverse.
pub open spec fn spec_unmask(s1: nat, s2: nat, q: nat, p: nat) -> Result<(nat, nat), EccError> {
    if has_inverse_mod(q, p) {
        Ok((spec_mod_mul(s1, spec_mod_inv(q, p), p), spec_mod_mul(s2, spec_mod_inv(q, p), p)))
    } else {
        Err(EccError::NoInverse)
    }
}

/// The partial value of the holder of `share` for a ciphertext whose masking
/// element stands for the field element `x`.
pub open spec fn spec_partial(share: nat, x: nat, p: nat) -> nat {
    spec_mod_mul(share, x, p)
}

/// The sum of the partial values.
pub open spec fn share_sum(shares: Seq<nat>) -> nat
    decreases shares.len(),
{
    if shares.len() == 0 {
        0
    } else {
        share_sum(shares.drop_last()) + shares.last()
    }
}

/// The numbers that a sequence of partial values holds.
pub open spec fn share_values(shares: Seq<BigUint>) -> Seq<nat> {
    Seq::new(shares.len(), |i: int| value(&shares[i]))
}

/// What the combiner recovers: both masked values divided by the sum of the
/// partial values modulo `p`.
pub open spec fn spec_combine(s1: nat, s2: nat, shares: Seq<nat>, p: nat) -> Result<
    (nat, nat),
    EccError,
> {
    spec_unmask(s1, s2, share_sum(shares) % p, p)
}

/// Divides both masked values by `q` modulo `p`. Fails with `NoInverse`
/// exactly when `q` has no inverse modulo `p`.
pub fn unmask(s1: &BigUint, s2: &BigUint, q: &BigUint, p: &BigUint) -> (r: Result<
    (BigUint, BigUint),
    EccError,
>)
    requires
        value(p) > 0,
    ensures
        pair_outcome(r) == spec_unmask(value(s1), value(s2), value(q), value(p)),
{
    match mod_inv(q, p) {
        Ok(inverse) => {
            let b1 = mod_mul(s1, &inverse, p);
            let b2 = mod_mul(s2, &inverse, p);
            Ok((b1, b2))
        },
        Err(e) => Err(e),
    }
}

/// The partial decryption of one holder: its key share times the field
/// element that stands for the masking element, modulo `p`.
pub fn partial_decrypt<E: GroupElement>(d_i: &BigUint, y: &E, p: &BigUint) -> (r: BigUint)
    requires
        value(p) > 0,
    ensures
        value(&r) == spec_partial(value(d_i), E::spec_coordinate(y.model()), value(p)),
        value(&r) < value(p),
{
    let x = y.coordinate();
    mod_mul(d_i, &x, p)
}

/// Combines any number of partial values: adds them up modulo `p` and divides
/// both masked values by the sum. Fails with `NoInverse` exactly when the sum
/// has no inverse modulo `p`.
pub fn combine(s1: &BigUint, s2: &BigUint, shares: &Vec<BigUint>, p: &BigUint) -> (r: Result<
    (BigUint, BigUint),
    EccError,
>)
    requires
        value(p) > 0,
    ensures
        pair_outcome(r) == spec_combine(value(s1), value(s2), share_values(shares@), value(p)),
{
    let zero = big_zero();
    let mut total = mod_add(&zero, &zero, p);
    let mut i: usize = 0;
    proof {
        lemma_small_mod(0, value(p));
        assert(share_values(shares@).take(0).len() == 0);
    }
    while i < shares.len()
        invariant
            value(p) > 0,
            i <= shares.len(),
            value(&total) == share_sum(share_values(shares@).take(i as int)) % value(p),
        decreases shares.len() - i,
    {
        let next = mod_add(&total, &shares[i], p);
        proof {
            let all = share_values(shares@);
            let before = all.take(i as int);
            let after = all.take(i + 1);
            assert(after.drop_last() =~= before);
            assert(after.last() == value(&shares@[i as int]));
            let pi = value(p) as int;
            let sum = share_sum(before) as int;
            let q = value(&shares@[i as int]) as int;
            lemma_congruent_rem(sum, pi);
            lemma_congruent_add(sum % pi, sum, q, q, pi);
            lemma_congruent_iff(sum % pi + q, sum + q, pi);
        }
        total = next;
        i = i + 1;
    }
    proof {
        assert(share_values(shares@).take(shares.len() as int) =~= share_values(shares@));
    }
    unmask(s1, s2, &total, p)
}

/// Combines the partial values of two holders.
pub fn threshold_decrypt(
    s1: &BigUint,
    s2: &BigUint,
    q1: &BigUint,
    q2: &BigUint,
    p: &BigUint,
) -> (r: Result<(BigUint, BigUint), EccError>)
    requires
        value(p) > 0,
    ensures
        pair_outcome(r) == spec_combine(
            value(s1),
            value(s2),
            seq![value(q1), value(q2)],
            value(p),
        ),
{
    let q = mod_add(q1, q2, p);
    proof {
        lemma_share_sum_two(value(q1), value(q2));
    }
    unmask(s1, s2, &q, p)
}

/// The sum of two partial values.
pub proof fn lemma_share_sum_two(q1: nat, q2: nat)
    ensures
        share_sum(seq![q1, q2]) == q1 + q2,
{
    let both = seq![q1, q2];
    let first = seq![q1];
    assert(both.drop_last() =~= first);
    assert(first.drop_last() =~= Seq::<nat>::empty());
    assert(share_sum(Seq::<nat>::empty()) == 0);
    assert(share_sum(first) == share_sum(first.drop_last()) + first.last());
    assert(share_sum(both) == share_sum(both.drop_last()) + both.last());
}

/// Dividing by an invertible factor undoes multiplying by it: for values
/// below `p`, unmasking with `c` what was masked with `c` gives the values
/// back.
pub proof fn lemma_unmask_recovers(c: nat, x1: nat, x2: nat, p: nat)
    requires
        p > 0,
        x1 < p,
        x2 < p,
        has_inverse_mod(c, p),
    ensures
        spec_unmask(spec_mod_mul(c, x1, p), spec_mod_mul(c, x2, p), c, p) == Ok::<
            (nat, nat),
            EccError,
        >((x1, x2)),
{
    lemma_cancel(c, x1, p);
    lemma_cancel(c, x2, p);
}

/// Multiplying by `c` and then by its inverse gives a value below `p` back.
proof fn lemma_cancel(c: nat, x: nat, p: nat)
    requires
        p > 0,
        x < p,
        has_inverse_mod(c, p),
    ensures
        spec_mod_mul(spec_mod_mul(c, x, p), spec_mod_inv(c, p), p) == x,
{
    let pi = p as int;
    let ci = c as int;
    let xi = x as int;
    let inv = spec_mod_inv(c, p) as int;
    lemma_congruent_rem(ci * xi, pi);
    lemma_congruent_mul((ci * xi) % pi, ci * xi, inv, inv, pi);
    lemma_congruent_iff(ci * inv, 1, pi);
    lemma_congruent_mul(xi, xi, ci * inv, 1, pi);
    assert((ci * xi) * inv == xi * (ci * inv)) by (nonlinear_arith);
    assert(xi * 1 == xi);
    lemma_congruent_trans(((ci * xi) % pi) * inv, (ci * xi) * inv, xi, pi);
    lemma_congruent_iff(((ci * xi) % pi) * inv, xi, pi);
    lemma_small_mod(x, p);
}

} // verus!
