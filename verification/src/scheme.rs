//! An ElGamal-style encryption of two field elements over a group, and its
//! decryption by the holder of the whole key.
//!
//! Both plaintext values are masked by the same factor, the field element
//! that stands for one group element, so the quotient of the two masked
//! values is the quotient of the plaintexts. This is a teaching scheme, not
//! a vetted one.

use crate::bignum::{big_one, big_random_range, big_sub, value};
use crate::error::EccError;
use crate::group::GroupElement;
use crate::modular::{has_inverse_mod, mod_mul, spec_mod_mul};
use crate::threshold::{lemma_unmask_recovers, pair_outcome, spec_unmask, unmask};
use num_bigint::BigUint;
use vstd::prelude::*;

verus! {

/// A ciphertext as the contracts see it.
pub struct CiphertextModel<M> {
    pub masking: M,
    pub s1: nat,
    pub s2: nat,
}

/// The masking element and the two masked values.
#[derive(Debug)]
pub struct Ciphertext<E> {
    pub masking: E,
    pub s1: BigUint,
    pub s2: BigUint,
}

/// The model of a ciphertext.
pub open spec fn cipher_model<E: GroupElement>(ct: &Ciphertext<E>) -> CiphertextModel<E::Model> {
    CiphertextModel { masking: ct.masking.model(), s1: value(&ct.s1), s2: value(&ct.s2) }
}

/// The model of what an encryption returned.
pub open spec fn cipher_outcome<E: GroupElement>(r: Result<Ciphertext<E>, EccError>) -> Result<
    CiphertextModel<E::Model>,
    EccError,
> {
    match r {
        Ok(ct) => Ok(cipher_model(&ct)),
        Err(e) => Err(e),
    }
}

/// The ciphertext of `(x1, x2)` under the key `d` with the ephemeral scalar
/// `k`: the masking element is `k * g`, and both values are multiplied
/// modulo `p` by the field element that stands for `k * (d * g)`. It fails
/// where one of the three multiples does.
pub open spec fn spec_encrypt<E: GroupElement>(
    gm: E::GroupModel,
    x1: nat,
    x2: nat,
    g: E::Model,
    d: nat,
    p: nat,
    k: nat,
) -> Result<CiphertextModel<E::Model>, EccError> {
    match E::spec_scalar_mul(gm, k, g) {
        Err(e) => Err(e),
        Ok(masking) => match E::spec_scalar_mul(gm, d, g) {
            Err(e) => Err(e),
            Ok(shared) => match E::spec_scalar_mul(gm, k, shared) {
                Err(e) => Err(e),
                Ok(combined) => Ok(
                    CiphertextModel {
                        masking,
                        s1: spec_mod_mul(E::spec_coordinate(combined), x1, p),
                        s2: spec_mod_mul(E::spec_coordinate(combined), x2, p),
                    },
                ),
            },
        },
    }
}

/// The plaintext that the key `d` recovers: both masked values divided
/// modulo `p` by the field element that stands for `d` times the masking
/// element.
pub open spec fn spec_decrypt<E: GroupElement>(
    gm: E::GroupModel,
    ct: CiphertextModel<E::Model>,
    d: nat,
    p: nat,
) -> Result<(nat, nat), EccError> {
    match E::spec_scalar_mul(gm, d, ct.masking) {
        Err(e) => Err(e),
        Ok(dy) => spec_unmask(ct.s1, ct.s2, E::spec_coordinate(dy), p),
    }
}

/// Encrypts `(x1, x2)` with the ephemeral scalar `k` that the caller
/// supplies.
pub fn encrypt_with<E: GroupElement>(
    group: &E::Group,
    x1: &BigUint,
    x2: &BigUint,
    g: &E,
    d: &BigUint,
    p: &BigUint,
    k: &BigUint,
) -> (r: Result<Ciphertext<E>, EccError>)
    requires
        E::group_wf(E::group_model(group)),
        value(p) > 0,
    ensures
        cipher_outcome(r) == spec_encrypt::<E>(
            E::group_model(group),
            value(x1),
            value(x2),
            g.model(),
            value(d),
            value(p),
            value(k),
        ),
{
    let masking = match g.scalar_mul(k, group) {
        Ok(e) => e,
        Err(e) => {
            return Err(e);
        },
    };
    let shared = match g.scalar_mul(d, group) {
        Ok(e) => e,
        Err(e) => {
            return Err(e);
        },
    };
    let combined = match shared.scalar_mul(k, group) {
        Ok(e) => e,
        Err(e) => {
            return Err(e);
        },
    };
    let mask = combined.coordinate();
    let s1 = mod_mul(&mask, x1, p);
    let s2 = mod_mul(&mask, x2, p);
    Ok(Ciphertext { masking, s1, s2 })
}

/// Encrypts `(x1, x2)` with an ephemeral scalar drawn from `[1, p - 1)`.
/// Which scalar was drawn is not known to the caller: the result is the
/// ciphertext for one of them.
pub fn encrypt<E: GroupElement>(
    group: &E::Group,
    x1: &BigUint,
    x2: &BigUint,
    g: &E,
    d: &BigUint,
    p: &BigUint,
) -> (r: Result<Ciphertext<E>, EccError>)
    requires
        E::group_wf(E::group_model(group)),
        value(p) > 2,
    ensures
        exists|k: nat|
            1 <= k < value(p) - 1 && cipher_outcome(r) == #[trigger] spec_encrypt::<E>(
                E::group_model(group),
                value(x1),
                value(x2),
                g.model(),
                value(d),
                value(p),
                k,
            ),
{
    let one = big_one();
    let upper = big_sub(p, &one);
    let k = big_random_range(&one, &upper);
    encrypt_with(group, x1, x2, g, d, p, &k)
}

/// Decrypts with the whole key. Fails where the multiple of the masking
/// element cannot be computed, and with `NoInverse` where the field element
/// that stands for it has no inverse modulo `p`.
pub fn decrypt<E: GroupElement>(group: &E::Group, ct: &Ciphertext<E>, d: &BigUint, p: &BigUint) -> (r:
    Result<(BigUint, BigUint), EccError>)
    requires
        E::group_wf(E::group_model(group)),
        value(p) > 0,
    ensures
        pair_outcome(r) == spec_decrypt::<E>(
            E::group_model(group),
            cipher_model(ct),
            value(d),
            value(p),
        ),
{
    match ct.masking.scalar_mul(d, group) {
        Ok(dy) => {
            let x = dy.coordinate();
            unmask(&ct.s1, &ct.s2, &x, p)
        },
        Err(e) => Err(e),
    }
}

/// Decryption undoes encryption wherever both sides mask with the same
/// field element: for plaintext values below `p`, an encryption that
/// succeeds, a key `d` for which `d * (k * g)` can be computed and stands for
/// the same field element as `k * (d * g)`, and an inverse of that field
/// element modulo `p`, the holder of the key recovers the plaintext.
pub proof fn lemma_round_trip_where_masks_agree<E: GroupElement>(
    gm: E::GroupModel,
    x1: nat,
    x2: nat,
    g: E::Model,
    d: nat,
    p: nat,
    k: nat,
)
    requires
        p > 0,
        x1 < p,
        x2 < p,
        spec_encrypt::<E>(gm, x1, x2, g, d, p, k) is Ok,
        E::spec_scalar_mul(gm, d, E::spec_scalar_mul(gm, k, g)->Ok_0) is Ok,
        E::spec_coordinate(E::spec_scalar_mul(gm, d, E::spec_scalar_mul(gm, k, g)->Ok_0)->Ok_0)
            == E::spec_coordinate(
            E::spec_scalar_mul(gm, k, E::spec_scalar_mul(gm, d, g)->Ok_0)->Ok_0,
        ),
        has_inverse_mod(
            E::spec_coordinate(E::spec_scalar_mul(gm, k, E::spec_scalar_mul(gm, d, g)->Ok_0)->Ok_0),
            p,
        ),
    ensures
        spec_decrypt::<E>(gm, spec_encrypt::<E>(gm, x1, x2, g, d, p, k)->Ok_0, d, p) == Ok::<
            (nat, nat),
            EccError,
        >((x1, x2)),
{
    let combined = E::spec_scalar_mul(gm, k, E::spec_scalar_mul(gm, d, g)->Ok_0)->Ok_0;
    lemma_unmask_recovers(E::spec_coordinate(combined), x1, x2, p);
}

} // verus!
