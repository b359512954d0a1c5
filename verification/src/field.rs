//! The field elements under addition modulo `p` as a group. The multiple of
//! an element by a scalar is the product modulo `p`, and an element stands
//! for itself. In this group the multiples commute, so the holder of the
//! whole key recovers the plaintext, and so do two holders whose shares add
//! up to the key.

use crate::bignum::{big_clone, big_from_u32, big_lt, big_zero, value};
use crate::error::EccError;
use crate::group::GroupElement;
use crate::modular::{
    has_inverse_mod, lemma_congruent_add, lemma_congruent_iff, lemma_congruent_mul,
    lemma_congruent_rem, lemma_congruent_trans, mod_add, mod_mul, spec_mod_add, spec_mod_mul,
};
use crate::scheme::{
    lemma_round_trip_where_masks_agree, spec_decrypt, spec_encrypt, CiphertextModel,
};
use crate::threshold::{lemma_share_sum_two, spec_combine, spec_partial};
use num_bigint::BigUint;
use vstd::arithmetic::div_mod::lemma_small_mod;
use vstd::prelude::*;

verus! {

/// The additive group of the integers modulo `p`.
#[derive(Debug)]
pub struct FieldElementGroup {
    p: BigUint,
}

impl View for FieldElementGroup {
    type V = nat;

    closed spec fn view(&self) -> nat {
        value(&self.p)
    }
}

impl FieldElementGroup {
    /// The group of the integers modulo `p`, where `p` is greater than 2.
    pub fn new(p: BigUint) -> (r: Option<FieldElementGroup>)
        ensures
            r.is_some() == (value(&p) > 2),
            r matches Some(group) ==> group@ == value(&p),
    {
        let two = big_from_u32(2);
        if big_lt(&two, &p) {
            Some(FieldElementGroup { p })
        } else {
            None
        }
    }

    /// The modulus.
    pub fn modulus(&self) -> (r: &BigUint)
        ensures
            value(r) == self@,
    {
        &self.p
    }
}

/// An element of the field, as a group element.
#[derive(Debug, PartialEq, Eq)]
pub struct FieldElement {
    pub residue: BigUint,
}

impl View for FieldElement {
    type V = nat;

    open spec fn view(&self) -> nat {
        value(&self.residue)
    }
}

impl Clone for FieldElement {
    fn clone(&self) -> (r: FieldElement)
        ensures
            r@ == self@,
    {
        FieldElement { residue: big_clone(&self.residue) }
    }
}

impl FieldElement {
    /// The element that holds `residue`.
    pub fn new(residue: BigUint) -> (r: FieldElement)
        ensures
            r@ == value(&residue),
    {
        FieldElement { residue }
    }
}

impl GroupElement for FieldElement {
    type Group = FieldElementGroup;

    type GroupModel = nat;

    type Model = nat;

    open spec fn group_model(group: &FieldElementGroup) -> nat {
        group@
    }

    open spec fn group_wf(gm: nat) -> bool {
        gm > 2
    }

    open spec fn model(&self) -> nat {
        self@
    }

    open spec fn spec_identity() -> nat {
        0
    }

    open spec fn spec_add(gm: nat, a: nat, b: nat) -> Result<nat, EccError> {
        Ok(spec_mod_add(a, b, gm))
    }

    open spec fn spec_scalar_mul(gm: nat, k: nat, a: nat) -> Result<nat, EccError> {
        Ok(spec_mod_mul(k, a, gm))
    }

    open spec fn spec_coordinate(a: nat) -> nat {
        a
    }

    fn identity() -> (r: FieldElement) {
        FieldElement { residue: big_zero() }
    }

    fn add(&self, other: &FieldElement, group: &FieldElementGroup) -> (r: Result<
        FieldElement,
        EccError,
    >) {
        Ok(FieldElement { residue: mod_add(&self.residue, &other.residue, group.modulus()) })
    }

    fn scalar_mul(&self, k: &BigUint, group: &FieldElementGroup) -> (r: Result<
        FieldElement,
        EccError,
    >) {
        Ok(FieldElement { residue: mod_mul(k, &self.residue, group.modulus()) })
    }

    fn coordinate(&self) -> (r: BigUint) {
        big_clone(&self.residue)
    }
}

/// The multiple by a sum of scalars is the sum of the multiples.
pub proof fn lemma_multiple_of_sum(p: nat, k: nat, m: nat, g: nat)
    requires
        FieldElement::group_wf(p),
    ensures
        FieldElement::spec_scalar_mul(p, k + m, g) == FieldElement::spec_add(
            p,
            FieldElement::spec_scalar_mul(p, k, g)->Ok_0,
            FieldElement::spec_scalar_mul(p, m, g)->Ok_0,
        ),
{
    let pi = p as int;
    let kg = (k * g) as int;
    let mg = (m * g) as int;
    lemma_congruent_rem(kg, pi);
    lemma_congruent_rem(mg, pi);
    lemma_congruent_add(kg % pi, kg, mg % pi, mg, pi);
    lemma_congruent_iff(kg % pi + mg % pi, kg + mg, pi);
    assert((k + m) * g == k * g + m * g) by (nonlinear_arith);
}

/// The multiple by zero of any element is the identity.
pub proof fn lemma_multiple_by_zero(p: nat, g: nat)
    requires
        FieldElement::group_wf(p),
    ensures
        FieldElement::spec_scalar_mul(p, 0, g) == Ok::<nat, EccError>(
            FieldElement::spec_identity(),
        ),
{
    assert(0 * g == 0);
    lemma_small_mod(0, p);
}

/// Adding the identity to an element of the field, on either side, leaves
/// it unchanged.
pub proof fn lemma_add_identity(p: nat, g: nat)
    requires
        FieldElement::group_wf(p),
        g < p,
    ensures
        FieldElement::spec_add(p, g, FieldElement::spec_identity()) == Ok::<nat, EccError>(g),
        FieldElement::spec_add(p, FieldElement::spec_identity(), g) == Ok::<nat, EccError>(g),
{
    lemma_small_mod(g, p);
}

/// Multiples commute: `d * (k * g)` and `k * (d * g)` are the same element.
pub proof fn lemma_multiples_commute(p: nat, g: nat, d: nat, k: nat)
    requires
        p > 0,
    ensures
        spec_mod_mul(d, spec_mod_mul(k, g, p), p) == spec_mod_mul(k, spec_mod_mul(d, g, p), p),
{
    let pi = p as int;
    let gi = g as int;
    let di = d as int;
    let ki = k as int;
    lemma_congruent_rem(ki * gi, pi);
    lemma_congruent_rem(di * gi, pi);
    lemma_congruent_mul(di, di, (ki * gi) % pi, ki * gi, pi);
    lemma_congruent_mul(ki, ki, (di * gi) % pi, di * gi, pi);
    assert(di * (ki * gi) == ki * (di * gi)) by (nonlinear_arith);
    lemma_congruent_mul(ki, ki, di * gi, (di * gi) % pi, pi);
    lemma_congruent_trans(di * ((ki * gi) % pi), di * (ki * gi), ki * ((di * gi) % pi), pi);
    lemma_congruent_iff(di * ((ki * gi) % pi), ki * ((di * gi) % pi), pi);
}

/// Decryption undoes encryption: for plaintext values below `p`, and an
/// ephemeral scalar for which the masking factor `k * (d * g)` has an
/// inverse modulo `p`, the holder of the key recovers the plaintext.
pub proof fn lemma_round_trip(p: nat, x1: nat, x2: nat, g: nat, d: nat, k: nat)
    requires
        FieldElement::group_wf(p),
        x1 < p,
        x2 < p,
        has_inverse_mod(spec_mod_mul(k, spec_mod_mul(d, g, p), p), p),
    ensures
        spec_encrypt::<FieldElement>(p, x1, x2, g, d, p, k) is Ok,
        spec_decrypt::<FieldElement>(
            p,
            spec_encrypt::<FieldElement>(p, x1, x2, g, d, p, k)->Ok_0,
            d,
            p,
        ) == Ok::<(nat, nat), EccError>((x1, x2)),
{
    lemma_multiples_commute(p, g, d, k);
    lemma_round_trip_where_masks_agree::<FieldElement>(p, x1, x2, g, d, p, k);
}

/// Two holders whose shares add up to the key recover what the holder of
/// the whole key recovers.
pub proof fn lemma_two_shares_agree(p: nat, ct: CiphertextModel<nat>, d1: nat, d2: nat)
    requires
        FieldElement::group_wf(p),
    ensures
        spec_combine(
            ct.s1,
            ct.s2,
            seq![spec_partial(d1, ct.masking, p), spec_partial(d2, ct.masking, p)],
            p,
        ) == spec_decrypt::<FieldElement>(p, ct, d1 + d2, p),
{
    let y = ct.masking;
    lemma_share_sum_two(spec_partial(d1, y, p), spec_partial(d2, y, p));
    lemma_multiple_of_sum(p, d1, d2, y);
}

} // verus!
