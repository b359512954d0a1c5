//! Greatest common divisors, and why an element has an inverse modulo `p`
//! exactly when it is coprime to `p`.

use crate::modular::{
    has_inverse_mod, is_inverse_mod, is_multiple, lemma_congruent_iff, lemma_congruent_mul,
    lemma_congruent_rem, lemma_congruent_trans, lemma_multiple_add, lemma_multiple_mul,
    lemma_multiple_neg, spec_mod_inv, spec_mod_mul,
};
use vstd::arithmetic::div_mod::{
    lemma_fundamental_div_mod, lemma_mod_bound, lemma_mod_multiples_basic, lemma_small_mod,
};
use vstd::prelude::*;

verus! {

/// The greatest common divisor of two natural numbers, by Euclid's
/// algorithm. The common divisor of 0 and 0 is taken to be 0.
pub open spec fn gcd(a: nat, b: nat) -> nat
    decreases a,
{
    if a == 0 {
        b
    } else {
        gcd(b % a, a)
    }
}

/// The greatest common divisor divides both numbers.
pub proof fn lemma_gcd_divides(a: nat, b: nat)
    requires
        a > 0 || b > 0,
    ensures
        gcd(a, b) > 0,
        is_multiple(a as int, gcd(a, b) as int),
        is_multiple(b as int, gcd(a, b) as int),
    decreases a,
{
    if a == 0 {
        lemma_mod_multiples_basic(1, b as int);
        lemma_small_mod(0, b);
    } else {
        let r = b % a;
        let g = gcd(r, a) as int;
        lemma_mod_bound(b as int, a as int);
        lemma_gcd_divides(r, a);
        lemma_fundamental_div_mod(b as int, a as int);
        lemma_multiple_mul((b / a) as int, a as int, g);
        lemma_multiple_add((a * (b / a)) as int, r as int, g);
        assert((b / a) as int * a as int == (a * (b / a)) as int) by (nonlinear_arith);
    }
}

/// Bezout's identity: the greatest common divisor is an integer combination
/// of the two numbers. The coefficients are returned.
pub proof fn lemma_bezout(a: nat, b: nat) -> (st: (int, int))
    ensures
        st.0 * a + st.1 * b == gcd(a, b),
    decreases a,
{
    if a == 0 {
        assert(0 * a + 1 * b == b);
        (0, 1)
    } else {
        let r = b % a;
        let q = (b / a) as int;
        lemma_mod_bound(b as int, a as int);
        let (s1, t1) = lemma_bezout(r, a);
        lemma_fundamental_div_mod(b as int, a as int);
        let ai = a as int;
        let bi = b as int;
        let ri = r as int;
        let g = gcd(a, b) as int;
        assert((t1 - s1 * q) * ai + s1 * bi == g) by (nonlinear_arith)
            requires
                s1 * ri + t1 * ai == g,
                bi == ai * q + ri,
        ;
        (t1 - s1 * q, s1)
    }
}

/// A number coprime to `p` has an inverse modulo `p`.
pub proof fn lemma_coprime_has_inverse(a: nat, p: nat)
    requires
        p > 0,
        gcd(a, p) == 1,
    ensures
        has_inverse_mod(a, p),
{
    let (s, t) = lemma_bezout(a, p);
    let pi = p as int;
    let ai = a as int;
    let x = s % pi;
    lemma_mod_bound(s, pi);
    lemma_congruent_rem(s, pi);
    lemma_congruent_mul(ai, ai, x, s, pi);
    lemma_mod_multiples_basic(-t, pi);
    assert(ai * s - 1 == (-t) * pi) by (nonlinear_arith)
        requires
            s * ai + t * pi == 1,
    ;
    lemma_congruent_trans(ai * x, ai * s, 1, pi);
    lemma_congruent_iff(ai * x, 1, pi);
    assert(is_inverse_mod(a, x as nat, p));
}

/// A number with an inverse modulo `p` is coprime to `p`.
pub proof fn lemma_inverse_is_coprime(a: nat, x: nat, p: nat)
    requires
        p > 0,
        is_inverse_mod(a, x, p),
    ensures
        gcd(a, p) == 1,
{
    let pi = p as int;
    let ai = a as int;
    let xi = x as int;
    lemma_gcd_divides(a, p);
    let g = gcd(a, p) as int;
    lemma_congruent_iff(ai * xi, 1, pi);
    let d = ai * xi - 1;
    lemma_fundamental_div_mod(d, pi);
    let q = d / pi;
    assert(d == pi * q);
    lemma_multiple_mul(xi, ai, g);
    lemma_multiple_mul(q, pi, g);
    lemma_multiple_neg(pi * q, g);
    lemma_multiple_add(ai * xi, -(pi * q), g);
    assert(ai * xi - pi * q == 1);
    if g > 1 {
        lemma_small_mod(1, g as nat);
    }
}

/// An element has an inverse modulo `p` exactly when it is coprime to `p`.
pub proof fn lemma_inverse_iff_coprime(a: nat, p: nat)
    requires
        p > 0,
    ensures
        has_inverse_mod(a, p) <==> gcd(a, p) == 1,
{
    if gcd(a, p) == 1 {
        lemma_coprime_has_inverse(a, p);
    }
    if has_inverse_mod(a, p) {
        lemma_inverse_is_coprime(a, spec_mod_inv(a, p), p);
    }
}

/// The product of an element coprime to `p` with its inverse is 1 modulo
/// `p`, and a multiple of `p` has no inverse.
pub proof fn lemma_inverse_law(a: nat, p: nat)
    requires
        p > 1,
    ensures
        gcd(a, p) == 1 ==> has_inverse_mod(a, p) && spec_mod_mul(a, spec_mod_inv(a, p), p) == 1,
        a % p == 0 ==> !has_inverse_mod(a, p),
{
    lemma_small_mod(1, p);
    if gcd(a, p) == 1 {
        lemma_coprime_has_inverse(a, p);
    }
    if a % p == 0 && has_inverse_mod(a, p) {
        let x = spec_mod_inv(a, p);
        lemma_multiple_mul(x as int, a as int, p as int);
        lemma_small_mod(0, p);
        assert((a * x) % p == 0) by {
            assert((a * x) as int == a as int * x as int);
        }
        assert(false);
    }
}

/// `p` is a prime number: it is greater than 1, and no number strictly
/// between 1 and `p` divides it.
pub open spec fn is_prime(p: nat) -> bool {
    p > 1 && forall|d: nat| 1 < d < p ==> #[trigger] (p % d) != 0
}

/// Modulo a prime, every element that is not a multiple of the prime has an
/// inverse.
pub proof fn lemma_prime_has_inverses(a: nat, p: nat)
    requires
        is_prime(p),
        a % p != 0,
    ensures
        has_inverse_mod(a, p),
{
    lemma_gcd_divides(a, p);
    let g = gcd(a, p);
    if g > p {
        lemma_small_mod(p, g);
    }
    if g != 1 {
        assert(g == p) by {
            if g < p {
                assert(p % g != 0);
            }
        }
    }
    lemma_coprime_has_inverse(a, p);
}

} // verus!
