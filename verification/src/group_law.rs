//! Laws of the addition of points and of their multiples: the point at
//! infinity is the identity, the addition is commutative, sums and multiples
//! of points of the curve are on the curve, a multiple splits at the highest
//! bit of the scalar, and over a prime modulus the addition fails only where
//! a point on the first axis is doubled.
//!
//! That sums stay on the curve is proved along the line through the two
//! points. On that line the curve equation becomes a cubic in the first
//! coordinate whose three roots add up to the square of the slope, which is
//! how the third point is computed.

use crate::curve::{CurveModel, PointModel};
use crate::error::EccError;
use crate::euclid::{is_prime, lemma_inverse_law, lemma_prime_has_inverses};
use crate::modular::{
    congruent, has_inverse_mod, is_inverse_mod, is_multiple, lemma_congruent_iff,
    lemma_congruent_mul, lemma_congruent_rem, lemma_congruent_small, lemma_congruent_sym,
    lemma_congruent_trans, lemma_multiple_add, lemma_multiple_mul, lemma_multiple_neg,
    spec_mod_inv, spec_mod_sub,
};
use vstd::arithmetic::div_mod::{lemma_mod_bound, lemma_mod_multiples_vanish, lemma_small_mod};
use vstd::arithmetic::power2::{lemma2_to64, lemma_pow2_unfold, pow2};
use vstd::prelude::*;

verus! {

/// By how much `(x, y)` misses the curve equation with coefficients `a` and
/// `b`. The point is on the curve modulo `p` exactly when this is a multiple
/// of `p`.
pub open spec fn defect(a: int, b: int, x: int, y: int) -> int {
    y * y - (x * x * x + a * x + b)
}

/// A point is on the curve exactly when its defect is a multiple of the
/// modulus.
pub proof fn lemma_on_curve_defect(c: CurveModel, x: nat, y: nat)
    requires
        c.p > 0,
    ensures
        c.on_curve(PointModel::Affine { x, y }) <==> is_multiple(
            defect(c.a as int, c.b as int, x as int, y as int),
            c.p as int,
        ),
{
    lemma_congruent_iff((y * y) as int, (x * x * x + c.a * x + c.b) as int, c.p as int);
}

/// The defect at first coordinate `x1 + z`, written along the line of slope
/// `l` through `(x1, y1)`.
proof fn lemma_line_cubic(a: int, b: int, l: int, x1: int, y1: int, z: int, xz: int, yz: int)
    requires
        xz == x1 + z,
    ensures
        defect(a, b, xz, yz) == (yz - l * z - y1) * (yz + l * z + y1) + defect(a, b, x1, y1) - (3
            * x1 * x1 + a - 2 * l * y1) * z - (3 * x1 - l * l) * (z * z) - z * z * z,
{
    let lz = l * z;
    let ll = l * l;
    let zz = z * z;
    let zzz = z * z * z;
    let q1 = x1 * x1;
    let c1 = x1 * x1 * x1;
    let ly = l * y1;
    let lyz = ly * z;
    let llzz = ll * zz;
    let q1z = q1 * z;
    let x1zz = x1 * zz;
    let az = a * z;
    assert((yz - lz - y1) * (yz + lz + y1) == yz * yz - lz * lz - 2 * (lz * y1) - y1 * y1)
        by (nonlinear_arith);
    assert(lz * lz == llzz) by (nonlinear_arith)
        requires
            lz == l * z,
            llzz == (l * l) * (z * z),
    ;
    assert(lz * y1 == lyz) by (nonlinear_arith)
        requires
            lz == l * z,
            lyz == (l * y1) * z,
    ;
    assert(xz * xz * xz == c1 + 3 * q1z + 3 * x1zz + zzz) by (nonlinear_arith)
        requires
            xz == x1 + z,
            c1 == x1 * x1 * x1,
            q1z == (x1 * x1) * z,
            x1zz == x1 * (z * z),
            zzz == z * z * z,
    ;
    assert(a * xz == a * x1 + az) by (nonlinear_arith)
        requires
            xz == x1 + z,
            az == a * z,
    ;
    assert((3 * x1 * x1 + a - 2 * l * y1) * z == 3 * q1z + az - 2 * lyz) by (nonlinear_arith)
        requires
            q1z == (x1 * x1) * z,
            az == a * z,
            lyz == (l * y1) * z,
    ;
    assert((3 * x1 - l * l) * (z * z) == 3 * x1zz - llzz) by (nonlinear_arith)
        requires
            x1zz == x1 * (z * z),
            llzz == (l * l) * (z * z),
    ;
}

/// The two facts that the coordinates of the third point give: it lies on
/// the line, and the three first coordinates add up to the square of the
/// slope, both modulo `p`.
proof fn lemma_third_point(c: CurveModel, lambda: nat, x1: nat, y1: nat, x2: nat)
    requires
        c.p > 0,
    ensures
        c.third_point(lambda, x1, y1, x2) matches PointModel::Affine { x: x3, y: y3 } && {
            &&& is_multiple(y3 + lambda * (x3 - x1) + y1, c.p as int)
            &&& is_multiple(x1 + x2 + x3 - lambda * lambda, c.p as int)
        },
{
    let p = c.p as int;
    let l = lambda as int;
    let x3i = (l * l - x1 - x2) % p;
    lemma_mod_bound(l * l - x1 - x2, p);
    let x3 = x3i as nat;
    let y3i = (l * (x1 - x3) - y1) % p;
    lemma_mod_bound(l * (x1 - x3) - y1, p);
    let y3 = y3i as nat;
    lemma_congruent_rem(l * l - x1 - x2, p);
    assert(x1 + x2 + x3 - l * l == x3i - (l * l - x1 - x2));
    lemma_congruent_rem(l * (x1 - x3) - y1, p);
    assert(l * (x3 - x1) == -(l * (x1 - x3))) by (nonlinear_arith);
    assert(y3 + l * (x3 - x1) + y1 == y3i - (l * (x1 - x3) - y1));
}

/// Where `inv` inverts `d` modulo `p`, the product of `n * inv` with anything
/// congruent to `d` is congruent to `n`.
proof fn lemma_slope_times(n: int, d: nat, inv: nat, l: int, u: int, p: nat)
    requires
        p > 0,
        is_inverse_mod(d, inv, p),
        congruent(l, n * inv, p as int),
        congruent(u, d as int, p as int),
    ensures
        congruent(l * u, n, p as int),
        congruent(inv * u, 1, p as int),
{
    let pi = p as int;
    let di = d as int;
    let ii = inv as int;
    lemma_congruent_iff(di * ii, 1, pi);
    lemma_congruent_mul(l, n * ii, u, di, pi);
    lemma_congruent_mul(n, n, di * ii, 1, pi);
    assert((n * ii) * di == n * (di * ii)) by (nonlinear_arith);
    assert(n * 1 == n);
    lemma_congruent_trans(l * u, (n * ii) * di, n, pi);
    lemma_congruent_mul(ii, ii, u, di, pi);
    assert(ii * di == di * ii) by (nonlinear_arith);
    lemma_congruent_trans(ii * u, ii * di, 1, pi);
}

/// Doubling a point of the curve gives a point of the curve.
proof fn lemma_double_closed(c: CurveModel, x1: nat, y1: nat)
    requires
        c.p > 0,
        c.on_curve(PointModel::Affine { x: x1, y: y1 }),
        has_inverse_mod(2 * y1, c.p),
    ensures
        c.on_curve(c.third_point(c.tangent_slope(x1, y1), x1, y1, x1)),
{
    let p = c.p as int;
    let a = c.a as int;
    let b = c.b as int;
    let inv = spec_mod_inv(2 * y1, c.p);
    let lambda = c.tangent_slope(x1, y1);
    let l = lambda as int;
    let n = (3 * x1 * x1 + c.a) as int;
    let x = x1 as int;
    let y = y1 as int;
    lemma_third_point(c, lambda, x1, y1, x1);
    let third = c.third_point(lambda, x1, y1, x1);
    let x3 = third->x as int;
    let y3 = third->y as int;
    let w = x3 - x;
    let t = y3 + l * w + y;
    let s = x + x + x3 - l * l;
    // the slope is that of the tangent
    lemma_congruent_rem(n * inv, p);
    lemma_slope_times(n, 2 * y1, inv, l, 2 * y, c.p);
    let m = 3 * x * x + a - 2 * l * y;
    assert(m == -(l * (2 * y) - n)) by (nonlinear_arith)
        requires
            m == 3 * x * x + a - 2 * l * y,
            n == 3 * x * x + a,
    ;
    lemma_multiple_neg(l * (2 * y) - n, p);
    // the point doubled is on the curve
    lemma_on_curve_defect(c, x1, y1);
    let e1 = defect(a, b, x, y);
    // the defect of the result
    lemma_line_cubic(a, b, l, x, y, w, x3, y3);
    let e3 = defect(a, b, x3, y3);
    let front = (y3 - l * w - y) * t;
    let ww = w * w;
    assert((3 * x - l * l) * ww + w * w * w == s * ww) by (nonlinear_arith)
        requires
            s == x + x + x3 - l * l,
            w == x3 - x,
            ww == w * w,
    ;
    assert(e3 == front + e1 - m * w - s * ww);
    lemma_multiple_mul(y3 - l * w - y, t, p);
    lemma_multiple_mul(w, m, p);
    lemma_multiple_mul(ww, s, p);
    lemma_multiple_add(front, e1, p);
    lemma_multiple_neg(m * w, p);
    lemma_multiple_add(front + e1, -(m * w), p);
    lemma_multiple_neg(s * ww, p);
    lemma_multiple_add(front + e1 - m * w, -(s * ww), p);
    lemma_on_curve_defect(c, third->x, third->y);
}

/// The defects at the two far ends of a chord, each multiplied by the
/// distance of the other end, differ by terms that each hold one of the
/// quantities known to vanish modulo `p`.
proof fn lemma_chord_identity(
    u: int,
    w: int,
    e1: int,
    m: int,
    n: int,
    front2: int,
    front3: int,
    e2: int,
    e3: int,
)
    requires
        e3 == front3 + e1 - m * w - n * (w * w) - w * w * w,
        e2 == front2 + e1 - m * u - n * (u * u) - u * u * u,
    ensures
        u * e3 - w * e2 == u * front3 - w * front2 + e1 * (u - w) - (u * w * (w - u)) * (n + u
            + w),
{
    let mw = m * w;
    let nww = n * (w * w);
    let www = w * w * w;
    let mu = m * u;
    let nuu = n * (u * u);
    let uuu = u * u * u;
    let k = u * w * (w - u);
    assert(u * e3 == u * front3 + u * e1 - u * mw - u * nww - u * www) by (nonlinear_arith)
        requires
            e3 == front3 + e1 - mw - nww - www,
    ;
    assert(w * e2 == w * front2 + w * e1 - w * mu - w * nuu - w * uuu) by (nonlinear_arith)
        requires
            e2 == front2 + e1 - mu - nuu - uuu,
    ;
    assert(u * mw == w * mu) by (nonlinear_arith)
        requires
            mw == m * w,
            mu == m * u,
    ;
    assert(u * nww - w * nuu == n * k) by (nonlinear_arith)
        requires
            nww == n * (w * w),
            nuu == n * (u * u),
            k == u * w * (w - u),
    ;
    assert(u * www - w * uuu == k * (u + w)) by (nonlinear_arith)
        requires
            www == w * w * w,
            uuu == u * u * u,
            k == u * w * (w - u),
    ;
    assert(k * (n + u + w) == n * k + k * (u + w)) by (nonlinear_arith);
    assert(e1 * (u - w) == u * e1 - w * e1) by (nonlinear_arith);
}

/// Joining two points of the curve by a chord gives a point of the curve.
proof fn lemma_chord_closed(c: CurveModel, x1: nat, y1: nat, x2: nat, y2: nat)
    requires
        c.p > 0,
        c.on_curve(PointModel::Affine { x: x1, y: y1 }),
        c.on_curve(PointModel::Affine { x: x2, y: y2 }),
        has_inverse_mod(spec_mod_sub(x2, x1, c.p), c.p),
    ensures
        c.on_curve(c.third_point(c.chord_slope(x1, y1, x2, y2), x1, y1, x2)),
{
    let p = c.p as int;
    let a = c.a as int;
    let b = c.b as int;
    lemma_mod_bound(x2 - x1, p);
    lemma_mod_bound(y2 - y1, p);
    let d = spec_mod_sub(x2, x1, c.p);
    let ny = spec_mod_sub(y2, y1, c.p);
    let inv = spec_mod_inv(d, c.p);
    let lambda = c.chord_slope(x1, y1, x2, y2);
    let l = lambda as int;
    let xa = x1 as int;
    let ya = y1 as int;
    let xb = x2 as int;
    let yb = y2 as int;
    let u = xb - xa;
    lemma_third_point(c, lambda, x1, y1, x2);
    let third = c.third_point(lambda, x1, y1, x2);
    let x3 = third->x as int;
    let y3 = third->y as int;
    let w = x3 - xa;
    let t = y3 + l * w + ya;
    let s = xa + xb + x3 - l * l;
    // the slope is that of the chord
    lemma_congruent_rem((ny * inv) as int, p);
    lemma_congruent_rem(u, p);
    lemma_slope_times(ny as int, d, inv, l, u, c.p);
    lemma_congruent_rem(yb - ya, p);
    lemma_congruent_trans(l * u, ny as int, yb - ya, p);
    let h = yb - l * u - ya;
    assert(h == -(l * u - (yb - ya)));
    lemma_multiple_neg(l * u - (yb - ya), p);
    // both points are on the curve
    lemma_on_curve_defect(c, x1, y1);
    lemma_on_curve_defect(c, x2, y2);
    let e1 = defect(a, b, xa, ya);
    let e2 = defect(a, b, xb, yb);
    let e3 = defect(a, b, x3, y3);
    lemma_line_cubic(a, b, l, xa, ya, u, xb, yb);
    lemma_line_cubic(a, b, l, xa, ya, w, x3, y3);
    let m = 3 * xa * xa + a - 2 * l * ya;
    let n = 3 * xa - l * l;
    let front2 = h * (yb + l * u + ya);
    let front3 = (y3 - l * w - ya) * t;
    let k = u * w * (w - u);
    lemma_chord_identity(u, w, e1, m, n, front2, front3, e2, e3);
    assert(u * e3 - w * e2 == u * front3 - w * front2 + e1 * (u - w) - k * s);
    lemma_multiple_mul(w, e2, p);
    lemma_multiple_mul(y3 - l * w - ya, t, p);
    lemma_multiple_mul(u, front3, p);
    lemma_multiple_mul(yb + l * u + ya, h, p);
    lemma_multiple_mul(w, front2, p);
    lemma_multiple_mul(u - w, e1, p);
    lemma_multiple_mul(k, s, p);
    lemma_multiple_add(w * e2, u * front3, p);
    lemma_multiple_neg(w * front2, p);
    lemma_multiple_add(w * e2 + u * front3, -(w * front2), p);
    lemma_multiple_add(w * e2 + u * front3 - w * front2, e1 * (u - w), p);
    lemma_multiple_neg(k * s, p);
    lemma_multiple_add(w * e2 + u * front3 - w * front2 + e1 * (u - w), -(k * s), p);
    assert(is_multiple(u * e3, p));
    // the difference of the first coordinates can be divided out
    lemma_congruent_mul(e3, e3, inv * u, 1, p);
    lemma_multiple_mul(inv as int, u * e3, p);
    assert(e3 * (inv * u) == inv * (u * e3)) by (nonlinear_arith);
    lemma_congruent_sym(e3 * (inv * u), e3 * 1, p);
    lemma_congruent_trans(e3 * 1, e3 * (inv * u), 0, p);
    assert(e3 * 1 == e3);
    lemma_on_curve_defect(c, third->x, third->y);
}

/// The sum of two points of the curve is on the curve: wherever the
/// addition succeeds on two points that satisfy the curve equation, so does
/// its result.
pub proof fn lemma_add_closed(c: CurveModel, p1: PointModel, p2: PointModel)
    requires
        c.wf(),
        c.on_curve(p1),
        c.on_curve(p2),
    ensures
        c.add(p1, p2) matches Ok(sum) ==> c.on_curve(sum),
{
    match (p1, p2) {
        (PointModel::Infinity, _) => {},
        (_, PointModel::Infinity) => {},
        (PointModel::Affine { x: x1, y: y1 }, PointModel::Affine { x: x2, y: y2 }) => {
            if x1 == x2 && y1 == y2 {
                if has_inverse_mod(2 * y1, c.p) {
                    lemma_double_closed(c, x1, y1);
                }
            } else if x1 == x2 {
            } else if has_inverse_mod(spec_mod_sub(x2, x1, c.p), c.p) {
                lemma_chord_closed(c, x1, y1, x2, y2);
            }
        },
    }
}

/// The point at infinity is the identity of the addition, on either side.
pub proof fn lemma_add_identity(c: CurveModel, pt: PointModel)
    ensures
        c.add(pt, PointModel::Infinity) == Ok::<PointModel, EccError>(pt),
        c.add(PointModel::Infinity, pt) == Ok::<PointModel, EccError>(pt),
{
}

/// The multiple by zero of any point is the point at infinity.
pub proof fn lemma_scalar_mult_zero(c: CurveModel, pt: PointModel)
    ensures
        c.scalar_mult(0, pt) == Ok::<PointModel, EccError>(PointModel::Infinity),
{
}

/// Double-and-add stays on the curve: from two points of the curve it ends,
/// where it succeeds, in a point of the curve.
pub proof fn lemma_ladder_closed(c: CurveModel, k: nat, acc: PointModel, run: PointModel)
    requires
        c.wf(),
        c.on_curve(acc),
        c.on_curve(run),
    ensures
        c.ladder(k, acc, run) matches Ok(end) ==> c.on_curve(end),
    decreases k,
{
    if k != 0 {
        lemma_add_closed(c, acc, run);
        lemma_add_closed(c, run, run);
        let stepped = if k % 2 == 1 {
            c.add(acc, run)
        } else {
            Ok(acc)
        };
        match (stepped, c.add(run, run)) {
            (Ok(acc1), Ok(run1)) => {
                lemma_ladder_closed(c, k / 2, acc1, run1);
            },
            _ => {},
        }
    }
}

/// Every multiple of a point of the curve is on the curve.
pub proof fn lemma_scalar_mult_closed(c: CurveModel, k: nat, pt: PointModel)
    requires
        c.wf(),
        c.on_curve(pt),
    ensures
        c.scalar_mult(k, pt) matches Ok(multiple) ==> c.on_curve(multiple),
{
    lemma_ladder_closed(c, k, PointModel::Infinity, pt);
}

/// The inverses of a difference and of the opposite difference exist
/// together, and the slopes of the chord taken in either direction are the
/// same.
proof fn lemma_chord_slope_symmetric(c: CurveModel, x1: nat, y1: nat, x2: nat, y2: nat)
    requires
        c.p > 0,
    ensures
        has_inverse_mod(spec_mod_sub(x2, x1, c.p), c.p) <==> has_inverse_mod(
            spec_mod_sub(x1, x2, c.p),
            c.p,
        ),
        has_inverse_mod(spec_mod_sub(x2, x1, c.p), c.p) ==> c.chord_slope(x1, y1, x2, y2)
            == c.chord_slope(x2, y2, x1, y1),
{
    if has_inverse_mod(spec_mod_sub(x1, x2, c.p), c.p) {
        lemma_opposite_has_inverse(x2, x1, c.p);
    }
    if has_inverse_mod(spec_mod_sub(x2, x1, c.p), c.p) {
        lemma_opposite_has_inverse(x1, x2, c.p);
        let p = c.p as int;
        let u = x2 - x1;
        lemma_mod_bound(u, p);
        lemma_mod_bound(-u, p);
        lemma_mod_bound(y2 - y1, p);
        lemma_mod_bound(y1 - y2, p);
        let d = spec_mod_sub(x2, x1, c.p);
        let e = spec_mod_sub(x1, x2, c.p);
        let inv_d = spec_mod_inv(d, c.p);
        let inv_e = spec_mod_inv(e, c.p);
        let ny = spec_mod_sub(y2, y1, c.p);
        let my = spec_mod_sub(y1, y2, c.p);
        let l = c.chord_slope(x1, y1, x2, y2) as int;
        let m = c.chord_slope(x2, y2, x1, y1) as int;
        lemma_mod_bound((ny * inv_d) as int, p);
        lemma_mod_bound((my * inv_e) as int, p);
        // both slopes, times the difference, give the difference of the seconds
        lemma_congruent_rem((ny * inv_d) as int, p);
        lemma_congruent_rem(u, p);
        lemma_slope_times(ny as int, d, inv_d, l, u, c.p);
        lemma_congruent_rem(y2 - y1, p);
        lemma_congruent_trans(l * u, ny as int, y2 - y1, p);
        lemma_congruent_rem((my * inv_e) as int, p);
        lemma_congruent_rem(-u, p);
        lemma_slope_times(my as int, e, inv_e, m, -u, c.p);
        lemma_congruent_rem(y1 - y2, p);
        lemma_congruent_trans(m * (-u), my as int, y1 - y2, p);
        // so their difference, times the difference, vanishes
        lemma_multiple_add(l * u - (y2 - y1), m * (-u) - (y1 - y2), p);
        assert(l * u - (y2 - y1) + (m * (-u) - (y1 - y2)) == u * (l - m)) by (nonlinear_arith);
        // and the difference can be divided out
        lemma_multiple_mul(inv_d as int, u * (l - m), p);
        lemma_congruent_mul(inv_d * u, 1, l - m, l - m, p);
        assert((inv_d * u) * (l - m) == inv_d * (u * (l - m))) by (nonlinear_arith);
        assert(1 * (l - m) == l - m);
        lemma_congruent_sym((inv_d * u) * (l - m), l - m, p);
        lemma_congruent_trans(l - m, (inv_d * u) * (l - m), 0, p);
        lemma_congruent_small(l, m, p);
    }
}

/// Where a number has an inverse modulo `p`, so has its opposite.
proof fn lemma_opposite_has_inverse(x1: nat, x2: nat, p: nat)
    requires
        p > 0,
        has_inverse_mod(spec_mod_sub(x2, x1, p), p),
    ensures
        has_inverse_mod(spec_mod_sub(x1, x2, p), p),
{
    let pi = p as int;
    let u = x2 - x1;
    lemma_mod_bound(u, pi);
    lemma_mod_bound(-u, pi);
    let d = spec_mod_sub(x2, x1, p);
    let e = spec_mod_sub(x1, x2, p);
    let inv = spec_mod_inv(d, p) as int;
    let opp = (-inv) % pi;
    lemma_mod_bound(-inv, pi);
    lemma_congruent_rem(u, pi);
    lemma_congruent_rem(-u, pi);
    lemma_congruent_rem(-inv, pi);
    lemma_congruent_mul(e as int, -u, opp, -inv, pi);
    lemma_congruent_mul(u, d as int, inv, inv, pi);
    assert((-u) * (-inv) == u * inv) by (nonlinear_arith);
    lemma_congruent_iff(d * inv, 1, pi);
    lemma_congruent_trans(e * opp, u * inv, d * inv, pi);
    lemma_congruent_trans(e * opp, d * inv, 1, pi);
    lemma_congruent_iff(e * opp, 1, pi);
    assert(is_inverse_mod(e, opp as nat, p));
}

/// The addition is commutative: the two points may be given in either
/// order, with the same result or the same failure.
pub proof fn lemma_add_commutes(c: CurveModel, p1: PointModel, p2: PointModel)
    requires
        c.wf(),
    ensures
        c.add(p1, p2) == c.add(p2, p1),
{
    match (p1, p2) {
        (PointModel::Affine { x: x1, y: y1 }, PointModel::Affine { x: x2, y: y2 }) => {
            if x1 != x2 {
                lemma_chord_slope_symmetric(c, x1, y1, x2, y2);
                if has_inverse_mod(spec_mod_sub(x2, x1, c.p), c.p) {
                    let p = c.p as int;
                    let lambda = c.chord_slope(x1, y1, x2, y2);
                    let l = lambda as int;
                    lemma_mod_bound(l * l - x1 - x2, p);
                    let x3 = ((l * l - x1 - x2) % p) as nat;
                    // the line through the first point is the line through the second
                    lemma_mod_bound(x2 - x1, p);
                    lemma_mod_bound(y2 - y1, p);
                    let d = spec_mod_sub(x2, x1, c.p);
                    let ny = spec_mod_sub(y2, y1, c.p);
                    let inv = spec_mod_inv(d, c.p);
                    lemma_congruent_rem((ny * inv) as int, p);
                    lemma_congruent_rem(x2 - x1, p);
                    lemma_slope_times(ny as int, d, inv, l, x2 - x1, c.p);
                    lemma_congruent_rem(y2 - y1, p);
                    lemma_congruent_trans(l * (x2 - x1), ny as int, y2 - y1, p);
                    assert((l * (x1 - x3) - y1) - (l * (x2 - x3) - y2) == -(l * (x2 - x1) - (y2
                        - y1))) by (nonlinear_arith);
                    lemma_multiple_neg(l * (x2 - x1) - (y2 - y1), p);
                    lemma_congruent_iff(l * (x1 - x3) - y1, l * (x2 - x3) - y2, p);
                    assert(l * l - x1 - x2 == l * l - x2 - x1);
                }
            }
        },
        _ => {},
    }
}

/// Double-and-add on `k + 2^j`, for `k` below `2^j`, ends in the sum of
/// what it ends in on `k` and the multiple by `2^j`, and fails where either
/// of them or that sum fails.
pub proof fn lemma_ladder_high_bit(c: CurveModel, j: nat, k: nat, acc: PointModel, run: PointModel)
    requires
        k < pow2(j),
    ensures
        c.ladder(k + pow2(j), acc, run) == c.add_outcomes(
            c.ladder(k, acc, run),
            c.scalar_mult(pow2(j), run),
        ),
    decreases j,
{
    let n = k + pow2(j);
    let high = pow2(j);
    let stepped = if n % 2 == 1 {
        c.add(acc, run)
    } else {
        Ok(acc)
    };
    let doubled = c.add(run, run);
    let origin = PointModel::Infinity;
    assert(c.ladder(0, acc, run) == Ok::<PointModel, EccError>(acc));
    c.lemma_ladder_error(k, acc, run);
    if j == 0 {
        lemma2_to64();
        assert(n == 1 && high == 1 && k == 0);
        match doubled {
            Ok(run1) => {
                assert(c.ladder(0, run, run1) == Ok::<PointModel, EccError>(run));
                assert(c.scalar_mult(high, run) == Ok::<PointModel, EccError>(run));
                match stepped {
                    Ok(acc1) => {
                        assert(c.ladder(0, acc1, run1) == Ok::<PointModel, EccError>(acc1));
                    },
                    Err(e) => {},
                }
            },
            Err(e) => {
                assert(c.scalar_mult(high, run) is Err);
            },
        }
    } else {
        let h = (j - 1) as nat;
        lemma_pow2_unfold(j);
        assert(high == 2 * pow2(h));
        assert(n % 2 == k % 2);
        assert(n / 2 == k / 2 + pow2(h));
        assert(high % 2 == 0);
        assert(high / 2 == pow2(h));
        match doubled {
            Ok(run1) => {
                assert(c.scalar_mult(high, run) == c.ladder(high / 2, origin, run1));
                assert(c.scalar_mult(high, run) == c.scalar_mult(pow2(h), run1));
                match stepped {
                    Ok(acc1) => {
                        lemma_ladder_high_bit(c, h, k / 2, acc1, run1);
                        assert(c.ladder(n, acc, run) == c.ladder(n / 2, acc1, run1));
                        if k == 0 {
                            assert(acc1 == acc);
                            assert(c.ladder(0, acc1, run1) == Ok::<PointModel, EccError>(acc1));
                        } else {
                            assert(c.ladder(k, acc, run) == c.ladder(k / 2, acc1, run1));
                        }
                    },
                    Err(e) => {
                        assert(k % 2 == 1);
                        assert(c.ladder(k, acc, run) is Err);
                    },
                }
            },
            Err(e) => {
                assert(c.scalar_mult(high, run) is Err);
            },
        }
    }
}

/// The multiple by `k + 2^j`, for `k` below `2^j`, is the sum of the
/// multiple by `k` and the multiple by `2^j`, and fails where either of them
/// or their sum fails.
pub proof fn lemma_scalar_mult_adds_high_bit(c: CurveModel, j: nat, k: nat, pt: PointModel)
    requires
        k < pow2(j),
    ensures
        c.scalar_mult(k + pow2(j), pt) == c.add_outcomes(
            c.scalar_mult(k, pt),
            c.scalar_mult(pow2(j), pt),
        ),
{
    lemma_ladder_high_bit(c, j, k, PointModel::Infinity, pt);
}

/// The multiple by an even scalar is the multiple of the doubled point by
/// half the scalar, and fails where the doubling fails.
pub proof fn lemma_scalar_mult_even(c: CurveModel, k: nat, pt: PointModel)
    requires
        k > 0,
    ensures
        c.scalar_mult(2 * k, pt) == match c.add(pt, pt) {
            Ok(doubled) => c.scalar_mult(k, doubled),
            Err(e) => Err(EccError::NoInverse),
        },
{
    assert((2 * k) % 2 == 0);
    assert((2 * k) / 2 == k);
}

/// When the addition fails: over a prime modulus, on two points with
/// coordinates below the modulus, only the doubling of a point whose second
/// coordinate is 0 fails.
pub proof fn lemma_add_fails_only_on_axis(c: CurveModel, x1: nat, y1: nat, x2: nat, y2: nat)
    requires
        c.wf(),
        is_prime(c.p),
        x1 < c.p,
        y1 < c.p,
        x2 < c.p,
        y2 < c.p,
    ensures
        c.add(PointModel::Affine { x: x1, y: y1 }, PointModel::Affine { x: x2, y: y2 }) is Err
            <==> x1 == x2 && y1 == y2 && y1 == 0,
{
    let p = c.p;
    if x1 == x2 && y1 == y2 {
        if y1 == 0 {
            lemma_inverse_law(0, p);
            lemma_small_mod(0, p);
        } else {
            if 2 * y1 < p {
                lemma_small_mod(2 * y1, p);
            } else {
                lemma_small_mod((2 * y1 - p) as nat, p);
                lemma_mod_multiples_vanish(-1, (2 * y1) as int, p as int);
                assert(2 * y1 != p) by {
                    if 2 * y1 == p {
                        assert(p % 2 == 0);
                    }
                }
            }
            lemma_prime_has_inverses(2 * y1, p);
        }
    } else if x1 != x2 {
        let d = x2 - x1;
        if d > 0 {
            lemma_small_mod(d as nat, p);
        } else {
            lemma_small_mod((d + p) as nat, p);
            lemma_mod_multiples_vanish(1, d, p as int);
        }
        lemma_mod_bound(d, p as int);
        lemma_prime_has_inverses(spec_mod_sub(x2, x1, p), p);
    }
}

} // verus!
