//! Points of a short Weierstrass curve `y^2 = x^3 + a*x + b` over the
//! integers modulo `p`, and the chord-and-tangent addition of such points.

use crate::bignum::{
    big_add, big_clone, big_eq, big_from_u32, big_lt, big_mul, big_one, big_rem, big_shr, big_zero,
    value,
};
use crate::error::EccError;
use crate::group_law::{lemma_add_closed, lemma_scalar_mult_closed};
use crate::modular::{
    has_inverse_mod, lemma_mul_sub_chain, lemma_sub_chain, mod_inv, mod_mul, mod_sub,
    spec_mod_inv, spec_mod_mul, spec_mod_sub,
};
use num_bigint::BigUint;
use vstd::arithmetic::div_mod::lemma_mod_bound;
use vstd::arithmetic::power2::lemma2_to64;
use vstd::prelude::*;

verus! {

/// A point as the contracts see it: the point at infinity, or a pair of
/// natural numbers.
pub enum PointModel {
    Infinity,
    Affine { x: nat, y: nat },
}

/// A curve as the contracts see it: the coefficients and the modulus.
pub struct CurveModel {
    pub a: nat,
    pub b: nat,
    pub p: nat,
}

/// A point of the plane over the field, or the point at infinity, which is
/// the identity of the addition.
#[derive(Debug, PartialEq, Eq)]
pub enum Point {
    Infinity,
    Affine { x: BigUint, y: BigUint },
}

impl View for Point {
    type V = PointModel;

    open spec fn view(&self) -> PointModel {
        match self {
            Point::Infinity => PointModel::Infinity,
            Point::Affine { x, y } => PointModel::Affine { x: value(x), y: value(y) },
        }
    }
}

impl Clone for Point {
    fn clone(&self) -> (r: Point)
        ensures
            r@ == self@,
    {
        match self {
            Point::Infinity => Point::Infinity,
            Point::Affine { x, y } => Point::Affine { x: big_clone(x), y: big_clone(y) },
        }
    }
}

/// The model of what an operation on points returned.
pub open spec fn outcome(r: Result<Point, EccError>) -> Result<PointModel, EccError> {
    match r {
        Ok(pt) => Ok(pt@),
        Err(e) => Err(e),
    }
}

impl PointModel {
    /// The first coordinate, read as 0 at the point at infinity.
    pub open spec fn x_or_zero(self) -> nat {
        match self {
            PointModel::Infinity => 0,
            PointModel::Affine { x, y } => x,
        }
    }
}

impl Point {
    /// The point at infinity.
    pub fn infinity() -> (r: Point)
        ensures
            r@ == PointModel::Infinity,
    {
        Point::Infinity
    }

    /// The point with the given coordinates.
    pub fn new(x: BigUint, y: BigUint) -> (r: Point)
        ensures
            r@ == (PointModel::Affine { x: value(&x), y: value(&y) }),
    {
        Point::Affine { x, y }
    }

    /// Whether two points are the same: both at infinity, or both with the
    /// same coordinates.
    pub fn equal(&self, other: &Point) -> (r: bool)
        ensures
            r == (self@ == other@),
    {
        match self {
            Point::Infinity => match other {
                Point::Infinity => true,
                Point::Affine { x, y } => false,
            },
            Point::Affine { x: x1, y: y1 } => match other {
                Point::Infinity => false,
                Point::Affine { x: x2, y: y2 } => big_eq(x1, x2) && big_eq(y1, y2),
            },
        }
    }

    /// The first coordinate, read as 0 at the point at infinity.
    pub fn x_or_zero(&self) -> (r: BigUint)
        ensures
            value(&r) == self@.x_or_zero(),
    {
        match self {
            Point::Infinity => big_zero(),
            Point::Affine { x, y } => big_clone(x),
        }
    }
}

/// The curve `y^2 = x^3 + a*x + b` over the integers modulo `p`.
#[derive(Debug)]
pub struct EllipticCurve {
    a: BigUint,
    b: BigUint,
    p: BigUint,
}

impl View for EllipticCurve {
    type V = CurveModel;

    closed spec fn view(&self) -> CurveModel {
        CurveModel { a: value(&self.a), b: value(&self.b), p: value(&self.p) }
    }
}

impl CurveModel {
    /// The modulus is greater than 2.
    pub open spec fn wf(self) -> bool {
        self.p > 2
    }

    /// The right-hand side of the curve equation at `x`, before reduction.
    pub open spec fn cubic(self, x: nat) -> nat {
        x * x * x + self.a * x + self.b
    }

    /// The point is the point at infinity or satisfies the curve equation
    /// modulo `p`.
    pub open spec fn on_curve(self, pt: PointModel) -> bool {
        match pt {
            PointModel::Infinity => true,
            PointModel::Affine { x, y } => (y * y) % self.p == self.cubic(x) % self.p,
        }
    }

    /// The slope of the tangent at `(x, y)`, where the doubled second
    /// coordinate has an inverse.
    pub open spec fn tangent_slope(self, x: nat, y: nat) -> nat {
        spec_mod_mul(3 * x * x + self.a, spec_mod_inv(2 * y, self.p), self.p)
    }

    /// The slope of the chord from `(x1, y1)` to `(x2, y2)`, where the
    /// difference of the first coordinates has an inverse.
    pub open spec fn chord_slope(self, x1: nat, y1: nat, x2: nat, y2: nat) -> nat {
        spec_mod_mul(
            spec_mod_sub(y2, y1, self.p),
            spec_mod_inv(spec_mod_sub(x2, x1, self.p), self.p),
            self.p,
        )
    }

    /// The third point of the curve on the line of slope `lambda` through
    /// `(x1, y1)` that also meets the curve at first coordinate `x2`,
    /// reflected in the first axis.
    pub open spec fn third_point(self, lambda: nat, x1: nat, y1: nat, x2: nat) -> PointModel {
        let x3 = ((lambda * lambda - x1 - x2) % (self.p as int)) as nat;
        let y3 = ((lambda * (x1 - x3) - y1) % (self.p as int)) as nat;
        PointModel::Affine { x: x3, y: y3 }
    }

    /// The sum of two points. Either point at infinity leaves the other
    /// unchanged; equal points are doubled along the tangent; two different
    /// points with the same first coordinate add to the point at infinity;
    /// all others are joined by a chord. The sum fails where the slope asks
    /// for an inverse that does not exist.
    pub open spec fn add(self, p1: PointModel, p2: PointModel) -> Result<PointModel, EccError> {
        match (p1, p2) {
            (PointModel::Infinity, _) => Ok(p2),
            (_, PointModel::Infinity) => Ok(p1),
            (PointModel::Affine { x: x1, y: y1 }, PointModel::Affine { x: x2, y: y2 }) => {
                if x1 == x2 && y1 == y2 {
                    if has_inverse_mod(2 * y1, self.p) {
                        Ok(self.third_point(self.tangent_slope(x1, y1), x1, y1, x2))
                    } else {
                        Err(EccError::NoInverse)
                    }
                } else if x1 == x2 {
                    Ok(PointModel::Infinity)
                } else if has_inverse_mod(spec_mod_sub(x2, x1, self.p), self.p) {
                    Ok(self.third_point(self.chord_slope(x1, y1, x2, y2), x1, y1, x2))
                } else {
                    Err(EccError::NoInverse)
                }
            },
        }
    }

    /// Double-and-add from the lowest bit of `k` upwards. `acc` holds the sum
    /// of the multiples taken so far and `run` the point that the current
    /// bit stands for. Each step adds `run` into `acc` where the bit is set,
    /// and then doubles `run`, also at the highest bit; the first addition
    /// that fails makes the whole computation fail.
    pub open spec fn ladder(self, k: nat, acc: PointModel, run: PointModel) -> Result<
        PointModel,
        EccError,
    >
        decreases k,
    {
        if k == 0 {
            Ok(acc)
        } else {
            let stepped = if k % 2 == 1 {
                self.add(acc, run)
            } else {
                Ok(acc)
            };
            match (stepped, self.add(run, run)) {
                (Ok(acc1), Ok(run1)) => self.ladder(k / 2, acc1, run1),
                _ => Err(EccError::NoInverse),
            }
        }
    }

    /// The multiple `k * pt`, computed by double-and-add from the point at
    /// infinity.
    pub open spec fn scalar_mult(self, k: nat, pt: PointModel) -> Result<PointModel, EccError> {
        self.ladder(k, PointModel::Infinity, pt)
    }

    /// The sum of the results of two computations, where both succeeded.
    pub open spec fn add_outcomes(
        self,
        left: Result<PointModel, EccError>,
        right: Result<PointModel, EccError>,
    ) -> Result<PointModel, EccError> {
        match (left, right) {
            (Ok(p1), Ok(p2)) => self.add(p1, p2),
            _ => Err(EccError::NoInverse),
        }
    }

    /// Double-and-add fails in one way only.
    pub proof fn lemma_ladder_error(self, k: nat, acc: PointModel, run: PointModel)
        ensures
            self.ladder(k, acc, run) matches Err(e) ==> e == EccError::NoInverse,
        decreases k,
    {
        if k != 0 {
            let stepped = if k % 2 == 1 {
                self.add(acc, run)
            } else {
                Ok(acc)
            };
            match (stepped, self.add(run, run)) {
                (Ok(acc1), Ok(run1)) => {
                    self.lemma_ladder_error(k / 2, acc1, run1);
                },
                _ => {},
            }
        }
    }
}

impl EllipticCurve {
    /// The curve with the given coefficients and modulus, where the modulus
    /// is greater than 2.
    pub fn new(a: BigUint, b: BigUint, p: BigUint) -> (r: Option<EllipticCurve>)
        ensures
            r.is_some() == (value(&p) > 2),
            r matches Some(c) ==> c@ == (CurveModel { a: value(&a), b: value(&b), p: value(&p) })
                && c@.wf(),
    {
        let two = big_from_u32(2);
        if big_lt(&two, &p) {
            Some(EllipticCurve { a, b, p })
        } else {
            None
        }
    }

    /// The coefficient of `x` in the curve equation.
    pub fn a(&self) -> (r: &BigUint)
        ensures
            value(r) == self@.a,
    {
        &self.a
    }

    /// The constant term of the curve equation.
    pub fn b(&self) -> (r: &BigUint)
        ensures
            value(r) == self@.b,
    {
        &self.b
    }

    /// The modulus.
    pub fn p(&self) -> (r: &BigUint)
        ensures
            value(r) == self@.p,
    {
        &self.p
    }

    /// Accepts a point of the curve and rejects any other with
    /// `InvalidPoint`.
    pub fn check_point(&self, point: &Point) -> (r: Result<(), EccError>)
        requires
            self@.wf(),
        ensures
            match r {
                Ok(_) => self@.on_curve(point@),
                Err(e) => e == EccError::InvalidPoint && !self@.on_curve(point@),
            },
    {
        if self.is_on_curve(point) {
            Ok(())
        } else {
            Err(EccError::InvalidPoint)
        }
    }

    /// Whether the point is the point at infinity or satisfies the curve
    /// equation.
    pub fn is_on_curve(&self, point: &Point) -> (r: bool)
        requires
            self@.wf(),
        ensures
            r == self@.on_curve(point@),
    {
        match point {
            Point::Infinity => true,
            Point::Affine { x, y } => {
                let left = mod_mul(y, y, &self.p);
                let xx = big_mul(x, x);
                let xxx = big_mul(&xx, x);
                let ax = big_mul(&self.a, x);
                let sum = big_add(&big_add(&xxx, &ax), &self.b);
                let right = big_rem(&sum, &self.p);
                big_eq(&left, &right)
            },
        }
    }

    /// The third point on the line of slope `lambda` through `(x1, y1)`.
    fn third_point(&self, lambda: &BigUint, x1: &BigUint, y1: &BigUint, x2: &BigUint) -> (r: Point)
        requires
            self@.wf(),
        ensures
            r@ == self@.third_point(value(lambda), value(x1), value(y1), value(x2)),
    {
        let ll = mod_mul(lambda, lambda, &self.p);
        let x3 = mod_sub(&mod_sub(&ll, x1, &self.p), x2, &self.p);
        let dx = mod_sub(x1, &x3, &self.p);
        let y3 = mod_sub(&mod_mul(lambda, &dx, &self.p), y1, &self.p);
        proof {
            let p = value(&self.p) as int;
            let l = value(lambda) as int;
            lemma_sub_chain(l * l, value(x1) as int, value(x2) as int, p);
            lemma_mod_bound(l * l - value(x1) - value(x2), p);
            lemma_mul_sub_chain(l, value(x1) - value(&x3), value(y1) as int, p);
            lemma_mod_bound(l * (value(x1) - value(&x3)) - value(y1), p);
        }
        Point::Affine { x: x3, y: y3 }
    }

    /// Adds two points of the curve.
    pub fn add(&self, p1: &Point, p2: &Point) -> (r: Result<Point, EccError>)
        requires
            self@.wf(),
        ensures
            outcome(r) == self@.add(p1@, p2@),
            r matches Err(e) ==> e == EccError::NoInverse,
            r matches Ok(sum) ==> (self@.on_curve(p1@) && self@.on_curve(p2@) ==> self@.on_curve(
                sum@,
            )),
    {
        proof {
            if self@.on_curve(p1@) && self@.on_curve(p2@) {
                lemma_add_closed(self@, p1@, p2@);
            }
        }
        match p1 {
            Point::Infinity => Ok(p2.clone()),
            Point::Affine { x: x1, y: y1 } => match p2 {
                Point::Infinity => Ok(p1.clone()),
                Point::Affine { x: x2, y: y2 } => {
                    if big_eq(x1, x2) {
                        if big_eq(y1, y2) {
                            let three = big_from_u32(3);
                            let two = big_from_u32(2);
                            let numerator = big_add(&big_mul(&big_mul(&three, x1), x1), &self.a);
                            let denominator = big_mul(&two, y1);
                            match mod_inv(&denominator, &self.p) {
                                Ok(inverse) => {
                                    let lambda = mod_mul(&numerator, &inverse, &self.p);
                                    Ok(self.third_point(&lambda, x1, y1, x2))
                                },
                                Err(e) => Err(e),
                            }
                        } else {
                            Ok(Point::Infinity)
                        }
                    } else {
                        let numerator = mod_sub(y2, y1, &self.p);
                        let denominator = mod_sub(x2, x1, &self.p);
                        match mod_inv(&denominator, &self.p) {
                            Ok(inverse) => {
                                let lambda = mod_mul(&numerator, &inverse, &self.p);
                                Ok(self.third_point(&lambda, x1, y1, x2))
                            },
                            Err(e) => Err(e),
                        }
                    }
                },
            },
        }
    }
    /// Multiplies a point by a scalar with double-and-add, from the lowest
    /// bit of the scalar upwards.
    pub fn scalar_mult(&self, k: &BigUint, p: &Point) -> (r: Result<Point, EccError>)
        requires
            self@.wf(),
        ensures
            outcome(r) == self@.scalar_mult(value(k), p@),
            r matches Err(e) ==> e == EccError::NoInverse,
            r matches Ok(multiple) ==> (self@.on_curve(p@) ==> self@.on_curve(multiple@)),
    {
        proof {
            self@.lemma_ladder_error(value(k), PointModel::Infinity, p@);
            if self@.on_curve(p@) {
                lemma_scalar_mult_closed(self@, value(k), p@);
            }
        }
        let zero = big_zero();
        let one = big_one();
        let two = big_from_u32(2);
        let mut result = Point::Infinity;
        let mut temp = p.clone();
        let mut rest = big_clone(k);
        while big_lt(&zero, &rest)
            invariant
                self@.wf(),
                value(&zero) == 0,
                value(&one) == 1,
                value(&two) == 2,
                self@.ladder(value(&rest), result@, temp@) == self@.scalar_mult(value(k), p@),
            decreases value(&rest),
        {
            if big_eq(&big_rem(&rest, &two), &one) {
                match self.add(&result, &temp) {
                    Ok(sum) => {
                        result = sum;
                    },
                    Err(e) => {
                        return Err(e);
                    },
                }
            }
            match self.add(&temp, &temp) {
                Ok(doubled) => {
                    temp = doubled;
                },
                Err(e) => {
                    return Err(e);
                },
            }
            proof {
                lemma2_to64();
            }
            rest = big_shr(&rest, 1);
        }
        Ok(result)
    }
}

} // verus!
