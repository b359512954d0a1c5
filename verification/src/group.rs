//! What the encryption scheme asks of a group: an identity, an addition, the
//! multiple of an element by a scalar, and a field element read off an
//! element. Points of a curve are one such group; the field elements under
//! addition are another (see [`crate::field`]).

use crate::bignum::value;
use crate::curve::{CurveModel, EllipticCurve, Point, PointModel};
use crate::error::EccError;
use num_bigint::BigUint;
use vstd::prelude::*;

verus! {

/// An element of a group whose operations may fail. The group itself, with
/// the parameters that the operations need, is a value of type `Group`.
pub trait GroupElement: Sized {
    /// The group that the elements belong to.
    type Group;

    /// The group as the contracts see it.
    type GroupModel;

    /// An element as the contracts see it.
    type Model;

    /// The model of a group.
    spec fn group_model(group: &Self::Group) -> Self::GroupModel;

    /// The condition on a group under which the operations may be called.
    spec fn group_wf(gm: Self::GroupModel) -> bool;

    /// The model of an element.
    spec fn model(&self) -> Self::Model;

    /// The identity of the group.
    spec fn spec_identity() -> Self::Model;

    /// The sum of two elements.
    spec fn spec_add(gm: Self::GroupModel, a: Self::Model, b: Self::Model) -> Result<
        Self::Model,
        EccError,
    >;

    /// The multiple of an element by a scalar.
    spec fn spec_scalar_mul(gm: Self::GroupModel, k: nat, a: Self::Model) -> Result<
        Self::Model,
        EccError,
    >;

    /// The field element that stands for an element where the scheme
    /// multiplies by it.
    spec fn spec_coordinate(a: Self::Model) -> nat;

    /// The identity of the group.
    fn identity() -> (r: Self)
        ensures
            r.model() == Self::spec_identity(),
    ;

    /// Adds two elements.
    fn add(&self, other: &Self, group: &Self::Group) -> (r: Result<Self, EccError>)
        requires
            Self::group_wf(Self::group_model(group)),
        ensures
            match r {
                Ok(sum) => Self::spec_add(
                    Self::group_model(group),
                    self.model(),
                    other.model(),
                ) == Ok::<Self::Model, EccError>(sum.model()),
                Err(e) => Self::spec_add(
                    Self::group_model(group),
                    self.model(),
                    other.model(),
                ) == Err::<Self::Model, EccError>(e),
            },
    ;

    /// Multiplies an element by a scalar.
    fn scalar_mul(&self, k: &BigUint, group: &Self::Group) -> (r: Result<Self, EccError>)
        requires
            Self::group_wf(Self::group_model(group)),
        ensures
            match r {
                Ok(multiple) => Self::spec_scalar_mul(
                    Self::group_model(group),
                    value(k),
                    self.model(),
                ) == Ok::<Self::Model, EccError>(multiple.model()),
                Err(e) => Self::spec_scalar_mul(
                    Self::group_model(group),
                    value(k),
                    self.model(),
                ) == Err::<Self::Model, EccError>(e),
            },
    ;

    /// Reads the field element that stands for an element.
    fn coordinate(&self) -> (r: BigUint)
        ensures
            value(&r) == Self::spec_coordinate(self.model()),
    ;
}

/// The model of what an operation on elements returned.
pub open spec fn element_outcome<E: GroupElement>(r: Result<E, EccError>) -> Result<
    E::Model,
    EccError,
> {
    match r {
        Ok(e) => Ok(e.model()),
        Err(x) => Err(x),
    }
}

/// The points of a curve under chord-and-tangent addition. A point stands
/// for its first coordinate, and the point at infinity for 0.
impl GroupElement for Point {
    type Group = EllipticCurve;

    type GroupModel = CurveModel;

    type Model = PointModel;

    open spec fn group_model(group: &EllipticCurve) -> CurveModel {
        group@
    }

    open spec fn group_wf(gm: CurveModel) -> bool {
        gm.wf()
    }

    open spec fn model(&self) -> PointModel {
        self@
    }

    open spec fn spec_identity() -> PointModel {
        PointModel::Infinity
    }

    open spec fn spec_add(gm: CurveModel, a: PointModel, b: PointModel) -> Result<
        PointModel,
        EccError,
    > {
        gm.add(a, b)
    }

    open spec fn spec_scalar_mul(gm: CurveModel, k: nat, a: PointModel) -> Result<
        PointModel,
        EccError,
    > {
        gm.scalar_mult(k, a)
    }

    open spec fn spec_coordinate(a: PointModel) -> nat {
        a.x_or_zero()
    }

    fn identity() -> (r: Point) {
        Point::infinity()
    }

    fn add(&self, other: &Point, group: &EllipticCurve) -> (r: Result<Point, EccError>) {
        group.add(self, other)
    }

    fn scalar_mul(&self, k: &BigUint, group: &EllipticCurve) -> (r: Result<Point, EccError>) {
        group.scalar_mult(k, self)
    }

    fn coordinate(&self) -> (r: BigUint) {
        self.x_or_zero()
    }
}

} // verus!
