use vstd::prelude::*;
use crate::scalar::{Scalar, fits, abs};
use crate::vector3::Vector3;

verus! {

/// A position in space.
#[derive(Clone, Copy, Debug, PartialEq, Eq, Structural)]
pub struct Point {
    pub x: Scalar,
    pub y: Scalar,
    pub z: Scalar,
}

impl Point {
    /// Whether every coordinate lies within `limit` of zero.
    pub open spec fn within(self, limit: int) -> bool {
        abs(self.x@) <= limit && abs(self.y@) <= limit && abs(self.z@) <= limit
    }

    /// Whether every component of the displacement from `other` to
    /// `self` can be stored.
    pub open spec fn reachable_from(self, other: Point) -> bool {
        fits(self.x@ - other.x@) && fits(self.y@ - other.y@) && fits(self.z@ - other.z@)
    }

    /// Whether every coordinate of the point that `step` leads to from
    /// `self` can be stored.
    pub open spec fn can_move(self, step: Vector3) -> bool {
        fits(self.x@ + step.x@) && fits(self.y@ + step.y@) && fits(self.z@ + step.z@)
    }

    /// The displacement that leads from `other` to `self`.
    pub open spec fn spec_minus(self, other: Point) -> Vector3 {
        Vector3 {
            x: Scalar { raw: (self.x@ - other.x@) as i64 },
            y: Scalar { raw: (self.y@ - other.y@) as i64 },
            z: Scalar { raw: (self.z@ - other.z@) as i64 },
        }
    }

    /// The point that `step` leads to from `self`.
    pub open spec fn spec_plus(self, step: Vector3) -> Point {
        Point {
            x: Scalar { raw: (self.x@ + step.x@) as i64 },
            y: Scalar { raw: (self.y@ + step.y@) as i64 },
            z: Scalar { raw: (self.z@ + step.z@) as i64 },
        }
    }

    /// Whether every coordinate lies within `limit` of zero.
    pub fn is_within(&self, limit: i64) -> (ok: bool)
        requires
            0 <= limit,
        ensures
            ok == self.within(limit as int),
    {
        self.x.is_within(limit) && self.y.is_within(limit) && self.z.is_within(limit)
    }

    pub fn new(x: Scalar, y: Scalar, z: Scalar) -> (p: Point)
        ensures
            p.x == x,
            p.y == y,
            p.z == z,
    {
        Point { x, y, z }
    }
}

impl core::ops::Sub<Point> for Point {
    type Output = Vector3;

    /// The displacement that leads from `other` to `self`.
    fn sub(self, other: Point) -> (r: Vector3) {
        Vector3 {
            x: Scalar { raw: self.x.raw - other.x.raw },
            y: Scalar { raw: self.y.raw - other.y.raw },
            z: Scalar { raw: self.z.raw - other.z.raw },
        }
    }
}

impl vstd::std_specs::ops::SubSpecImpl<Point> for Point {
    open spec fn obeys_sub_spec() -> bool {
        true
    }

    open spec fn sub_req(self, other: Point) -> bool {
        self.reachable_from(other)
    }

    open spec fn sub_spec(self, other: Point) -> Vector3 {
        self.spec_minus(other)
    }
}

impl core::ops::Add<Vector3> for Point {
    type Output = Point;

    /// The point that `other` leads to from `self`.
    fn add(self, other: Vector3) -> (r: Point) {
        Point {
            x: Scalar { raw: self.x.raw + other.x.raw },
            y: Scalar { raw: self.y.raw + other.y.raw },
            z: Scalar { raw: self.z.raw + other.z.raw },
        }
    }
}

impl vstd::std_specs::ops::AddSpecImpl<Vector3> for Point {
    open spec fn obeys_add_spec() -> bool {
        true
    }

    open spec fn add_req(self, other: Vector3) -> bool {
        self.can_move(other)
    }

    open spec fn add_spec(self, other: Vector3) -> Point {
        self.spec_plus(other)
    }
}

impl core::ops::Add<Point> for Vector3 {
    type Output = Point;

    /// The point that `self` leads to from `other`.
    fn add(self, other: Point) -> (r: Point) {
        other + self
    }
}

impl vstd::std_specs::ops::AddSpecImpl<Point> for Vector3 {
    open spec fn obeys_add_spec() -> bool {
        true
    }

    open spec fn add_req(self, other: Point) -> bool {
        other.can_move(self)
    }

    open spec fn add_spec(self, other: Point) -> Point {
        other.spec_plus(self)
    }
}

} // verus!
