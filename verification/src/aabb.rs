//! Axis-aligned bounding boxes over integer coordinates.

use vstd::prelude::*;

verus! {

/// What a bounding box is: its least and greatest coordinate on each of three axes.
pub struct Extents {
    pub min_x: int,
    pub min_y: int,
    pub min_z: int,
    pub max_x: int,
    pub max_y: int,
    pub max_z: int,
}

/// Whether the closed intervals `[min_a, max_a]` and `[min_b, max_b]` share a point.
pub open spec fn intervals_meet(min_a: int, max_a: int, min_b: int, max_b: int) -> bool {
    min_a <= max_b && min_b <= max_a
}

impl Extents {
    /// The least coordinate is not above the greatest one, on every axis.
    pub open spec fn wf(self) -> bool {
        &&& self.min_x <= self.max_x
        &&& self.min_y <= self.max_y
        &&& self.min_z <= self.max_z
    }

    /// The boxes share a point on the x-axis.
    pub open spec fn overlaps_x(self, other: Extents) -> bool {
        intervals_meet(self.min_x, self.max_x, other.min_x, other.max_x)
    }

    /// The boxes share a point on the y-axis.
    pub open spec fn overlaps_y(self, other: Extents) -> bool {
        intervals_meet(self.min_y, self.max_y, other.min_y, other.max_y)
    }

    /// The boxes share a point on the z-axis.
    pub open spec fn overlaps_z(self, other: Extents) -> bool {
        intervals_meet(self.min_z, self.max_z, other.min_z, other.max_z)
    }

    /// The boxes share a point on every axis. Boxes that only touch overlap.
    pub open spec fn overlaps(self, other: Extents) -> bool {
        self.overlaps_x(other) && self.overlaps_y(other) && self.overlaps_z(other)
    }
}

/// An axis-aligned bounding box. On every axis its least coordinate is not
/// above its greatest one: no other box can be made. A box of a planar world
/// has the extent `[0, 0]` on the z-axis, so that two planar boxes always meet
/// there.
#[derive(Clone, Copy, Debug, PartialEq, Eq, Structural)]
pub struct Aabb {
    min_x: i64,
    min_y: i64,
    min_z: i64,
    max_x: i64,
    max_y: i64,
    max_z: i64,
}

impl View for Aabb {
    type V = Extents;

    closed spec fn view(&self) -> Extents {
        Extents {
            min_x: self.min_x as int,
            min_y: self.min_y as int,
            min_z: self.min_z as int,
            max_x: self.max_x as int,
            max_y: self.max_y as int,
            max_z: self.max_z as int,
        }
    }
}

impl Aabb {
    /// The corners of the box are in order.
    #[verifier::type_invariant]
    pub open spec fn wf(&self) -> bool {
        self@.wf()
    }

    /// The box of a planar world with the given extents on x and y, or `None`
    /// where a least coordinate is above the greatest one of its axis.
    pub fn planar(min_x: i64, min_y: i64, max_x: i64, max_y: i64) -> (aabb: Option<Aabb>)
        ensures
            aabb is Some <==> min_x <= max_x && min_y <= max_y,
            aabb matches Some(b) ==> b@ == (Extents {
                min_x: min_x as int,
                min_y: min_y as int,
                min_z: 0,
                max_x: max_x as int,
                max_y: max_y as int,
                max_z: 0,
            }),
    {
        Aabb::spatial(min_x, min_y, 0, max_x, max_y, 0)
    }

    /// The box of a spatial world with the given extents on x, y and z, or
    /// `None` where a least coordinate is above the greatest one of its axis.
    pub fn spatial(min_x: i64, min_y: i64, min_z: i64, max_x: i64, max_y: i64, max_z: i64) -> (aabb:
        Option<Aabb>)
        ensures
            aabb is Some <==> min_x <= max_x && min_y <= max_y && min_z <= max_z,
            aabb matches Some(b) ==> b@ == (Extents {
                min_x: min_x as int,
                min_y: min_y as int,
                min_z: min_z as int,
                max_x: max_x as int,
                max_y: max_y as int,
                max_z: max_z as int,
            }),
    {
        if min_x <= max_x && min_y <= max_y && min_z <= max_z {
            Some(Aabb { min_x, min_y, min_z, max_x, max_y, max_z })
        } else {
            None
        }
    }

    /// The least coordinate on the x-axis.
    pub fn min_x(&self) -> (x: i64)
        ensures
            x == self@.min_x,
    {
        self.min_x
    }

    /// The least coordinate on the y-axis.
    pub fn min_y(&self) -> (y: i64)
        ensures
            y == self@.min_y,
    {
        self.min_y
    }

    /// The least coordinate on the z-axis.
    pub fn min_z(&self) -> (z: i64)
        ensures
            z == self@.min_z,
    {
        self.min_z
    }

    /// The greatest coordinate on the x-axis.
    pub fn max_x(&self) -> (x: i64)
        ensures
            x == self@.max_x,
    {
        self.max_x
    }

    /// The greatest coordinate on the y-axis.
    pub fn max_y(&self) -> (y: i64)
        ensures
            y == self@.max_y,
    {
        self.max_y
    }

    /// The greatest coordinate on the z-axis.
    pub fn max_z(&self) -> (z: i64)
        ensures
            z == self@.max_z,
    {
        self.max_z
    }

    /// Tests whether the two boxes share a point on every axis.
    pub fn intersects(&self, other: &Aabb) -> (hit: bool)
        ensures
            hit == self@.overlaps(other@),
    {
        self.min_x <= other.max_x && other.min_x <= self.max_x && self.min_y <= other.max_y
            && other.min_y <= self.max_y && self.min_z <= other.max_z && other.min_z <= self.max_z
    }
}

} // verus!
