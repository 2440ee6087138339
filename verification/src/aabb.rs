//! Axis-aligned bounding boxes over an integer coordinate scale.
//!
//! Box union and box containment read only the ordering of coordinates,
//! never their magnitudes, so they are stated here over `i64` coordinates.
//! A caller working in floating point maps each coordinate through any
//! order-preserving embedding into `i64` (the sign-adjusted bit pattern of
//! a finite `f64` is one), works the boxes here, and maps back; minima and
//! maxima commute with such an embedding. The slab intersection test, which
//! does divide and multiply, stays with the caller.

use vstd::prelude::*;
use crate::rect::AxisAlignedRectAxis;

verus! {

/// A point of the integer coordinate scale.
#[derive(Clone, Copy, PartialEq, Eq, Structural, Debug)]
pub struct Coord3 {
    pub x: i64,
    pub y: i64,
    pub z: i64,
}

impl Coord3 {
    pub fn new(x: i64, y: i64, z: i64) -> (r: Coord3)
        ensures
            r == (Coord3 { x, y, z }),
    {
        Coord3 { x, y, z }
    }

    /// The coordinate along one axis.
    pub open spec fn spec_component(self, axis: AxisAlignedRectAxis) -> i64 {
        match axis {
            AxisAlignedRectAxis::X => self.x,
            AxisAlignedRectAxis::Y => self.y,
            AxisAlignedRectAxis::Z => self.z,
        }
    }

    pub fn component(self, axis: AxisAlignedRectAxis) -> (r: i64)
        ensures
            r == self.spec_component(axis),
    {
        match axis {
            AxisAlignedRectAxis::X => self.x,
            AxisAlignedRectAxis::Y => self.y,
            AxisAlignedRectAxis::Z => self.z,
        }
    }
}

/// The smaller of two coordinates.
fn ffmin(a: i64, b: i64) -> (r: i64)
    ensures
        r == if a < b {
            a
        } else {
            b
        },
{
    if a < b {
        a
    } else {
        b
    }
}

/// The larger of two coordinates.
fn ffmax(a: i64, b: i64) -> (r: i64)
    ensures
        r == if a > b {
            a
        } else {
            b
        },
{
    if a > b {
        a
    } else {
        b
    }
}

/// An axis-aligned box `[min, max]`. Its invariant is `min <= max` on every
/// axis; primitives construct boxes that satisfy it and `get_union`
/// preserves it.
#[derive(Clone, Copy, PartialEq, Eq, Structural, Debug)]
pub struct AABB {
    pub min: Coord3,
    pub max: Coord3,
}

impl AABB {
    /// The box invariant: no axis is inverted.
    pub open spec fn wf(self) -> bool {
        &&& self.min.x <= self.max.x
        &&& self.min.y <= self.max.y
        &&& self.min.z <= self.max.z
    }

    /// Whether the point lies inside the box, boundary included.
    pub open spec fn contains_point(self, p: Coord3) -> bool {
        &&& self.min.x <= p.x <= self.max.x
        &&& self.min.y <= p.y <= self.max.y
        &&& self.min.z <= p.z <= self.max.z
    }

    /// Whether every point of `inner` lies inside `self`.
    pub open spec fn contains_box(self, inner: AABB) -> bool {
        &&& self.min.x <= inner.min.x && inner.max.x <= self.max.x
        &&& self.min.y <= inner.min.y && inner.max.y <= self.max.y
        &&& self.min.z <= inner.min.z && inner.max.z <= self.max.z
    }

    /// A corner of the box: each coordinate is the box's own extreme on
    /// that axis.
    pub open spec fn is_corner(self, p: Coord3) -> bool {
        &&& p.x == self.min.x || p.x == self.max.x
        &&& p.y == self.min.y || p.y == self.max.y
        &&& p.z == self.min.z || p.z == self.max.z
    }

    /// The componentwise union of two boxes.
    pub open spec fn union_spec(box0: AABB, box1: AABB) -> AABB {
        AABB {
            min: Coord3 {
                x: if box0.min.x < box1.min.x {
                    box0.min.x
                } else {
                    box1.min.x
                },
                y: if box0.min.y < box1.min.y {
                    box0.min.y
                } else {
                    box1.min.y
                },
                z: if box0.min.z < box1.min.z {
                    box0.min.z
                } else {
                    box1.min.z
                },
            },
            max: Coord3 {
                x: if box0.max.x > box1.max.x {
                    box0.max.x
                } else {
                    box1.max.x
                },
                y: if box0.max.y > box1.max.y {
                    box0.max.y
                } else {
                    box1.max.y
                },
                z: if box0.max.z > box1.max.z {
                    box0.max.z
                } else {
                    box1.max.z
                },
            },
        }
    }

    pub fn new(min: Coord3, max: Coord3) -> (r: AABB)
        requires
            min.x <= max.x,
            min.y <= max.y,
            min.z <= max.z,
        ensures
            r == (AABB { min, max }),
            r.wf(),
    {
        AABB { min, max }
    }

    pub fn min(&self) -> (r: Coord3)
        ensures
            r == self.min,
    {
        self.min
    }

    pub fn max(&self) -> (r: Coord3)
        ensures
            r == self.max,
    {
        self.max
    }

    /// The box of the componentwise minima of the two minima and maxima of
    /// the two maxima. The invariant is preserved, and the union contains
    /// both boxes whole.
    pub fn get_union(box0: &AABB, box1: &AABB) -> (r: AABB)
        ensures
            r == AABB::union_spec(*box0, *box1),
            box0.wf() && box1.wf() ==> r.wf(),
    {
        AABB {
            min: Coord3 {
                x: ffmin(box0.min.x, box1.min.x),
                y: ffmin(box0.min.y, box1.min.y),
                z: ffmin(box0.min.z, box1.min.z),
            },
            max: Coord3 {
                x: ffmax(box0.max.x, box1.max.x),
                y: ffmax(box0.max.y, box1.max.y),
                z: ffmax(box0.max.z, box1.max.z),
            },
        }
    }
}

/// The union of two boxes contains both whole: every point of either box —
/// in particular every one of its corners — lies in the union.
pub proof fn lemma_union_contains(box0: AABB, box1: AABB)
    ensures
        AABB::union_spec(box0, box1).contains_box(box0),
        AABB::union_spec(box0, box1).contains_box(box1),
        forall|p: Coord3|
            box0.contains_point(p) || box1.contains_point(p) ==> AABB::union_spec(
                box0,
                box1,
            ).contains_point(p),
        forall|p: Coord3|
            box0.wf() && #[trigger] box0.is_corner(p) ==> AABB::union_spec(
                box0,
                box1,
            ).contains_point(p),
        forall|p: Coord3|
            box1.wf() && #[trigger] box1.is_corner(p) ==> AABB::union_spec(
                box0,
                box1,
            ).contains_point(p),
{
}

} // verus!
