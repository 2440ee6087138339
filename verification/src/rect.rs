//! The three axis-aligned plane orientations a rectangle primitive can
//! take; the axis named is the one the rectangle is perpendicular to. The
//! rectangle's own intersection arithmetic is floating point and lives with
//! the caller; the same three names choose the sort axis when the
//! bounding-volume hierarchy is built.

use vstd::prelude::*;

verus! {

#[derive(Clone, Copy, PartialEq, Eq, Structural, Debug)]
pub enum AxisAlignedRectAxis {
    X,
    Y,
    Z,
}

} // verus!
