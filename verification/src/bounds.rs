//! The position-space bounding box of a chart.

use vstd::prelude::*;
use crate::pos::Pos;

verus! {

/// An axis-aligned box in position space, spanned by the two axis
/// ranges. Downstream collaborators project it to pixels.
#[derive(Clone, Copy, Debug, PartialEq, Eq, Structural)]
pub struct Bounds {
    /// Position of the lower X bound.
    pub min_x: Pos,
    /// Position of the lower Y bound.
    pub min_y: Pos,
    /// Position of the upper X bound.
    pub max_x: Pos,
    /// Position of the upper Y bound.
    pub max_y: Pos,
}

impl Bounds {
    /// The zero-size box at the origin: what an undefined range
    /// degenerates to.
    pub open spec fn zero_spec() -> Bounds {
        Bounds {
            min_x: Pos::Finite(0),
            min_y: Pos::Finite(0),
            max_x: Pos::Finite(0),
            max_y: Pos::Finite(0),
        }
    }

    /// The zero-size box at the origin.
    pub fn zero() -> (b: Bounds)
        ensures
            b == Bounds::zero_spec(),
    {
        Bounds {
            min_x: Pos::Finite(0),
            min_y: Pos::Finite(0),
            max_x: Pos::Finite(0),
            max_y: Pos::Finite(0),
        }
    }

    /// The box spanning the two given corners.
    pub fn from_points(min_x: Pos, min_y: Pos, max_x: Pos, max_y: Pos) -> (b: Bounds)
        ensures
            b == (Bounds { min_x, min_y, max_x, max_y }),
    {
        Bounds { min_x, min_y, max_x, max_y }
    }

    /// True when the point lies inside the box on both axes; false
    /// whenever a coordinate or a bound is `Nan`.
    pub fn contains(&self, x: Pos, y: Pos) -> (r: bool)
        ensures
            r == (self.min_x.spec_le(x) && x.spec_le(self.max_x) && self.min_y.spec_le(y)
                && y.spec_le(self.max_y)),
    {
        self.min_x.le(x) && x.le(self.max_x) && self.min_y.le(y) && y.le(self.max_y)
    }
}

} // verus!
