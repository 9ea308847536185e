//! Where an entity is and which way it faces.
use vstd::prelude::*;
use crate::fixed::{COORD_LIMIT, SCALE};
use crate::vec2::Vec2;

verus! {

/// Position and heading of an entity. The heading is a vector that points
/// forward, of length `SCALE` or a little less by rounding, and never more.
#[derive(Clone, Copy, Debug, PartialEq, Eq)]
pub struct Transform {
    pub translation: Vec2,
    pub heading: Vec2,
}

impl Transform {
    /// The position is inside the coordinate range and the heading is no
    /// longer than a unit vector.
    pub open spec fn wf(self) -> bool {
        &&& self.translation.within(COORD_LIMIT as int)
        &&& self.heading.within(SCALE as int)
        &&& self.heading.length_squared() <= SCALE * SCALE
    }

    /// At `translation`, facing up the y axis.
    pub open spec fn at(translation: Vec2) -> Transform {
        Transform { translation, heading: Vec2 { x: 0, y: SCALE } }
    }

    /// A transform at `translation` that faces up the y axis.
    pub fn from_translation(translation: Vec2) -> (t: Transform)
        ensures
            t == Transform::at(translation),
    {
        Transform { translation, heading: Vec2 { x: 0, y: SCALE } }
    }

    /// Tells whether position and heading are inside their ranges.
    pub fn is_wf(&self) -> (b: bool)
        ensures
            b == self.wf(),
    {
        self.translation.is_within(COORD_LIMIT) && self.heading.is_no_longer_than(SCALE)
    }
}

} // verus!
