//! Hit points.
use vstd::prelude::*;
use crate::fixed::clamp;

verus! {

/// Remaining hit points; an entity whose health is zero or less is destroyed.
#[derive(Clone, Copy, Debug, PartialEq, Eq)]
pub struct Health(pub i32);

impl Health {
    /// The health left after `damage`, saturating at the ends of `i32`.
    pub open spec fn damaged(self, damage: i32) -> Health {
        Health(clamp(self.0 - damage, i32::MIN as int, i32::MAX as int) as i32)
    }

    /// No hit points are left.
    pub open spec fn depleted(self) -> bool {
        self.0 <= 0
    }

    /// Takes `damage` hit points away.
    pub fn damage(&self, damage: i32) -> (h: Health)
        ensures
            h == self.damaged(damage),
    {
        let left: i64 = self.0 as i64 - damage as i64;
        if left < i32::MIN as i64 {
            Health(i32::MIN)
        } else if left > i32::MAX as i64 {
            Health(i32::MAX)
        } else {
            Health(left as i32)
        }
    }

    /// Tells whether no hit points are left.
    pub fn is_depleted(&self) -> (b: bool)
        ensures
            b == self.depleted(),
    {
        self.0 <= 0
    }
}

} // verus!
