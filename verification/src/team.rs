//! Teams: who may hurt whom.
use vstd::prelude::*;

verus! {

/// The side an entity or a projectile belongs to.
#[derive(Clone, Copy, Debug, PartialEq, Eq, Structural)]
pub enum Team {
    /// No side: neutral things neither deal nor take projectile damage.
    Neutral,
    Player,
    Enemy,
}

impl Team {
    /// A projectile of team `self` may damage a target of team `target`:
    /// the projectile has a side, and it is not the target's.
    pub open spec fn hostile_to(self, target: Team) -> bool {
        self != Team::Neutral && self != target
    }

    /// Tells whether a projectile of this team may damage a target of team
    /// `target`.
    pub fn is_hostile_to(&self, target: &Team) -> (b: bool)
        ensures
            b == self.hostile_to(*target),
    {
        !(*self == Team::Neutral || *self == *target)
    }
}

} // verus!
