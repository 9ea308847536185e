//! The two counters shown to the player.
use vstd::prelude::*;

verus! {

/// Points earned.
#[derive(Clone, Copy, Debug, PartialEq, Eq)]
pub struct GameScore(pub u32);

/// Bombs in stock: one per crystal that the player has picked up.
#[derive(Clone, Copy, Debug, PartialEq, Eq)]
pub struct Sinibombs(pub u32);

impl Default for GameScore {
    /// No points.
    fn default() -> (s: GameScore)
        ensures
            s == GameScore(0),
    {
        GameScore(0)
    }
}

impl Default for Sinibombs {
    /// No bombs.
    fn default() -> (s: Sinibombs)
        ensures
            s == Sinibombs(0),
    {
        Sinibombs(0)
    }
}

} // verus!
