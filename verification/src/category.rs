//! Agent categories as a bitset, and the targeting policy built from them.

use vstd::prelude::*;

verus! {

pub const FIGHTER: u32 = 0b00000001;
pub const FRIGATE: u32 = 0b00000010;
pub const CRUISER: u32 = 0b00000100;
pub const TURRET: u32 = 0b00001000;
pub const MISSILE: u32 = 0b00010000;

/// A set of agent categories, one bit per category.
#[derive(Clone, Copy, PartialEq, Eq, Structural, Debug)]
pub struct AgentCategory(pub u32);

/// `cats` holds every category of `sub`: all bits of `sub` are set in `cats`.
pub open spec fn category_contains(cats: u32, sub: u32) -> bool {
    cats & sub == sub
}

impl AgentCategory {
    /// True when every bit of `other` is set in `self`.
    pub fn contains(&self, other: &AgentCategory) -> (r: bool)
        ensures
            r == category_contains(self.0, other.0),
    {
        self.0 & other.0 == other.0
    }
}

/// The standing targeting policy of an agent; immutable after creation.
#[derive(Clone, Copy, PartialEq, Eq, Structural, Debug)]
pub struct TargetingOrders {
    /// Categories this agent would rather engage (score divided by five).
    pub preferred: AgentCategory,
    /// Categories this agent avoids (score multiplied by five).
    pub discouraged: AgentCategory,
    /// True for support agents that pick allies instead of enemies.
    pub target_same_team: bool,
}

} // verus!
