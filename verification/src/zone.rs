use vstd::prelude::*;

use crate::human::Human;

verus! {

/// A quarantine configuration: the arena is split into a quarantine region
/// left of `x1` and a free region right of `x2`, with the strip `[x1, x2]`
/// as an inert buffer.  Invariant (enforced where a zone is installed):
/// `0 < x1 < x2 < width`.
#[derive(Clone, Copy, Debug, PartialEq, Eq, Structural)]
pub struct Zone {
    pub x1: i64,
    pub x2: i64,
}

/// The routing predicate: an agent whose leading edge lies strictly left of
/// `x1` belongs to the quarantine region.
pub open spec fn inside_spec(z: Zone, h: Human) -> bool {
    h.pos.x - h.thickness < z.x1
}

impl Zone {
    /// Whether the agent's leading edge is strictly left of `x1`.
    pub fn inside(&self, human: &Human) -> (r: bool)
        ensures
            r == inside_spec(*self, *human),
    {
        (human.pos.x as i128) - (human.thickness as i128) < (self.x1 as i128)
    }
}

} // verus!
