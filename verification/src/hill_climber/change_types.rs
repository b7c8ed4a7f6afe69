use crate::schedule::Slot;
use vstd::prelude::*;

verus! {

/// What one step of the search did to the schedule: enough to undo it.
#[derive(Clone, Copy, Debug, PartialEq, Eq, Structural)]
pub enum ChangeType {
    /// The constraint that stood at the first slot now stands at the second.
    Move(Slot, Slot),
    /// The constraint with this id was put on the grid.
    Scheduled(u32),
    /// The first constraint was put where the second stood; the second was
    /// taken off the grid, where it had started at the slot and run for the
    /// duration given.
    Substituted(u32, u32, Slot, u8),
}

} // verus!
