//! The penalty kernels: what each kind of penalty charges a constraint for
//! where it stands, or does not stand, on the grid.

use crate::constraints::{Constraint, ConstraintPriority};
use crate::schedule::timetable::Timetable;
use crate::schedule::{Schedule, Slot};
use vstd::prelude::*;

verus! {

/// Charged to a constraint of high priority that is not on the grid.
pub const UNSCHEDULED_HIGH: u32 = 10;

/// Charged to a constraint of low priority that is not on the grid.
pub const UNSCHEDULED_LOW: u32 = 5;

/// Charged to a constraint of high priority at a slot that is not allowed.
pub const NOT_ALLOWED_HIGH: u32 = 30;

/// Charged to a constraint of low priority at a slot that is not allowed.
pub const NOT_ALLOWED_LOW: u32 = 20;

/// Charged to a constraint of high priority at a slot that is not preferred.
pub const NOT_PREFERRED_HIGH: u32 = 3;

/// Charged to a constraint of low priority at a slot that is not preferred.
pub const NOT_PREFERRED_LOW: u32 = 2;

/// What a constraint is charged for not being on the grid.
pub open spec fn validity_penalty(c: Constraint, t: Timetable) -> u32 {
    if t.is_scheduled(c.id) {
        0
    } else {
        match c.priority {
            ConstraintPriority::High => UNSCHEDULED_HIGH,
            ConstraintPriority::Low => UNSCHEDULED_LOW,
        }
    }
}

/// What a constraint on the grid is charged for starting at `start`, given
/// the slots that it may start at. Nothing is charged where there is no list.
pub open spec fn off_list_penalty(
    priority: ConstraintPriority,
    listed: Option<Vec<Slot>>,
    start: Slot,
    high: u32,
    low: u32,
) -> u32 {
    match listed {
        Some(slots) => if slots@.contains(start) {
            0
        } else {
            match priority {
                ConstraintPriority::High => high,
                ConstraintPriority::Low => low,
            }
        },
        None => 0,
    }
}

/// What a constraint is charged for starting outside its allowed slots. A
/// constraint that is not on the grid is charged nothing here: the validity
/// penalty already stands for it.
pub open spec fn allowed_slots_penalty(c: Constraint, t: Timetable) -> u32 {
    if t.is_scheduled(c.id) {
        off_list_penalty(
            c.priority,
            c.allowed_slots,
            t.placements[c.id].start,
            NOT_ALLOWED_HIGH,
            NOT_ALLOWED_LOW,
        )
    } else {
        0
    }
}

/// What a constraint is charged for starting outside its preferred slots. A
/// constraint that is not on the grid is charged nothing here.
pub open spec fn preferred_slots_penalty(c: Constraint, t: Timetable) -> u32 {
    if t.is_scheduled(c.id) {
        off_list_penalty(
            c.priority,
            c.preferred_slots,
            t.placements[c.id].start,
            NOT_PREFERRED_HIGH,
            NOT_PREFERRED_LOW,
        )
    } else {
        0
    }
}

/// What a constraint is charged for instances of its activity that lie too
/// close together: nothing, for now.
pub open spec fn gap_penalty(c: Constraint, t: Timetable) -> u32 {
    0
}

/// Whether `slot` is one of `slots`.
pub fn is_slot_listed(slots: &Vec<Slot>, slot: Slot) -> (listed: bool)
    ensures
        listed == slots@.contains(slot),
{
    let mut i: usize = 0;
    while i < slots.len()
        invariant
            i <= slots.len(),
            forall|j: int| 0 <= j < i ==> slots@[j] != slot,
        decreases slots.len() - i,
    {
        if slots[i] == slot {
            return true;
        }
        i += 1;
    }
    false
}

/// Scores a constraint for not being on the grid.
pub fn calculate_validity_based_penalty(constraint: &Constraint, schedule: &Schedule) -> (penalty:
    u32)
    ensures
        penalty == validity_penalty(*constraint, schedule@),
{
    if !schedule.is_constraint_scheduled(constraint.id) {
        match constraint.priority {
            ConstraintPriority::High => return UNSCHEDULED_HIGH,
            ConstraintPriority::Low => return UNSCHEDULED_LOW,
        }
    }
    0
}

/// Scores a constraint for starting outside its allowed slots. A constraint
/// that is on the grid must have a list of allowed slots; one that is off the
/// grid scores nothing here, with or without a list.
pub fn calculate_allowed_slots_based_penalty(constraint: &Constraint, schedule: &Schedule) -> (penalty:
    u32)
    requires
        constraint.allowed_slots is None ==> !schedule@.is_scheduled(constraint.id),
    ensures
        penalty == allowed_slots_penalty(*constraint, schedule@),
{
    let scheduled_slot = match schedule.scheduled_slot(constraint.id) {
        Some(slot) => slot,
        None => {
            return 0;
        },
    };
    let allowed_slots = match &constraint.allowed_slots {
        Some(slots) => slots,
        None => {
            return 0;
        },
    };
    if !is_slot_listed(allowed_slots, scheduled_slot) {
        match constraint.priority {
            ConstraintPriority::High => return NOT_ALLOWED_HIGH,
            ConstraintPriority::Low => return NOT_ALLOWED_LOW,
        }
    }
    0
}

/// Scores a constraint for starting outside its preferred slots. A
/// constraint that is on the grid must have a list of preferred slots; one
/// that is off the grid scores nothing here, with or without a list.
pub fn calculate_preferred_slots_based_penalty(
    constraint: &Constraint,
    schedule: &Schedule,
) -> (penalty: u32)
    requires
        constraint.preferred_slots is None ==> !schedule@.is_scheduled(constraint.id),
    ensures
        penalty == preferred_slots_penalty(*constraint, schedule@),
{
    let scheduled_slot = match schedule.scheduled_slot(constraint.id) {
        Some(slot) => slot,
        None => {
            return 0;
        },
    };
    let preferred_slots = match &constraint.preferred_slots {
        Some(slots) => slots,
        None => {
            return 0;
        },
    };
    if !is_slot_listed(preferred_slots, scheduled_slot) {
        match constraint.priority {
            ConstraintPriority::High => return NOT_PREFERRED_HIGH,
            ConstraintPriority::Low => return NOT_PREFERRED_LOW,
        }
    }
    0
}

/// Scores a constraint for the distance between instances of its activity.
pub fn calculate_gap_based_penalty(constraint: &Constraint, schedule: &Schedule) -> (penalty: u32)
    ensures
        penalty == gap_penalty(*constraint, schedule@),
{
    0
}

/// A constraint that stands at a slot outside its allowed slots is charged
/// more for that than it would be charged for not standing on the grid at
/// all, whatever its priority.
pub proof fn lemma_allowed_slots_dominate(c: Constraint, off_grid: Timetable, off_list: Timetable)
    requires
        !off_grid.is_scheduled(c.id),
        off_list.is_scheduled(c.id),
        c.allowed_slots matches Some(slots) && !slots@.contains(off_list.placements[c.id].start),
    ensures
        validity_penalty(c, off_grid) < allowed_slots_penalty(c, off_list),
{
}

} // verus!
