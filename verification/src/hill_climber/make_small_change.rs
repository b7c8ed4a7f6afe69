//! One step of the search: try to place a constraint that is off the grid,
//! or to move one that is on it, and undo the step where it did not help.

use crate::constraints::constraint_store::{swappable, ConstraintStore};
use crate::constraints::Constraint;
use crate::hill_climber::change_types::ChangeType;
use crate::schedule::timetable::{
    lemma_first_free_or_owned_listed, lemma_free_is_free_or_owned, lemma_free_range_on_grid,
    lemma_placement_owned, lemma_schedule_preserves_wf, lemma_schedule_then_unschedule,
    lemma_slot_search_first, lemma_slot_search_sound, lemma_unschedule_frees_range,
    lemma_unschedule_preserves_wf, lemma_unschedule_then_schedule, Timetable,
};
use crate::schedule::{slots_view, Schedule, Slot};
use vstd::prelude::*;

verus! {

/// Every constraint that is on the grid was placed with its own duration.
pub open spec fn coherent(constraints: Seq<Constraint>, t: Timetable) -> bool {
    forall|i: int|
        0 <= i < constraints.len() && t.is_scheduled((#[trigger] constraints[i]).id)
            ==> t.placements[constraints[i].id].duration == constraints[i].duration
}

/// Every constraint with the given id has the given duration.
pub open spec fn duration_of_id(constraints: Seq<Constraint>, id: u32, duration: u8) -> bool {
    forall|i: int|
        0 <= i < constraints.len() && (#[trigger] constraints[i]).id == id
            ==> constraints[i].duration == duration
}

/// Where a constraint that is on the grid would move to: the first of its
/// allowed slots whose range is free or its own, or without a list the first
/// free range of the grid.
pub open spec fn alternative_slot(
    t: Timetable,
    id: u32,
    duration: u8,
    allowed: Option<Seq<Slot>>,
) -> Option<Slot> {
    match allowed {
        Some(slots) => t.first_free_or_owned_listed_from(id, slots, duration, 0),
        None => t.first_free_slot(duration),
    }
}

/// The state after a constraint is taken from where it stands and put at
/// `target`.
pub open spec fn moved(t: Timetable, id: u32, duration: u8, target: Slot) -> Timetable {
    t.without_placement(id).with_placement(id, duration, target)
}

/// The state after `victim` is taken off the grid and the constraint `id` is
/// put where it started.
pub open spec fn substituted(t: Timetable, id: u32, duration: u8, victim: u32) -> Timetable {
    t.without_placement(victim).with_placement(id, duration, t.placements[victim].start)
}

/// What a step does with a constraint that is on the grid: it moves the
/// constraint to its alternative slot, or leaves the grid as it is where
/// there is none.
pub open spec fn relocated(
    before: Timetable,
    after: Timetable,
    change: Option<ChangeType>,
    id: u32,
    duration: u8,
    allowed: Option<Seq<Slot>>,
) -> bool {
    match alternative_slot(before, id, duration, allowed) {
        Some(target) => change == Some(ChangeType::Move(before.placements[id].start, target))
            && after == moved(before, id, duration, target),
        None => change is None && after == before,
    }
}

/// What a step does with a constraint that is off the grid: it puts the
/// constraint at the slot found for it; where none is found, it puts it in
/// place of one of the constraints that could give way; where there is none
/// of those either, it leaves the grid as it is.
pub open spec fn inserted(
    before: Timetable,
    after: Timetable,
    change: Option<ChangeType>,
    constraints: Seq<Constraint>,
    id: u32,
    duration: u8,
    allowed: Option<Seq<Slot>>,
) -> bool {
    match before.slot_for_constraint(duration, allowed) {
        Some(target) => change == Some(ChangeType::Scheduled(id)) && after
            == before.with_placement(id, duration, target),
        None => match change {
            Some(done) => exists|i: int|
                0 <= i < constraints.len() && swappable(
                    #[trigger] constraints[i],
                    id,
                    duration,
                    before,
                ) && done == ChangeType::Substituted(
                    id,
                    constraints[i].id,
                    before.placements[constraints[i].id].start,
                    constraints[i].duration,
                ) && after == substituted(before, id, duration, constraints[i].id),
            None => after == before && forall|i: int|
                0 <= i < constraints.len() ==> !swappable(
                    #[trigger] constraints[i],
                    id,
                    duration,
                    before,
                ),
        },
    }
}

/// What a step does with the chosen constraint.
pub open spec fn evolved(
    before: Timetable,
    after: Timetable,
    change: Option<ChangeType>,
    constraints: Seq<Constraint>,
    id: u32,
    duration: u8,
    allowed: Option<Seq<Slot>>,
) -> bool {
    if before.is_scheduled(id) {
        relocated(before, after, change, id, duration, allowed)
    } else {
        inserted(before, after, change, constraints, id, duration, allowed)
    }
}

/// The change can be undone on this grid, the step having worked on the
/// constraint `id` of the given duration.
pub open spec fn can_revert(t: Timetable, change: ChangeType, id: u32, duration: u8) -> bool {
    match change {
        ChangeType::Move(from, to) => {
            &&& t.is_scheduled(id)
            &&& t.placements[id].duration == duration
            &&& from.on_grid()
            &&& t.range_free_or_owned_by(id, from, duration)
        },
        ChangeType::Scheduled(placed) => {
            &&& t.is_scheduled(placed)
            &&& t.placements[placed].duration == duration
        },
        ChangeType::Substituted(placed, evicted, evicted_start, evicted_duration) => {
            &&& t.is_scheduled(placed)
            &&& t.placements[placed].duration == duration
            &&& !t.is_scheduled(evicted)
            &&& evicted_start.on_grid()
            &&& t.range_free_or_owned_by(placed, evicted_start, evicted_duration)
        },
    }
}

/// The state after the change is undone.
pub open spec fn reverted(t: Timetable, change: ChangeType, id: u32, duration: u8) -> Timetable {
    match change {
        ChangeType::Move(from, to) => moved(t, id, duration, from),
        ChangeType::Scheduled(placed) => t.without_placement(placed),
        ChangeType::Substituted(placed, evicted, evicted_start, evicted_duration) =>
            t.without_placement(placed).with_placement(evicted, evicted_duration, evicted_start),
    }
}

/// The slot that a constraint would move to is on the grid and is free
/// once the constraint is taken from where it stands.
pub proof fn lemma_alternative_slot(
    t: Timetable,
    id: u32,
    duration: u8,
    allowed: Option<Seq<Slot>>,
)
    requires
        t.wf(),
        duration >= 1,
    ensures
        alternative_slot(t, id, duration, allowed) matches Some(target) ==> target.on_grid()
            && t.range_free_or_owned_by(id, target, duration) && t.without_placement(
            id,
        ).range_free(target, duration),
{
    if let Some(target) = alternative_slot(t, id, duration, allowed) {
        match allowed {
            Some(slots) => {
                lemma_first_free_or_owned_listed(t, id, slots, duration, 0);
            },
            None => {
                lemma_slot_search_first(t, duration);
                lemma_free_is_free_or_owned(t, id, target, duration);
            },
        }
        lemma_free_range_on_grid(t, id, target, duration);
        lemma_unschedule_frees_range(t, id, target, duration);
    }
}

/// A step leaves a grid that satisfies the occupancy invariants, and on
/// which every constraint of the store that is placed was placed with its
/// own duration, provided that all constraints with the id of the chosen
/// one are as long as it.
pub proof fn lemma_step_keeps_invariants(
    before: Timetable,
    after: Timetable,
    change: Option<ChangeType>,
    constraints: Seq<Constraint>,
    id: u32,
    duration: u8,
    allowed: Option<Seq<Slot>>,
)
    requires
        before.wf(),
        duration >= 1,
        coherent(constraints, before),
        duration_of_id(constraints, id, duration),
        before.is_scheduled(id) ==> before.placements[id].duration == duration,
        evolved(before, after, change, constraints, id, duration, allowed),
    ensures
        after.wf(),
        coherent(constraints, after),
        after.is_scheduled(id) ==> after.placements[id].duration == duration,
{
    if before.is_scheduled(id) {
        lemma_alternative_slot(before, id, duration, allowed);
        if let Some(target) = alternative_slot(before, id, duration, allowed) {
            lemma_unschedule_preserves_wf(before, id);
            lemma_schedule_preserves_wf(before.without_placement(id), id, duration, target);
        }
    } else {
        match before.slot_for_constraint(duration, allowed) {
            Some(target) => {
                lemma_slot_search_sound(before, duration, allowed);
                lemma_free_is_free_or_owned(before, id, target, duration);
                lemma_free_range_on_grid(before, id, target, duration);
                lemma_schedule_preserves_wf(before, id, duration, target);
            },
            None => {
                if change is Some {
                    let i = choose|i: int|
                        0 <= i < constraints.len() && swappable(
                            #[trigger] constraints[i],
                            id,
                            duration,
                            before,
                        ) && after == substituted(before, id, duration, constraints[i].id);
                    let victim = constraints[i].id;
                    let start = before.placements[victim].start;
                    lemma_placement_owned(before, victim, duration);
                    lemma_unschedule_frees_range(before, victim, start, duration);
                    lemma_unschedule_preserves_wf(before, victim);
                    lemma_schedule_preserves_wf(
                        before.without_placement(victim),
                        id,
                        duration,
                        start,
                    );
                }
            },
        }
    }
}

/// Undoing the change that a step made gives back the grid from before the
/// step.
pub proof fn lemma_revert_undoes_step(
    before: Timetable,
    after: Timetable,
    change: ChangeType,
    constraints: Seq<Constraint>,
    id: u32,
    duration: u8,
    allowed: Option<Seq<Slot>>,
)
    requires
        before.wf(),
        duration >= 1,
        coherent(constraints, before),
        before.is_scheduled(id) ==> before.placements[id].duration == duration,
        evolved(before, after, Some(change), constraints, id, duration, allowed),
    ensures
        can_revert(after, change, id, duration),
        reverted(after, change, id, duration) == before,
{
    if before.is_scheduled(id) {
        lemma_alternative_slot(before, id, duration, allowed);
        let target = alternative_slot(before, id, duration, allowed).unwrap();
        let from = before.placements[id].start;
        let lifted = before.without_placement(id);
        lemma_unschedule_preserves_wf(before, id);
        lemma_schedule_then_unschedule(lifted, id, duration, target);
        lemma_unschedule_then_schedule(before, id);
        assert(before.placements[id].in_range());
        assert forall|w: int|
            from.window <= w < from.window + duration implies #[trigger] after.cell_free_or_owned_by(
            id,
            from.day as int,
            w,
        ) by {
            assert(before.placements[id].covers(from.day as int, w));
        }
    } else {
        match before.slot_for_constraint(duration, allowed) {
            Some(target) => {
                lemma_slot_search_sound(before, duration, allowed);
                lemma_free_is_free_or_owned(before, id, target, duration);
                lemma_free_range_on_grid(before, id, target, duration);
                lemma_schedule_then_unschedule(before, id, duration, target);
            },
            None => {
                let i = choose|i: int|
                    0 <= i < constraints.len() && swappable(
                        #[trigger] constraints[i],
                        id,
                        duration,
                        before,
                    ) && change == ChangeType::Substituted(
                        id,
                        constraints[i].id,
                        before.placements[constraints[i].id].start,
                        constraints[i].duration,
                    ) && after == substituted(before, id, duration, constraints[i].id);
                let victim = constraints[i].id;
                let placed = before.placements[victim];
                let lifted = before.without_placement(victim);
                lemma_placement_owned(before, victim, duration);
                lemma_unschedule_frees_range(before, victim, placed.start, duration);
                lemma_unschedule_preserves_wf(before, victim);
                lemma_schedule_then_unschedule(lifted, id, duration, placed.start);
                lemma_unschedule_then_schedule(before, victim);
                assert(placed.in_range());
                assert forall|w: int|
                    placed.start.window <= w < placed.start.window
                        + placed.duration implies #[trigger] after.cell_free_or_owned_by(
                    id,
                    placed.start.day as int,
                    w,
                ) by {
                    assert(placed.covers(placed.start.day as int, w));
                }
            },
        }
    }
}

/// Finds the slot that a constraint on the grid would move to.
pub fn find_alternative_slot(
    constraint_id: u32,
    constraint_duration: u8,
    allowed_slots: &Option<Vec<Slot>>,
    schedule: &Schedule,
) -> (found: Option<Slot>)
    ensures
        found == alternative_slot(
            schedule@,
            constraint_id,
            constraint_duration,
            slots_view(*allowed_slots),
        ),
        found matches Some(s) ==> schedule@.range_free_or_owned_by(
            constraint_id,
            s,
            constraint_duration,
        ),
{
    match allowed_slots {
        Some(slots) => {
            let mut i: usize = 0;
            while i < slots.len()
                invariant
                    i <= slots.len(),
                    *allowed_slots == Some(*slots),
                    schedule@.first_free_or_owned_listed_from(
                        constraint_id,
                        slots@,
                        constraint_duration,
                        0,
                    ) == schedule@.first_free_or_owned_listed_from(
                        constraint_id,
                        slots@,
                        constraint_duration,
                        i as int,
                    ),
                decreases slots.len() - i,
            {
                if schedule.is_duration_free_or_owned_by(
                    &constraint_id,
                    constraint_duration,
                    &slots[i],
                ) {
                    return Some(slots[i]);
                }
                i += 1;
            }
            None
        },
        None => {
            let found = schedule.find_free_slot(constraint_duration);
            proof {
                if let Some(s) = found {
                    lemma_free_is_free_or_owned(schedule@, constraint_id, s, constraint_duration);
                }
            }
            found
        },
    }
}

/// Works on a constraint that is on the grid: moves it to its alternative
/// slot, if it has one.
pub fn handle_scheduled_constraint(
    constraint_id: u32,
    constraint_duration: u8,
    allowed_slots: &Option<Vec<Slot>>,
    schedule: &mut Schedule,
) -> (change: Option<ChangeType>)
    requires
        old(schedule).wf(),
        constraint_duration >= 1,
        old(schedule)@.is_scheduled(constraint_id),
        old(schedule)@.placements[constraint_id].duration == constraint_duration,
    ensures
        final(schedule).wf(),
        relocated(
            old(schedule)@,
            final(schedule)@,
            change,
            constraint_id,
            constraint_duration,
            slots_view(*allowed_slots),
        ),
{
    let alternative_slot = find_alternative_slot(
        constraint_id,
        constraint_duration,
        allowed_slots,
        schedule,
    );
    match alternative_slot {
        Some(slot) => {
            proof {
                lemma_free_range_on_grid(schedule@, constraint_id, slot, constraint_duration);
                lemma_unschedule_frees_range(schedule@, constraint_id, slot, constraint_duration);
            }
            match schedule.unschedule_constraint(constraint_id, constraint_duration) {
                Ok(previous_slot) => {
                    schedule.schedule_constraint(constraint_id, constraint_duration, &slot);
                    Some(ChangeType::Move(previous_slot, slot))
                },
                Err(_) => None,
            }
        },
        None => None,
    }
}

/// Takes `victim_id` off the grid and puts the constraint `constraint_id`,
/// which is no longer than the victim, where the victim started.
pub fn substitute_constraint(
    constraint_id: u32,
    constraint_duration: u8,
    victim_id: u32,
    victim_duration: u8,
    schedule: &mut Schedule,
) -> (change: ChangeType)
    requires
        old(schedule).wf(),
        !old(schedule)@.is_scheduled(constraint_id),
        old(schedule)@.is_scheduled(victim_id),
        old(schedule)@.placements[victim_id].duration == victim_duration,
        constraint_duration <= victim_duration,
    ensures
        final(schedule).wf(),
        final(schedule)@ == substituted(
            old(schedule)@,
            constraint_id,
            constraint_duration,
            victim_id,
        ),
        change == ChangeType::Substituted(
            constraint_id,
            victim_id,
            old(schedule)@.placements[victim_id].start,
            victim_duration,
        ),
{
    proof {
        lemma_placement_owned(schedule@, victim_id, constraint_duration);
        lemma_unschedule_frees_range(
            schedule@,
            victim_id,
            schedule@.placements[victim_id].start,
            constraint_duration,
        );
    }
    let start = schedule.scheduled_slot(victim_id);
    let freed = schedule.unschedule_constraint(victim_id, victim_duration);
    let freed_slot = match freed {
        Ok(slot) => slot,
        Err(_) => match start {
            Some(slot) => slot,
            None => Slot { day: 0, window: 0 },
        },
    };
    schedule.schedule_constraint(constraint_id, constraint_duration, &freed_slot);
    ChangeType::Substituted(constraint_id, victim_id, freed_slot, victim_duration)
}

/// Works on a constraint that is off the grid: puts it at the slot found
/// for it, or in place of a constraint that can give way.
pub fn handle_unscheduled_constraint(
    constraint_id: u32,
    constraint_duration: u8,
    allowed_slots_for_constraint: &Option<Vec<Slot>>,
    schedule: &mut Schedule,
    constraint_store: &mut ConstraintStore,
) -> (change: Option<ChangeType>)
    requires
        old(schedule).wf(),
        constraint_duration >= 1,
        !old(schedule)@.is_scheduled(constraint_id),
        coherent(old(constraint_store)@, old(schedule)@),
    ensures
        final(schedule).wf(),
        final(constraint_store)@ == old(constraint_store)@,
        inserted(
            old(schedule)@,
            final(schedule)@,
            change,
            old(constraint_store)@,
            constraint_id,
            constraint_duration,
            slots_view(*allowed_slots_for_constraint),
        ),
{
    if let Some(slot) = schedule.get_slot_for_constraint(
        constraint_duration,
        allowed_slots_for_constraint,
    ) {
        proof {
            lemma_free_is_free_or_owned(schedule@, constraint_id, slot, constraint_duration);
            lemma_free_range_on_grid(schedule@, constraint_id, slot, constraint_duration);
        }
        schedule.schedule_constraint(constraint_id, constraint_duration, &slot);
        return Some(ChangeType::Scheduled(constraint_id));
    }
    let victim = match constraint_store.find_swappable_scheduled_constraint(
        constraint_id,
        constraint_duration,
        schedule,
    ) {
        Some(swappable_constraint) => Some((swappable_constraint.id, swappable_constraint.duration)),
        None => None,
    };
    match victim {
        Some((victim_id, victim_duration)) => {
            Some(
                substitute_constraint(
                    constraint_id,
                    constraint_duration,
                    victim_id,
                    victim_duration,
                    schedule,
                ),
            )
        },
        None => None,
    }
}

/// Runs one step of the search on the chosen constraint: moves it if it is
/// on the grid, puts it on the grid if it is not.
pub fn evolve_schedule(
    constraints: &mut ConstraintStore,
    schedule: &mut Schedule,
    constraint_id: u32,
    constraint_duration: u8,
    allowed_slots: &Option<Vec<Slot>>,
) -> (change: Option<ChangeType>)
    requires
        old(schedule).wf(),
        constraint_duration >= 1,
        coherent(old(constraints)@, old(schedule)@),
        old(schedule)@.is_scheduled(constraint_id) ==> old(schedule)@.placements[constraint_id].duration
            == constraint_duration,
    ensures
        final(schedule).wf(),
        final(constraints)@ == old(constraints)@,
        evolved(
            old(schedule)@,
            final(schedule)@,
            change,
            old(constraints)@,
            constraint_id,
            constraint_duration,
            slots_view(*allowed_slots),
        ),
{
    if schedule.is_constraint_scheduled(constraint_id) {
        handle_scheduled_constraint(constraint_id, constraint_duration, allowed_slots, schedule)
    } else {
        handle_unscheduled_constraint(
            constraint_id,
            constraint_duration,
            allowed_slots,
            schedule,
            constraints,
        )
    }
}

/// Undoes a change that a step made on the constraint `constraint_id`.
pub fn revert_change(
    schedule: &mut Schedule,
    change: &ChangeType,
    constraint_id: u32,
    constraint_duration: u8,
)
    requires
        old(schedule).wf(),
        can_revert(old(schedule)@, *change, constraint_id, constraint_duration),
    ensures
        final(schedule).wf(),
        final(schedule)@ == reverted(old(schedule)@, *change, constraint_id, constraint_duration),
{
    match change {
        ChangeType::Move(from, _to) => {
            proof {
                lemma_unschedule_frees_range(schedule@, constraint_id, *from, constraint_duration);
            }
            let _ = schedule.unschedule_constraint(constraint_id, constraint_duration);
            schedule.schedule_constraint(constraint_id, constraint_duration, from);
        },
        ChangeType::Scheduled(placed) => {
            let _ = schedule.unschedule_constraint(*placed, constraint_duration);
        },
        ChangeType::Substituted(placed, evicted, evicted_start, evicted_duration) => {
            proof {
                lemma_unschedule_frees_range(schedule@, *placed, *evicted_start, *evicted_duration);
            }
            let _ = schedule.unschedule_constraint(*placed, constraint_duration);
            schedule.schedule_constraint(*evicted, *evicted_duration, evicted_start);
        },
    }
}

} // verus!
