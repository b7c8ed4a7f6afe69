//! The search: seed a schedule, then improve it step by step, keeping the
//! best schedule seen.

pub mod change_types;
pub mod make_small_change;

use crate::constraints::constraint_store::{
    covers_ids, placeable, scorable, well_formed, ConstraintStore,
};
use crate::constraints::{Constraint, MAX_PENALTY};
use crate::hill_climber::change_types::ChangeType;
use crate::hill_climber::make_small_change::{
    coherent, duration_of_id, evolve_schedule, evolved, lemma_revert_undoes_step,
    lemma_step_keeps_invariants, revert_change,
};
use crate::schedule::timetable::{
    lemma_free_is_free_or_owned, lemma_free_range_on_grid, lemma_schedule_preserves_wf,
    lemma_slot_search_sound, Timetable,
};
use crate::schedule::{copy_listed_slots, slots_view, Schedule};
use std::collections::HashMap;
use vstd::prelude::*;

verus! {

broadcast use vstd::std_specs::hash::group_hash_axioms;

/// The sum of the penalties of the constraints against a grid.
pub open spec fn total_penalty(constraints: Seq<Constraint>, t: Timetable) -> int
    decreases constraints.len(),
{
    if constraints.len() == 0 {
        0
    } else {
        total_penalty(constraints.drop_last(), t) + constraints.last().penalty(t)
    }
}

/// The penalty of each constraint against a grid, by the id of the
/// constraint. Where constraints share an id, the entry is the penalty of the
/// last of them.
pub open spec fn penalties_by_id(constraints: Seq<Constraint>, t: Timetable) -> Map<u32, u32>
    decreases constraints.len(),
{
    if constraints.len() == 0 {
        Map::empty()
    } else {
        penalties_by_id(constraints.drop_last(), t).insert(
            constraints.last().id,
            constraints.last().penalty(t) as u32,
        )
    }
}

/// The grid after the seeding has dealt with one constraint: the constraint
/// is put at the slot found for it, unless none is found or a constraint with
/// its id is on the grid already.
pub open spec fn seeded_with(t: Timetable, c: Constraint) -> Timetable {
    if t.is_scheduled(c.id) {
        t
    } else {
        match t.slot_for_constraint(c.duration, slots_view(c.allowed_slots)) {
            Some(start) => t.with_placement(c.id, c.duration, start),
            None => t,
        }
    }
}

/// The grid after the seeding has dealt with the constraints in order.
pub open spec fn seeded(constraints: Seq<Constraint>, t: Timetable) -> Timetable
    decreases constraints.len(),
{
    if constraints.len() == 0 {
        t
    } else {
        seeded_with(seeded(constraints.drop_last(), t), constraints.last())
    }
}

/// One step of the search on the constraint at index `picked`: the step is
/// kept where it does not raise the sum of the penalties and undone where it
/// does, and a grid that is kept becomes the best seen where its sum is no
/// higher than that of the best seen so far.
pub open spec fn improved(
    constraints: Seq<Constraint>,
    picked: int,
    before: Timetable,
    after: Timetable,
    best_before: Timetable,
    best_after: Timetable,
) -> bool {
    let c = constraints[picked];
    exists|tried: Timetable, change: Option<ChangeType>|
        {
            &&& #[trigger] evolved(
                before,
                tried,
                change,
                constraints,
                c.id,
                c.duration,
                slots_view(c.allowed_slots),
            )
            &&& after == (if total_penalty(constraints, tried) <= total_penalty(
                constraints,
                before,
            ) {
                tried
            } else {
                before
            })
            &&& best_after == (if total_penalty(constraints, tried) <= total_penalty(
                constraints,
                before,
            ) && total_penalty(constraints, tried) <= total_penalty(constraints, best_before) {
                tried
            } else {
                best_before
            })
        }
}

/// Every constraint has a penalty of zero by its id: the search has nothing
/// left to pick.
pub open spec fn settled(constraints: Seq<Constraint>, t: Timetable) -> bool {
    forall|i: int|
        0 <= i < constraints.len() ==> penalties_by_id(constraints, t)[(
        #[trigger] constraints[i]).id] == 0
}

/// One step of the search, on some constraint whose penalty by its id is not
/// zero.
pub open spec fn stepped(
    constraints: Seq<Constraint>,
    before: Timetable,
    after: Timetable,
    best_before: Timetable,
    best_after: Timetable,
) -> bool {
    exists|i: int|
        0 <= i < constraints.len() && penalties_by_id(constraints, before)[constraints[i].id] > 0
            && #[trigger] improved(constraints, i, before, after, best_before, best_after)
}

/// So many steps of the search, one after the other, lead from the grid
/// `from` with the best seen `best_from` to the grid `to` with the best seen
/// `best_to`.
pub open spec fn ran(
    constraints: Seq<Constraint>,
    from: Timetable,
    best_from: Timetable,
    to: Timetable,
    best_to: Timetable,
    steps: nat,
) -> bool
    decreases steps,
{
    if steps == 0 {
        to == from && best_to == best_from
    } else {
        exists|mid: Timetable, best_mid: Timetable|
            ran(constraints, from, best_from, mid, best_mid, (steps - 1) as nat)
                && #[trigger] stepped(constraints, mid, to, best_mid, best_to)
    }
}

/// A search of up to `iterations` steps, which starts with `from` as the
/// grid and as the best seen, ends with the grid `to` and the best seen
/// `best`. It makes fewer steps only where it reaches a grid on which every
/// penalty is zero.
pub open spec fn climbed(
    constraints: Seq<Constraint>,
    from: Timetable,
    to: Timetable,
    best: Timetable,
    iterations: nat,
) -> bool {
    exists|steps: nat|
        steps <= iterations && #[trigger] ran(constraints, from, from, to, best, steps) && (steps
            < iterations ==> settled(constraints, to))
}

/// Over any number of steps of the search, the sum of the penalties of the
/// best grid seen never rises.
pub proof fn lemma_best_never_rises(
    constraints: Seq<Constraint>,
    from: Timetable,
    best_from: Timetable,
    to: Timetable,
    best_to: Timetable,
    steps: nat,
)
    requires
        ran(constraints, from, best_from, to, best_to, steps),
    ensures
        total_penalty(constraints, best_to) <= total_penalty(constraints, best_from),
    decreases steps,
{
    if steps > 0 {
        let (mid, best_mid) = choose|mid: Timetable, best_mid: Timetable|
            ran(constraints, from, best_from, mid, best_mid, (steps - 1) as nat)
                && #[trigger] stepped(constraints, mid, to, best_mid, best_to);
        lemma_best_never_rises(constraints, from, best_from, mid, best_mid, (steps - 1) as nat);
        let i = choose|i: int|
            0 <= i < constraints.len() && penalties_by_id(constraints, mid)[constraints[i].id] > 0
                && #[trigger] improved(constraints, i, mid, to, best_mid, best_to);
        assert(improved(constraints, i, mid, to, best_mid, best_to));
    }
}

/// A search that starts on a grid on which every penalty is zero makes no
/// step: the grid and the best seen stay as they are.
pub proof fn lemma_settled_search_stands(
    constraints: Seq<Constraint>,
    from: Timetable,
    best_from: Timetable,
    to: Timetable,
    best_to: Timetable,
    steps: nat,
)
    requires
        settled(constraints, from),
        ran(constraints, from, best_from, to, best_to, steps),
    ensures
        steps == 0,
        to == from,
        best_to == best_from,
    decreases steps,
{
    if steps > 0 {
        let (mid, best_mid) = choose|mid: Timetable, best_mid: Timetable|
            ran(constraints, from, best_from, mid, best_mid, (steps - 1) as nat)
                && #[trigger] stepped(constraints, mid, to, best_mid, best_to);
        lemma_settled_search_stands(
            constraints,
            from,
            best_from,
            mid,
            best_mid,
            (steps - 1) as nat,
        );
    }
}

/// On a grid against which the penalties sum up to zero, every penalty is
/// zero, so that the search has nothing left to pick.
pub proof fn lemma_no_penalty_is_settled(constraints: Seq<Constraint>, t: Timetable)
    requires
        total_penalty(constraints, t) == 0,
    ensures
        settled(constraints, t),
    decreases constraints.len(),
{
    if constraints.len() > 0 {
        let front = constraints.drop_last();
        lemma_total_penalty_bounds(front, t);
        lemma_no_penalty_is_settled(front, t);
        assert forall|i: int| 0 <= i < constraints.len() implies penalties_by_id(constraints, t)[(
        #[trigger] constraints[i]).id] == 0 by {
            if i < front.len() {
                assert(front[i] == constraints[i]);
            }
        }
    }
}

/// The sum of the penalties is at least zero and at most what every
/// constraint can score at most.
pub proof fn lemma_total_penalty_bounds(constraints: Seq<Constraint>, t: Timetable)
    ensures
        0 <= total_penalty(constraints, t) <= constraints.len() * MAX_PENALTY,
    decreases constraints.len(),
{
    if constraints.len() > 0 {
        lemma_total_penalty_bounds(constraints.drop_last(), t);
        assert(constraints.len() * MAX_PENALTY == constraints.drop_last().len() * MAX_PENALTY
            + MAX_PENALTY) by (nonlinear_arith)
            requires
                constraints.len() == constraints.drop_last().len() + 1,
        ;
    }
}

/// The penalties by id have an entry for every constraint.
pub proof fn lemma_penalties_cover_ids(constraints: Seq<Constraint>, t: Timetable)
    ensures
        covers_ids(penalties_by_id(constraints, t), constraints),
    decreases constraints.len(),
{
    if constraints.len() > 0 {
        let front = constraints.drop_last();
        lemma_penalties_cover_ids(front, t);
        assert forall|i: int| 0 <= i < constraints.len() implies penalties_by_id(
            constraints,
            t,
        ).contains_key((#[trigger] constraints[i]).id) by {
            if i < front.len() {
                assert(front[i] == constraints[i]);
            }
        }
    }
}

/// The seeding leaves a grid that satisfies the occupancy invariants, on
/// which every constraint of the store that is placed was placed with its
/// own duration.
pub proof fn lemma_seeding_keeps_invariants(
    all: Seq<Constraint>,
    constraints: Seq<Constraint>,
    t: Timetable,
)
    requires
        t.wf(),
        placeable(all),
        coherent(all, t),
        forall|i: int| 0 <= i < constraints.len() ==> all.contains(#[trigger] constraints[i]),
    ensures
        seeded(constraints, t).wf(),
        coherent(all, seeded(constraints, t)),
    decreases constraints.len(),
{
    if constraints.len() > 0 {
        let front = constraints.drop_last();
        let c = constraints.last();
        assert forall|i: int| 0 <= i < front.len() implies all.contains(#[trigger] front[i]) by {
            assert(front[i] == constraints[i]);
        }
        lemma_seeding_keeps_invariants(all, front, t);
        lemma_seeding_one_keeps_invariants(all, seeded(front, t), c);
    }
}

/// The seeding of one constraint of the store keeps the invariants of the
/// grid and of the store.
pub proof fn lemma_seeding_one_keeps_invariants(all: Seq<Constraint>, t: Timetable, c: Constraint)
    requires
        t.wf(),
        placeable(all),
        coherent(all, t),
        all.contains(c),
    ensures
        seeded_with(t, c).wf(),
        coherent(all, seeded_with(t, c)),
{
    let k = choose|k: int| 0 <= k < all.len() && all[k] == c;
    if !t.is_scheduled(c.id) {
        let allowed = slots_view(c.allowed_slots);
        if let Some(start) = t.slot_for_constraint(c.duration, allowed) {
            lemma_slot_search_sound(t, c.duration, allowed);
            lemma_free_is_free_or_owned(t, c.id, start, c.duration);
            lemma_free_range_on_grid(t, c.id, start, c.duration);
            lemma_schedule_preserves_wf(t, c.id, c.duration, start);
            let after = t.with_placement(c.id, c.duration, start);
            assert forall|i: int|
                0 <= i < all.len() && after.is_scheduled(
                    (#[trigger] all[i]).id,
                ) implies after.placements[all[i].id].duration == all[i].duration by {
                if all[i].id == c.id {
                    assert(all[i].duration == all[k].duration);
                }
            }
        }
    }
}

/// Puts every constraint for which a slot is found, in the order of the
/// store, on the grid. A constraint for which none is found stays off the
/// grid, and so does one whose id is on the grid already.
pub fn generate_initial_state(constraints: &ConstraintStore, schedule: &mut Schedule)
    requires
        old(schedule).wf(),
        placeable(constraints@),
        coherent(constraints@, old(schedule)@),
    ensures
        final(schedule).wf(),
        coherent(constraints@, final(schedule)@),
        final(schedule)@ == seeded(constraints@, old(schedule)@),
{
    let all = constraints.constraints();
    let mut i: usize = 0;
    while i < all.len()
        invariant
            i <= all.len(),
            all@ == constraints@,
            placeable(all@),
            schedule.wf(),
            coherent(all@, schedule@),
            schedule@ == seeded(all@.take(i as int), old(schedule)@),
        decreases all.len() - i,
    {
        let constraint = &all[i];
        proof {
            assert(all@.take(i + 1).drop_last() =~= all@.take(i as int));
            assert(all@.take(i + 1).last() == all@[i as int]);
            assert(all@.contains(all@[i as int]));
            lemma_seeding_one_keeps_invariants(all@, schedule@, *constraint);
        }
        if !schedule.is_constraint_scheduled(constraint.id) {
            match schedule.get_slot_for_constraint(constraint.duration, &constraint.allowed_slots) {
                Some(slot) => {
                    proof {
                        lemma_free_is_free_or_owned(
                            schedule@,
                            constraint.id,
                            slot,
                            constraint.duration,
                        );
                        lemma_free_range_on_grid(
                            schedule@,
                            constraint.id,
                            slot,
                            constraint.duration,
                        );
                    }
                    schedule.schedule_constraint(constraint.id, constraint.duration, &slot);
                },
                None => {},
            }
        }
        i += 1;
    }
    proof {
        assert(all@.take(all@.len() as int) =~= all@);
    }
}

/// The sum of the penalties of the constraints against the schedule.
pub fn calculate_penalty(constraints: &ConstraintStore, schedule: &Schedule) -> (total: u32)
    requires
        scorable(constraints@),
    ensures
        total == total_penalty(constraints@, schedule@),
{
    let all = constraints.constraints();
    let mut total_penalty: u32 = 0;
    let mut i: usize = 0;
    while i < all.len()
        invariant
            i <= all.len(),
            all@ == constraints@,
            scorable(all@),
            total_penalty == self::total_penalty(all@.take(i as int), schedule@),
        decreases all.len() - i,
    {
        proof {
            assert(all@.take(i + 1).drop_last() =~= all@.take(i as int));
            assert(all@.take(i + 1).last() == all@[i as int]);
            lemma_total_penalty_bounds(all@.take(i + 1), schedule@);
            assert((i + 1) * MAX_PENALTY <= all@.len() * MAX_PENALTY) by (nonlinear_arith)
                requires
                    i + 1 <= all@.len(),
            ;
        }
        total_penalty += all[i].calculate_penalty(schedule);
        i += 1;
    }
    proof {
        assert(all@.take(all@.len() as int) =~= all@);
    }
    total_penalty
}

/// The penalty of each constraint against the schedule, by the id of the
/// constraint.
pub fn calculate_penalties(constraints: &ConstraintStore, schedule: &Schedule) -> (penalties:
    HashMap<u32, u32>)
    requires
        scorable(constraints@),
    ensures
        penalties@ == penalties_by_id(constraints@, schedule@),
        covers_ids(penalties@, constraints@),
{
    let all = constraints.constraints();
    let mut penalties: HashMap<u32, u32> = HashMap::new();
    let mut i: usize = 0;
    while i < all.len()
        invariant
            i <= all.len(),
            all@ == constraints@,
            scorable(all@),
            penalties@ == penalties_by_id(all@.take(i as int), schedule@),
        decreases all.len() - i,
    {
        proof {
            assert(all@.take(i + 1).drop_last() =~= all@.take(i as int));
            assert(all@.take(i + 1).last() == all@[i as int]);
        }
        penalties.insert(all[i].id, all[i].calculate_penalty(schedule));
        i += 1;
    }
    proof {
        assert(all@.take(all@.len() as int) =~= all@);
        lemma_penalties_cover_ids(constraints@, schedule@);
    }
    penalties
}

/// Runs one step of the search. A constraint is picked with a chance in
/// proportion to its penalty and worked on; the step is kept if the sum of
/// the penalties did not rise and undone if it did; and a grid that is kept
/// replaces the best seen if its sum is no higher. Returns whether a
/// constraint was picked: none is where every penalty is zero.
pub fn make_small_change(
    constraints: &mut ConstraintStore,
    schedule: &mut Schedule,
    best_schedule: &mut Schedule,
    best_penalty: &mut u32,
) -> (picked: bool)
    requires
        well_formed(old(constraints)@),
        old(schedule).wf(),
        coherent(old(constraints)@, old(schedule)@),
        old(best_schedule).wf(),
        coherent(old(constraints)@, old(best_schedule)@),
        *old(best_penalty) == total_penalty(old(constraints)@, old(best_schedule)@),
    ensures
        final(constraints)@ == old(constraints)@,
        final(schedule).wf(),
        coherent(old(constraints)@, final(schedule)@),
        final(best_schedule).wf(),
        coherent(old(constraints)@, final(best_schedule)@),
        *final(best_penalty) == total_penalty(old(constraints)@, final(best_schedule)@),
        *final(best_penalty) <= *old(best_penalty),
        total_penalty(old(constraints)@, final(schedule)@) <= total_penalty(
            old(constraints)@,
            old(schedule)@,
        ),
        !picked <==> settled(old(constraints)@, old(schedule)@),
        !picked ==> final(schedule)@ == old(schedule)@ && final(best_schedule)@ == old(
            best_schedule,
        )@,
        picked ==> stepped(
            old(constraints)@,
            old(schedule)@,
            final(schedule)@,
            old(best_schedule)@,
            final(best_schedule)@,
        ),
{
    let ghost all = constraints@;
    let ghost before = schedule@;
    let ghost best_before = best_schedule@;
    let penalties = calculate_penalties(constraints, schedule);
    let penalty = calculate_penalty(constraints, schedule);
    let ghost mut index: int = 0;
    let (constraint_id, constraint_duration, allowed_slots) =
        match constraints.get_constraint_for_optimisation(&penalties) {
        Some(constraint) => {
            proof {
                index = choose|i: int|
                    0 <= i < all.len() && #[trigger] all[i] == *constraint
                        && penalties@[constraint.id] > 0;
            }
            (constraint.id, constraint.duration, copy_listed_slots(&constraint.allowed_slots))
        },
        None => {
            return false;
        },
    };
    assert(all[index].id == constraint_id);
    assert(duration_of_id(all, constraint_id, constraint_duration));
    let change = evolve_schedule(
        constraints,
        schedule,
        constraint_id,
        constraint_duration,
        &allowed_slots,
    );
    let ghost tried = schedule@;
    proof {
        lemma_step_keeps_invariants(
            before,
            tried,
            change,
            all,
            constraint_id,
            constraint_duration,
            slots_view(allowed_slots),
        );
    }
    let new_penalty = calculate_penalty(constraints, schedule);
    if new_penalty <= penalty {
        if new_penalty <= *best_penalty {
            *best_schedule = schedule.snapshot();
            *best_penalty = new_penalty;
        }
    } else {
        match change {
            Some(done) => {
                proof {
                    lemma_revert_undoes_step(
                        before,
                        tried,
                        done,
                        all,
                        constraint_id,
                        constraint_duration,
                        slots_view(allowed_slots),
                    );
                }
                revert_change(schedule, &done, constraint_id, constraint_duration);
            },
            None => {},
        }
    }
    proof {
        assert(evolved(
            before,
            tried,
            change,
            all,
            all[index].id,
            all[index].duration,
            slots_view(all[index].allowed_slots),
        ));
        assert(improved(all, index, before, schedule@, best_before, best_schedule@));
    }
    true
}

/// Improves the schedule by up to `iterations` steps and returns the best
/// schedule seen. The search ends early once every penalty is zero.
pub fn climb(constraints: &mut ConstraintStore, schedule: &mut Schedule, iterations: u32) -> (best:
    Schedule)
    requires
        well_formed(old(constraints)@),
        old(schedule).wf(),
        coherent(old(constraints)@, old(schedule)@),
    ensures
        final(constraints)@ == old(constraints)@,
        final(schedule).wf(),
        coherent(old(constraints)@, final(schedule)@),
        best.wf(),
        coherent(old(constraints)@, best@),
        climbed(
            old(constraints)@,
            old(schedule)@,
            final(schedule)@,
            best@,
            iterations as nat,
        ),
        total_penalty(old(constraints)@, best@) <= total_penalty(
            old(constraints)@,
            old(schedule)@,
        ),
{
    let ghost all = constraints@;
    let ghost start = schedule@;
    let mut best_schedule = schedule.snapshot();
    let mut best_penalty: u32 = calculate_penalty(constraints, schedule);
    let mut done: bool = false;
    let mut i: u32 = 0;
    while i < iterations && !done
        invariant
            i <= iterations,
            constraints@ == all,
            well_formed(all),
            schedule.wf(),
            coherent(all, schedule@),
            best_schedule.wf(),
            coherent(all, best_schedule@),
            best_penalty == total_penalty(all, best_schedule@),
            ran(all, start, start, schedule@, best_schedule@, i as nat),
            done ==> i < iterations && settled(all, schedule@),
        decreases iterations - i, if done { 0int } else { 1int },
    {
        let ghost current_before = schedule@;
        let ghost best_before = best_schedule@;
        let picked = make_small_change(
            constraints,
            schedule,
            &mut best_schedule,
            &mut best_penalty,
        );
        if picked {
            proof {
                assert(ran(all, start, start, current_before, best_before, ((i + 1) - 1) as nat));
                assert(stepped(all, current_before, schedule@, best_before, best_schedule@));
            }
            i += 1;
        } else {
            done = true;
        }
    }
    proof {
        lemma_best_never_rises(all, start, start, schedule@, best_schedule@, i as nat);
    }
    best_schedule
}

/// Seeds an empty schedule with the constraints, improves it by up to
/// `iterations` steps, and returns the best schedule seen.
pub fn run_hill_climber(constraints: &mut ConstraintStore, iterations: u32) -> (best: Schedule)
    requires
        well_formed(old(constraints)@),
    ensures
        final(constraints)@ == old(constraints)@,
        best.wf(),
        coherent(old(constraints)@, best@),
        exists|end: Timetable| #[trigger]
            climbed(
                old(constraints)@,
                seeded(old(constraints)@, Timetable::empty()),
                end,
                best@,
                iterations as nat,
            ),
        total_penalty(old(constraints)@, best@) <= total_penalty(
            old(constraints)@,
            seeded(old(constraints)@, Timetable::empty()),
        ),
{
    let mut schedule = Schedule::new();
    generate_initial_state(constraints, &mut schedule);
    let best = climb(constraints, &mut schedule, iterations);
    proof {
        assert(climbed(
            constraints@,
            seeded(constraints@, Timetable::empty()),
            schedule@,
            best@,
            iterations as nat,
        ));
    }
    best
}

} // verus!
