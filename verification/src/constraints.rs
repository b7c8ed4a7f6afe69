//! Constraints: the activities to place, each with a duration, a priority
//! and the slot rules by which a placement of it is scored.

pub mod constraint_builder;
pub mod constraint_store;
pub mod penalties;
pub mod penalty;

use crate::constraints::penalties::{
    allowed_slots_penalty, calculate_allowed_slots_based_penalty, calculate_gap_based_penalty,
    calculate_preferred_slots_based_penalty, calculate_validity_based_penalty, gap_penalty,
    preferred_slots_penalty, validity_penalty,
};
use crate::constraints::penalty::{all_distinct, has_penalty, Penalty};
use crate::schedule::timetable::Timetable;
use crate::schedule::{Schedule, Slot};
use vstd::prelude::*;

verus! {

/// How much a violation of a constraint weighs.
#[derive(Clone, Copy, Debug, PartialEq, Eq, Structural)]
pub enum ConstraintPriority {
    High,
    Low,
}

/// An activity to place on the grid. A constraint says nothing of where it
/// currently is: that is the schedule's to know.
#[derive(Clone, Debug)]
pub struct Constraint {
    /// Human-readable name.
    pub name: String,
    /// Identifier; instances of one activity share it.
    pub id: u32,
    /// The penalty kinds by which the constraint is scored, each at most once.
    pub penalties: Vec<Penalty>,
    /// How much a violation weighs.
    pub priority: ConstraintPriority,
    /// Number of consecutive windows that the activity takes.
    pub duration: u8,
    /// Least distance in windows between instances of the activity.
    pub gap: Option<u8>,
    /// The slots at which the activity may start, in order of preference.
    pub allowed_slots: Option<Vec<Slot>>,
    /// The slots at which the activity would best start.
    pub preferred_slots: Option<Vec<Slot>>,
}

impl Constraint {
    /// The constraint is scored by penalties of this kind.
    pub open spec fn enabled(self, kind: Penalty) -> bool {
        self.penalties@.contains(kind)
    }

    /// Each penalty kind is listed at most once, and a kind that reads a list
    /// of slots or a gap is listed exactly where the constraint has one.
    pub open spec fn well_formed(self) -> bool {
        &&& self.penalties@.no_duplicates()
        &&& self.enabled(Penalty::AllowedSlots) <==> self.allowed_slots is Some
        &&& self.enabled(Penalty::PreferredSlots) <==> self.preferred_slots is Some
        &&& self.enabled(Penalty::Gap) <==> self.gap is Some
    }

    /// Puts the constraint on the schedule at the slot `(day, window)`.
    pub fn schedule_for_slot(&self, slot: (u8, u8), schedule: &mut Schedule)
        requires
            old(schedule).wf(),
            (Slot { day: slot.0, window: slot.1 }).on_grid(),
            old(schedule)@.range_free(Slot { day: slot.0, window: slot.1 }, self.duration),
            !old(schedule)@.is_scheduled(self.id),
        ensures
            final(schedule).wf(),
            final(schedule)@ == old(schedule)@.with_placement(
                self.id,
                self.duration,
                Slot { day: slot.0, window: slot.1 },
            ),
    {
        schedule.schedule_constraint(self.id, self.duration, &Slot { day: slot.0, window: slot.1 });
    }

    /// Whether the constraint is well formed.
    pub fn is_well_formed(&self) -> (well_formed: bool)
        ensures
            well_formed == self.well_formed(),
    {
        all_distinct(&self.penalties) && has_penalty(&self.penalties, Penalty::AllowedSlots)
            == self.allowed_slots.is_some() && has_penalty(
            &self.penalties,
            Penalty::PreferredSlots,
        ) == self.preferred_slots.is_some() && has_penalty(&self.penalties, Penalty::Gap)
            == self.gap.is_some()
    }

    /// The sum of the penalties of the kinds among `kinds`, each counted once.
    pub open spec fn penalty_over(self, kinds: Seq<Penalty>, t: Timetable) -> int {
        (if kinds.contains(Penalty::Validity) {
            validity_penalty(self, t) as int
        } else {
            0
        }) + (if kinds.contains(Penalty::AllowedSlots) {
            allowed_slots_penalty(self, t) as int
        } else {
            0
        }) + (if kinds.contains(Penalty::PreferredSlots) {
            preferred_slots_penalty(self, t) as int
        } else {
            0
        }) + (if kinds.contains(Penalty::Gap) {
            gap_penalty(self, t) as int
        } else {
            0
        })
    }

    /// The score of the constraint against a grid: the sum of the penalties
    /// of its enabled kinds.
    pub open spec fn penalty(self, t: Timetable) -> int {
        self.penalty_over(self.penalties@, t)
    }

    /// Computes the score of the constraint against the schedule.
    pub fn calculate_penalty(&self, schedule: &Schedule) -> (total_penalty: u32)
        requires
            self.well_formed(),
        ensures
            total_penalty == self.penalty(schedule@),
            total_penalty <= MAX_PENALTY,
    {
        let mut total_penalty: u32 = 0;
        let mut i: usize = 0;
        while i < self.penalties.len()
            invariant
                i <= self.penalties.len(),
                self.well_formed(),
                total_penalty == self.penalty_over(self.penalties@.take(i as int), schedule@),
                total_penalty <= MAX_PENALTY,
            decreases self.penalties.len() - i,
        {
            let ghost seen = self.penalties@.take(i as int);
            let ghost kind = self.penalties@[i as int];
            proof {
                assert(self.penalties@.take(i + 1) =~= seen.push(kind));
                assert(!seen.contains(kind)) by {
                    if seen.contains(kind) {
                        let j = choose|j: int| 0 <= j < seen.len() && seen[j] == kind;
                        assert(self.penalties@[j] == self.penalties@[i as int]);
                    }
                }
                assert forall|other: Penalty|
                    seen.push(kind).contains(other) <==> (seen.contains(other) || other
                        == kind) by {
                    if seen.contains(other) {
                        let j = choose|j: int| 0 <= j < seen.len() && seen[j] == other;
                        assert(seen.push(kind)[j] == other);
                    }
                    if other == kind {
                        assert(seen.push(kind)[seen.len() as int] == other);
                    }
                }
                assert(self.penalties@.contains(kind));
            }
            match self.penalties[i] {
                Penalty::Validity => {
                    total_penalty += calculate_validity_based_penalty(self, schedule);
                },
                Penalty::AllowedSlots => {
                    total_penalty += calculate_allowed_slots_based_penalty(self, schedule);
                },
                Penalty::PreferredSlots => {
                    total_penalty += calculate_preferred_slots_based_penalty(self, schedule);
                },
                Penalty::Gap => {
                    total_penalty += calculate_gap_based_penalty(self, schedule);
                },
            }
            i += 1;
        }
        proof {
            assert(self.penalties@.take(self.penalties@.len() as int) =~= self.penalties@);
        }
        total_penalty
    }
}

/// The most that one constraint can score.
pub const MAX_PENALTY: u32 = 43;

} // verus!
