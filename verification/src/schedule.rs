//! The weekly grid: seven days of forty-eight half-hour windows, the
//! constraints placed on it, and the queries that find room for more.

pub mod errors;
pub mod timetable;

use crate::schedule::errors::ScheduleError;
use crate::schedule::timetable::{
    lemma_schedule_preserves_wf, lemma_slot_search_first, lemma_slot_search_sound,
    lemma_unschedule_preserves_wf, Placement, Timetable, DAYS, WINDOWS,
};
use std::collections::HashMap;
use vstd::prelude::*;

verus! {

broadcast use vstd::std_specs::hash::group_hash_axioms;

/// The start of a half-hour cell: a day of the week and a window of that day.
#[derive(Clone, Copy, Debug, PartialEq, Eq, Structural)]
pub struct Slot {
    pub day: u8,
    pub window: u8,
}

impl Slot {
    /// The slot names a cell of the grid.
    pub open spec fn on_grid(self) -> bool {
        self.day < DAYS && self.window < WINDOWS
    }

    /// This slot comes before `other` by day and then by window.
    pub open spec fn precedes(self, other: Slot) -> bool {
        self.day < other.day || (self.day == other.day && self.window < other.window)
    }
}

/// The allowed slots of a constraint as a sequence, where it has any.
pub open spec fn slots_view(slots: Option<Vec<Slot>>) -> Option<Seq<Slot>> {
    match slots {
        Some(list) => Some(list@),
        None => None,
    }
}

/// A copy of a list of slots.
pub fn copy_slots(slots: &Vec<Slot>) -> (copy: Vec<Slot>)
    ensures
        copy@ == slots@,
{
    let mut copy: Vec<Slot> = Vec::new();
    let mut i: usize = 0;
    while i < slots.len()
        invariant
            i <= slots.len(),
            copy@ == slots@.take(i as int),
        decreases slots.len() - i,
    {
        copy.push(slots[i]);
        proof {
            assert(slots@.take(i + 1) =~= slots@.take(i as int).push(slots@[i as int]));
        }
        i += 1;
    }
    proof {
        assert(slots@.take(slots@.len() as int) =~= slots@);
    }
    copy
}

/// A copy of a list of slots, where there is one.
pub fn copy_listed_slots(slots: &Option<Vec<Slot>>) -> (copy: Option<Vec<Slot>>)
    ensures
        slots_view(copy) == slots_view(*slots),
{
    match slots {
        Some(list) => Some(copy_slots(list)),
        None => None,
    }
}

/// The grid and the record of what is placed on it.
#[derive(Clone)]
pub struct Schedule {
    /// The id of the constraint that holds each cell, by day and window.
    pub grid: [[Option<u32>; 48]; 7],
    /// The slot at which each constraint on the grid starts, by its id.
    scheduled_constraints: HashMap<u32, Slot>,
    /// The duration with which each constraint on the grid was placed, by
    /// its id. The grid does not keep it at run time: whoever takes a
    /// constraint off the grid says how long it is.
    durations: Ghost<Map<u32, u8>>,
}

impl View for Schedule {
    type V = Timetable;

    closed spec fn view(&self) -> Timetable {
        Timetable {
            cells: Seq::new(DAYS as nat, |d: int| self.grid@[d]@),
            placements: Map::new(
                |id: u32| self.scheduled_constraints@.contains_key(id),
                |id: u32|
                    Placement {
                        start: self.scheduled_constraints@[id],
                        duration: self.durations@[id],
                    },
            ),
        }
    }
}

impl Schedule {
    /// The occupancy invariants hold of this schedule.
    pub open spec fn wf(&self) -> bool {
        self@.wf()
    }

    /// A schedule with nothing on it.
    pub fn new() -> (schedule: Self)
        ensures
            schedule.wf(),
            schedule@ == Timetable::empty(),
    {
        let schedule = Schedule {
            grid: [[None; 48]; 7],
            scheduled_constraints: HashMap::new(),
            durations: Ghost(Map::empty()),
        };
        proof {
            assert(schedule@.placements =~= Timetable::empty().placements);
            assert(schedule@.cells =~~= Timetable::empty().cells);
        }
        schedule
    }

    /// A copy of this schedule that shares nothing with it.
    pub fn snapshot(&self) -> (copy: Self)
        ensures
            copy@ == self@,
    {
        let copy = Schedule {
            grid: self.grid,
            scheduled_constraints: self.scheduled_constraints.clone(),
            durations: self.durations,
        };
        proof {
            assert(copy@.placements =~= self@.placements);
            assert(copy@.cells =~~= self@.cells);
        }
        copy
    }

    /// Finds a start for a constraint of the given duration: the first of
    /// the allowed slots, in the order they are listed, whose range is free;
    /// without a list, the first free range of the grid.
    pub fn get_slot_for_constraint(
        &self,
        constraint_duration: u8,
        allowed_slots: &Option<Vec<Slot>>,
    ) -> (found: Option<Slot>)
        ensures
            found == self@.slot_for_constraint(constraint_duration, slots_view(*allowed_slots)),
            match found {
                Some(s) => self@.range_free(s, constraint_duration) && match allowed_slots {
                    Some(slots) => slots@.contains(s),
                    None => true,
                },
                None => true,
            },
    {
        match allowed_slots {
            Some(slots) => {
                let mut i: usize = 0;
                while i < slots.len()
                    invariant
                        i <= slots.len(),
                        *allowed_slots == Some(*slots),
                        self@.first_free_listed_from(slots@, constraint_duration, 0)
                            == self@.first_free_listed_from(slots@, constraint_duration, i as int),
                    decreases slots.len() - i,
                {
                    if self.is_duration_free(&slots[i], constraint_duration) {
                        proof {
                            lemma_slot_search_sound(self@, constraint_duration, Some(slots@));
                        }
                        return Some(slots[i]);
                    }
                    i += 1;
                }
                None
            },
            None => self.find_free_slot(constraint_duration),
        }
    }

    /// Scans the days in order, and the windows of each day in order, for the
    /// first start from which `constraint_duration` windows are free.
    pub fn find_free_slot(&self, constraint_duration: u8) -> (found: Option<Slot>)
        ensures
            found == self@.first_free_slot(constraint_duration),
            match found {
                Some(s) => s.on_grid() && self@.range_free(s, constraint_duration) && forall|
                    x: Slot,
                |
                    x.on_grid() && x.precedes(s) ==> !#[trigger] self@.range_free(
                        x,
                        constraint_duration,
                    ),
                None => forall|s: Slot| !#[trigger] self@.range_free(s, constraint_duration),
            },
    {
        let mut s: Slot = Slot { day: 0, window: 0 };
        loop
            invariant
                s.day <= DAYS,
                s.window <= WINDOWS,
                self@.first_free_slot(constraint_duration) == self@.first_free_from(
                    s,
                    constraint_duration,
                ),
            decreases DAYS - s.day, WINDOWS - s.window,
        {
            if s.day >= DAYS {
                proof {
                    lemma_slot_search_first(self@, constraint_duration);
                }
                return None;
            }
            if s.window >= WINDOWS {
                s.day += 1;
                s.window = 0;
                continue ;
            }
            if self.is_duration_free(&s, constraint_duration) {
                proof {
                    lemma_slot_search_first(self@, constraint_duration);
                }
                return Some(s);
            } else {
                s.window += 1;
            }
        }
    }

    /// Writes `constraint_id` into `constraint_duration` consecutive cells
    /// from `slot` and records that the constraint starts there.
    ///
    /// The slot must be on the grid, the cells must be free, and the
    /// constraint must not be on the grid yet.
    pub fn schedule_constraint(&mut self, constraint_id: u32, constraint_duration: u8, slot: &Slot)
        requires
            old(self).wf(),
            slot.on_grid(),
            old(self)@.range_free(*slot, constraint_duration),
            !old(self)@.is_scheduled(constraint_id),
        ensures
            final(self).wf(),
            final(self)@ == old(self)@.with_placement(constraint_id, constraint_duration, *slot),
    {
        let ghost before = self@;
        proof {
            if constraint_duration > 0 {
                assert(before.cell_free(slot.day as int, slot.window + constraint_duration - 1));
            }
        }
        let day: usize = slot.day as usize;
        let first: usize = slot.window as usize;
        let mut i: u8 = 0;
        while i < constraint_duration
            invariant
                i <= constraint_duration,
                day == slot.day,
                first == slot.window,
                day < DAYS,
                first + constraint_duration <= WINDOWS,
                self.scheduled_constraints == old(self).scheduled_constraints,
                self.durations == old(self).durations,
                forall|d: int, w: int|
                    0 <= d < DAYS && 0 <= w < WINDOWS ==> #[trigger] self.grid@[d]@[w] == (if d
                        == day && first <= w < first + i {
                        Some(constraint_id)
                    } else {
                        old(self).grid@[d]@[w]
                    }),
            decreases constraint_duration - i,
        {
            self.grid[day][first + i as usize] = Some(constraint_id);
            i += 1;
        }
        self.scheduled_constraints.insert(constraint_id, *slot);
        self.durations = Ghost(self.durations@.insert(constraint_id, constraint_duration));
        proof {
            let after = before.with_placement(constraint_id, constraint_duration, *slot);
            assert(self@.placements =~= after.placements);
            assert forall|d: int, w: int| 0 <= d < DAYS && 0 <= w < WINDOWS implies self@.cells[d][w]
                == after.cells[d][w] by {
                assert(self@.cells[d][w] == self.grid@[d]@[w]);
                assert(before.occupant(d, w) == old(self).grid@[d]@[w]);
            }
            assert(self@.cells =~~= after.cells);
            lemma_schedule_preserves_wf(before, constraint_id, constraint_duration, *slot);
        }
    }

    /// Takes a constraint off the grid: forgets where it started, clears its
    /// cells and returns the slot that it started at.
    ///
    /// `constraint_duration` must be the duration with which the constraint
    /// was placed.
    pub fn unschedule_constraint(&mut self, constraint_id: u32, constraint_duration: u8) -> (freed:
        Result<Slot, ScheduleError>)
        requires
            old(self).wf(),
            old(self)@.is_scheduled(constraint_id) ==> old(self)@.placements[constraint_id].duration
                == constraint_duration,
        ensures
            final(self).wf(),
            final(self)@ == old(self)@.without_placement(constraint_id),
            freed == (if old(self)@.is_scheduled(constraint_id) {
                Ok::<Slot, ScheduleError>(old(self)@.placements[constraint_id].start)
            } else {
                Err::<Slot, ScheduleError>(ScheduleError::ConstraintNotScheduled(constraint_id))
            }),
    {
        let ghost before = self@;
        let removed = self.scheduled_constraints.remove(&constraint_id);
        let scheduled_slot = match removed {
            Some(slot) => slot,
            None => {
                proof {
                    assert(self@.placements =~= before.placements);
                    assert(self@.cells =~~= before.cells);
                }
                return Err(ScheduleError::ConstraintNotScheduled(constraint_id));
            },
        };
        self.durations = Ghost(self.durations@.remove(constraint_id));
        let ghost placed = before.placements[constraint_id];
        proof {
            assert(before.placements.contains_key(constraint_id));
            assert(placed.in_range());
            assert(placed.start == scheduled_slot);
        }
        let day: usize = scheduled_slot.day as usize;
        let first: usize = scheduled_slot.window as usize;
        let mut i: u8 = 0;
        while i < constraint_duration
            invariant
                i <= constraint_duration,
                day == scheduled_slot.day,
                first == scheduled_slot.window,
                day < DAYS,
                first + constraint_duration <= WINDOWS,
                self.scheduled_constraints@ == old(self).scheduled_constraints@.remove(
                    constraint_id,
                ),
                self.durations@ == old(self).durations@.remove(constraint_id),
                forall|d: int, w: int|
                    0 <= d < DAYS && 0 <= w < WINDOWS ==> #[trigger] self.grid@[d]@[w] == (if d
                        == day && first <= w < first + i {
                        None
                    } else {
                        old(self).grid@[d]@[w]
                    }),
            decreases constraint_duration - i,
        {
            self.grid[day][first + i as usize] = None;
            i += 1;
        }
        proof {
            let after = before.without_placement(constraint_id);
            assert(self@.placements =~= after.placements);
            assert forall|d: int, w: int| 0 <= d < DAYS && 0 <= w < WINDOWS implies self@.cells[d][w]
                == after.cells[d][w] by {
                assert(self@.cells[d][w] == self.grid@[d]@[w]);
                assert(before.occupant(d, w) == old(self).grid@[d]@[w]);
            }
            assert(self@.cells =~~= after.cells);
            lemma_unschedule_preserves_wf(before, constraint_id);
        }
        Ok(scheduled_slot)
    }

    /// Whether the constraint is on the grid.
    pub fn is_constraint_scheduled(&self, constraint_id: u32) -> (scheduled: bool)
        ensures
            scheduled == self@.is_scheduled(constraint_id),
    {
        self.scheduled_constraints.contains_key(&constraint_id)
    }

    /// The slot at which the constraint starts, if it is on the grid.
    pub fn scheduled_slot(&self, constraint_id: u32) -> (start: Option<Slot>)
        ensures
            start == (if self@.is_scheduled(constraint_id) {
                Some(self@.placements[constraint_id].start)
            } else {
                None
            }),
    {
        match self.scheduled_constraints.get(&constraint_id) {
            Some(slot) => Some(*slot),
            None => None,
        }
    }

    /// The id of the constraint that holds the cell `(day, window)`, if the
    /// cell is on the grid and held.
    pub fn occupant(&self, day: u8, window: u8) -> (id: Option<u32>)
        ensures
            id == (if day < DAYS && window < WINDOWS {
                self@.occupant(day as int, window as int)
            } else {
                None
            }),
    {
        if day < DAYS && window < WINDOWS {
            self.grid[day as usize][window as usize]
        } else {
            None
        }
    }

    /// Whether every one of the `duration` cells from `start_slot` is on the
    /// grid and is empty or held by `constraint_id`.
    pub fn is_duration_free_or_owned_by(
        &self,
        constraint_id: &u32,
        duration: u8,
        start_slot: &Slot,
    ) -> (free: bool)
        ensures
            free == self@.range_free_or_owned_by(*constraint_id, *start_slot, duration),
    {
        let mut i: u8 = 0;
        while i < duration
            invariant
                i <= duration,
                forall|w: int|
                    start_slot.window <= w < start_slot.window + i
                        ==> #[trigger] self@.cell_free_or_owned_by(
                        *constraint_id,
                        start_slot.day as int,
                        w,
                    ),
            decreases duration - i,
        {
            let window: u16 = start_slot.window as u16 + i as u16;
            let owned: bool = if start_slot.day < DAYS && window < WINDOWS as u16 {
                match self.grid[start_slot.day as usize][window as usize] {
                    Some(scheduled_constraint_id) => scheduled_constraint_id == *constraint_id,
                    None => true,
                }
            } else {
                false
            };
            if !owned {
                assert(!self@.cell_free_or_owned_by(
                    *constraint_id,
                    start_slot.day as int,
                    window as int,
                ));
                return false;
            }
            i += 1;
        }
        true
    }

    /// Whether every one of the `duration` cells from `slot` is on the grid
    /// and empty.
    pub fn is_duration_free(&self, slot: &Slot, duration: u8) -> (free: bool)
        ensures
            free == self@.range_free(*slot, duration),
    {
        let mut i: u8 = 0;
        while i < duration
            invariant
                i <= duration,
                forall|w: int|
                    slot.window <= w < slot.window + i ==> #[trigger] self@.cell_free(
                        slot.day as int,
                        w,
                    ),
            decreases duration - i,
        {
            let window: u16 = slot.window as u16 + i as u16;
            if window > u8::MAX as u16 || !self.is_slot_free(&(slot.day, window as u8)) {
                assert(!self@.cell_free(slot.day as int, window as int));
                return false;
            }
            i += 1;
        }
        true
    }

    /// Whether the cell `(day, window)` is on the grid and empty.
    pub fn is_slot_free(&self, slot_index: &(u8, u8)) -> (free: bool)
        ensures
            free == self@.cell_free(slot_index.0 as int, slot_index.1 as int),
    {
        if slot_index.0 < DAYS && slot_index.1 < WINDOWS {
            self.grid[slot_index.0 as usize][slot_index.1 as usize].is_none()
        } else {
            false
        }
    }
}

} // verus!
