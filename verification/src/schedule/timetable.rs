//! The mathematical model of the weekly grid: which constraint occupies which
//! cell, where each placed constraint starts and how long it runs, and the
//! occupancy invariants that tie the two together.

use super::Slot;
use vstd::prelude::*;

verus! {

/// Number of days on the grid.
pub const DAYS: u8 = 7;

/// Number of half-hour windows in a day.
pub const WINDOWS: u8 = 48;

/// Where a placed constraint starts and how many windows it runs.
pub struct Placement {
    pub start: Slot,
    pub duration: u8,
}

impl Placement {
    /// The cell `(day, window)` lies inside this placement.
    pub open spec fn covers(self, day: int, window: int) -> bool {
        self.start.day == day && self.start.window <= window < self.start.window + self.duration
    }

    /// The placement starts on the grid and ends on the day it starts.
    pub open spec fn in_range(self) -> bool {
        self.start.day < DAYS && self.start.window < WINDOWS && self.start.window + self.duration
            <= WINDOWS
    }
}

/// The abstract state of a schedule: the occupant of every cell, and the
/// placement of every constraint that is on the grid.
pub struct Timetable {
    pub cells: Seq<Seq<Option<u32>>>,
    pub placements: Map<u32, Placement>,
}

impl Timetable {
    /// The grid with nothing on it.
    pub open spec fn empty() -> Timetable {
        Timetable {
            cells: Seq::new(DAYS as nat, |d: int| Seq::new(WINDOWS as nat, |w: int| None)),
            placements: Map::empty(),
        }
    }

    /// The grid has seven days of forty-eight windows.
    pub open spec fn shaped(self) -> bool {
        &&& self.cells.len() == DAYS
        &&& forall|d: int| 0 <= d < DAYS ==> (#[trigger] self.cells[d]).len() == WINDOWS
    }

    /// Who holds the cell `(day, window)`.
    pub open spec fn occupant(self, day: int, window: int) -> Option<u32> {
        self.cells[day][window]
    }

    /// The cell is on the grid and nobody holds it.
    pub open spec fn cell_free(self, day: int, window: int) -> bool {
        0 <= day < DAYS && 0 <= window < WINDOWS && self.occupant(day, window) is None
    }

    /// The cell is on the grid and is empty or held by `id`.
    pub open spec fn cell_free_or_owned_by(self, id: u32, day: int, window: int) -> bool {
        0 <= day < DAYS && 0 <= window < WINDOWS && (self.occupant(day, window) is None
            || self.occupant(day, window) == Some(id))
    }

    /// Every cell of the `duration` windows from `start` is on the grid and
    /// empty. The range does not wrap into the next day.
    pub open spec fn range_free(self, start: Slot, duration: u8) -> bool {
        forall|w: int|
            start.window <= w < start.window + duration ==> #[trigger] self.cell_free(
                start.day as int,
                w,
            )
    }

    /// Every cell of the `duration` windows from `start` is on the grid and
    /// is empty or held by `id`.
    pub open spec fn range_free_or_owned_by(self, id: u32, start: Slot, duration: u8) -> bool {
        forall|w: int|
            start.window <= w < start.window + duration ==> #[trigger] self.cell_free_or_owned_by(
                id,
                start.day as int,
                w,
            )
    }

    /// The constraint `id` is on the grid.
    pub open spec fn is_scheduled(self, id: u32) -> bool {
        self.placements.contains_key(id)
    }

    /// Every recorded placement lies on the grid within one day.
    pub open spec fn placements_in_range(self) -> bool {
        forall|id: u32| #[trigger]
            self.placements.contains_key(id) ==> self.placements[id].in_range()
    }

    /// Every occupied cell belongs to the recorded placement of its occupant.
    pub open spec fn cells_have_placements(self) -> bool {
        forall|d: int, w: int|
            0 <= d < DAYS && 0 <= w < WINDOWS ==> match #[trigger] self.occupant(d, w) {
                Some(id) => self.placements.contains_key(id) && self.placements[id].covers(d, w),
                None => true,
            }
    }

    /// Every cell of a recorded placement is held by the placed constraint.
    pub open spec fn placements_fill_cells(self) -> bool {
        forall|id: u32, d: int, w: int|
            self.placements.contains_key(id) && #[trigger] self.placements[id].covers(d, w)
                ==> self.occupant(d, w) == Some(id)
    }

    /// The occupancy invariants of the grid.
    pub open spec fn wf(self) -> bool {
        &&& self.shaped()
        &&& self.placements_in_range()
        &&& self.cells_have_placements()
        &&& self.placements_fill_cells()
    }

    /// The first slot of `slots` at or after index `from` whose range is free.
    pub open spec fn first_free_listed_from(self, slots: Seq<Slot>, duration: u8, from: int) -> Option<
        Slot,
    >
        decreases slots.len() - from,
    {
        if from < 0 || from >= slots.len() {
            None
        } else if self.range_free(slots[from], duration) {
            Some(slots[from])
        } else {
            self.first_free_listed_from(slots, duration, from + 1)
        }
    }

    /// The first slot of `slots` at or after index `from` whose range is free
    /// or held by `id`.
    pub open spec fn first_free_or_owned_listed_from(
        self,
        id: u32,
        slots: Seq<Slot>,
        duration: u8,
        from: int,
    ) -> Option<Slot>
        decreases slots.len() - from,
    {
        if from < 0 || from >= slots.len() {
            None
        } else if self.range_free_or_owned_by(id, slots[from], duration) {
            Some(slots[from])
        } else {
            self.first_free_or_owned_listed_from(id, slots, duration, from + 1)
        }
    }

    /// The first slot at or after `from`, by day and then by window, whose
    /// range is free.
    pub open spec fn first_free_from(self, from: Slot, duration: u8) -> Option<Slot>
        decreases DAYS - from.day, WINDOWS - from.window,
    {
        if from.day >= DAYS {
            None
        } else if from.window >= WINDOWS {
            self.first_free_from(Slot { day: (from.day + 1) as u8, window: 0 }, duration)
        } else if self.range_free(from, duration) {
            Some(from)
        } else {
            self.first_free_from(Slot { day: from.day, window: (from.window + 1) as u8 }, duration)
        }
    }

    /// The first slot of the grid, by day and then by window, whose range is
    /// free.
    pub open spec fn first_free_slot(self, duration: u8) -> Option<Slot> {
        self.first_free_from(Slot { day: 0, window: 0 }, duration)
    }

    /// Where a constraint of the given duration would be put: the first
    /// listed slot whose range is free where a list is given, else the first
    /// free range of the grid.
    pub open spec fn slot_for_constraint(self, duration: u8, allowed: Option<Seq<Slot>>) -> Option<
        Slot,
    > {
        match allowed {
            Some(slots) => self.first_free_listed_from(slots, duration, 0),
            None => self.first_free_slot(duration),
        }
    }

    /// The state after `id` is written into the `duration` windows from
    /// `start` and its placement is recorded.
    pub open spec fn with_placement(self, id: u32, duration: u8, start: Slot) -> Timetable {
        let placed = Placement { start, duration };
        Timetable {
            cells: Seq::new(
                DAYS as nat,
                |d: int|
                    Seq::new(
                        WINDOWS as nat,
                        |w: int|
                            if placed.covers(d, w) {
                                Some(id)
                            } else {
                                self.occupant(d, w)
                            },
                    ),
            ),
            placements: self.placements.insert(id, placed),
        }
    }

    /// The state after the placement of `id` is forgotten and its cells are
    /// cleared. A constraint that is not on the grid leaves the state as it is.
    pub open spec fn without_placement(self, id: u32) -> Timetable {
        if self.placements.contains_key(id) {
            let placed = self.placements[id];
            Timetable {
                cells: Seq::new(
                    DAYS as nat,
                    |d: int|
                        Seq::new(
                            WINDOWS as nat,
                            |w: int|
                                if placed.covers(d, w) {
                                    None
                                } else {
                                    self.occupant(d, w)
                                },
                        ),
                ),
                placements: self.placements.remove(id),
            }
        } else {
            self
        }
    }
}

/// A change that the grid can be asked to make.
pub enum GridChange {
    /// Put the constraint with this id and duration at the slot.
    Place(u32, u8, Slot),
    /// Take the constraint with this id, placed with this duration, off the
    /// grid.
    Remove(u32, u8),
}

impl Timetable {
    /// The grid may be asked to make the change: a constraint is put, not
    /// being on the grid yet, into a free range that starts on the grid; a
    /// constraint is taken off with the duration that it was put with.
    pub open spec fn permits(self, change: GridChange) -> bool {
        match change {
            GridChange::Place(id, duration, start) => start.on_grid() && self.range_free(
                start,
                duration,
            ) && !self.is_scheduled(id),
            GridChange::Remove(id, duration) => self.is_scheduled(id) ==> self.placements[id].duration
                == duration,
        }
    }

    /// The state after the change.
    pub open spec fn after(self, change: GridChange) -> Timetable {
        match change {
            GridChange::Place(id, duration, start) => self.with_placement(id, duration, start),
            GridChange::Remove(id, duration) => self.without_placement(id),
        }
    }

    /// The state after the changes, made in order.
    pub open spec fn after_all(self, changes: Seq<GridChange>) -> Timetable
        decreases changes.len(),
    {
        if changes.len() == 0 {
            self
        } else {
            self.after_all(changes.drop_last()).after(changes.last())
        }
    }

    /// The grid may be asked to make the changes in order: each is permitted
    /// in the state that the changes before it leave.
    pub open spec fn permits_all(self, changes: Seq<GridChange>) -> bool
        decreases changes.len(),
    {
        if changes.len() == 0 {
            true
        } else {
            self.permits_all(changes.drop_last()) && self.after_all(changes.drop_last()).permits(
                changes.last(),
            )
        }
    }
}

/// Every state that is reached from the empty grid by changes that the grid
/// may be asked to make satisfies the occupancy invariants: every held cell
/// lies in the placement of its holder, every placement is held in full by
/// its constraint, and no placement leaves its day.
pub proof fn lemma_reachable_states_wf(changes: Seq<GridChange>)
    requires
        Timetable::empty().permits_all(changes),
    ensures
        Timetable::empty().after_all(changes).wf(),
    decreases changes.len(),
{
    if changes.len() == 0 {
        lemma_empty_wf();
    } else {
        lemma_reachable_states_wf(changes.drop_last());
        let t = Timetable::empty().after_all(changes.drop_last());
        match changes.last() {
            GridChange::Place(id, duration, start) => {
                lemma_schedule_preserves_wf(t, id, duration, start);
            },
            GridChange::Remove(id, duration) => {
                lemma_unschedule_preserves_wf(t, id);
            },
        }
    }
}

/// What the search through a list returns is a slot of the list from `from`
/// on whose range is free, and no slot listed between `from` and it has a
/// free range; it returns nothing only where no slot listed from `from` on
/// has one.
pub proof fn lemma_first_free_listed(t: Timetable, slots: Seq<Slot>, duration: u8, from: int)
    requires
        0 <= from <= slots.len(),
    ensures
        match t.first_free_listed_from(slots, duration, from) {
            Some(s) => exists|i: int|
                from <= i < slots.len() && slots[i] == s && t.range_free(s, duration) && forall|
                    j: int,
                |
                    from <= j < i ==> !t.range_free(#[trigger] slots[j], duration),
            None => forall|j: int|
                from <= j < slots.len() ==> !t.range_free(#[trigger] slots[j], duration),
        },
    decreases slots.len() - from,
{
    if from < slots.len() && !t.range_free(slots[from], duration) {
        lemma_first_free_listed(t, slots, duration, from + 1);
        match t.first_free_listed_from(slots, duration, from + 1) {
            Some(s) => {
                let i = choose|i: int|
                    from + 1 <= i < slots.len() && slots[i] == s && t.range_free(s, duration)
                        && forall|j: int|
                        from + 1 <= j < i ==> !t.range_free(#[trigger] slots[j], duration);
                assert(from <= i < slots.len() && slots[i] == s && t.range_free(s, duration)
                    && forall|j: int|
                    from <= j < i ==> !t.range_free(#[trigger] slots[j], duration));
            },
            None => {},
        }
    }
}

/// What the search through a list for a range that is free or held by `id`
/// returns is a slot of the list from `from` on with such a range, and no
/// slot listed between `from` and it has one; it returns nothing only where
/// no slot listed from `from` on has one.
pub proof fn lemma_first_free_or_owned_listed(
    t: Timetable,
    id: u32,
    slots: Seq<Slot>,
    duration: u8,
    from: int,
)
    requires
        0 <= from <= slots.len(),
    ensures
        match t.first_free_or_owned_listed_from(id, slots, duration, from) {
            Some(s) => exists|i: int|
                from <= i < slots.len() && slots[i] == s && t.range_free_or_owned_by(
                    id,
                    s,
                    duration,
                ) && forall|j: int|
                    from <= j < i ==> !t.range_free_or_owned_by(id, #[trigger] slots[j], duration),
            None => forall|j: int|
                from <= j < slots.len() ==> !t.range_free_or_owned_by(
                    id,
                    #[trigger] slots[j],
                    duration,
                ),
        },
    decreases slots.len() - from,
{
    if from < slots.len() && !t.range_free_or_owned_by(id, slots[from], duration) {
        lemma_first_free_or_owned_listed(t, id, slots, duration, from + 1);
        match t.first_free_or_owned_listed_from(id, slots, duration, from + 1) {
            Some(s) => {
                let i = choose|i: int|
                    from + 1 <= i < slots.len() && slots[i] == s && t.range_free_or_owned_by(
                        id,
                        s,
                        duration,
                    ) && forall|j: int|
                        from + 1 <= j < i ==> !t.range_free_or_owned_by(
                            id,
                            #[trigger] slots[j],
                            duration,
                        );
                assert(from <= i < slots.len() && slots[i] == s && t.range_free_or_owned_by(
                    id,
                    s,
                    duration,
                ) && forall|j: int|
                    from <= j < i ==> !t.range_free_or_owned_by(id, #[trigger] slots[j], duration));
            },
            None => {},
        }
    }
}

/// What the scan of the grid from `from` on returns is a slot of the grid,
/// not before `from`, whose range is free, and no slot of the grid between
/// `from` and it has a free range; it returns nothing only where no slot of
/// the grid from `from` on has one.
pub proof fn lemma_first_free_from(t: Timetable, from: Slot, duration: u8)
    requires
        from.day <= DAYS,
        from.window <= WINDOWS,
    ensures
        match t.first_free_from(from, duration) {
            Some(s) => {
                &&& s.on_grid()
                &&& !s.precedes(from)
                &&& t.range_free(s, duration)
                &&& forall|x: Slot|
                    x.on_grid() && !x.precedes(from) && x.precedes(s) ==> !#[trigger] t.range_free(
                        x,
                        duration,
                    )
            },
            None => forall|x: Slot|
                x.on_grid() && !x.precedes(from) ==> !#[trigger] t.range_free(x, duration),
        },
    decreases DAYS - from.day, WINDOWS - from.window,
{
    if from.day >= DAYS {
    } else if from.window >= WINDOWS {
        lemma_first_free_from(t, Slot { day: (from.day + 1) as u8, window: 0 }, duration);
    } else if t.range_free(from, duration) {
    } else {
        lemma_first_free_from(
            t,
            Slot { day: from.day, window: (from.window + 1) as u8 },
            duration,
        );
    }
}

/// A slot that the search returns has a free range, and is one of the allowed
/// slots where a list of them was given.
pub proof fn lemma_slot_search_sound(t: Timetable, duration: u8, allowed: Option<Seq<Slot>>)
    ensures
        match t.slot_for_constraint(duration, allowed) {
            Some(s) => t.range_free(s, duration) && match allowed {
                Some(slots) => slots.contains(s),
                None => true,
            },
            None => true,
        },
{
    match allowed {
        Some(slots) => lemma_first_free_listed(t, slots, duration, 0),
        None => lemma_first_free_from(t, Slot { day: 0, window: 0 }, duration),
    }
}

/// Where the scan of the grid finds nothing, no slot at all has a free range
/// of that duration.
pub proof fn lemma_slot_search_complete(t: Timetable, duration: u8)
    requires
        t.first_free_slot(duration) is None,
    ensures
        forall|s: Slot| !#[trigger] t.range_free(s, duration),
{
    let origin = Slot { day: 0, window: 0 };
    lemma_first_free_from(t, origin, duration);
    assert forall|s: Slot| !#[trigger] t.range_free(s, duration) by {
        if t.range_free(s, duration) {
            if duration == 0 {
                assert(t.range_free(origin, duration));
            } else {
                assert(t.cell_free(s.day as int, s.window as int));
            }
        }
    }
}

/// The scan of the grid returns the first slot, by day and then by window,
/// whose range is free.
pub proof fn lemma_slot_search_first(t: Timetable, duration: u8)
    ensures
        match t.first_free_slot(duration) {
            Some(s) => s.on_grid() && t.range_free(s, duration) && forall|x: Slot|
                x.on_grid() && x.precedes(s) ==> !#[trigger] t.range_free(x, duration),
            None => forall|s: Slot| !#[trigger] t.range_free(s, duration),
        },
{
    lemma_first_free_from(t, Slot { day: 0, window: 0 }, duration);
    if t.first_free_slot(duration) is None {
        lemma_slot_search_complete(t, duration);
    }
}

/// The empty grid satisfies the occupancy invariants.
pub proof fn lemma_empty_wf()
    ensures
        Timetable::empty().wf(),
        forall|id: u32| !Timetable::empty().is_scheduled(id),
        forall|d: int, w: int|
            0 <= d < DAYS && 0 <= w < WINDOWS ==> Timetable::empty().cell_free(d, w),
{
}

/// Placing a constraint that is not yet on the grid into a free range that
/// starts on the grid keeps the occupancy invariants.
pub proof fn lemma_schedule_preserves_wf(t: Timetable, id: u32, duration: u8, start: Slot)
    requires
        t.wf(),
        start.day < DAYS,
        start.window < WINDOWS,
        t.range_free(start, duration),
        !t.is_scheduled(id),
    ensures
        t.with_placement(id, duration, start).wf(),
{
    let placed = Placement { start, duration };
    let after = t.with_placement(id, duration, start);
    if duration > 0 {
        assert(t.cell_free(start.day as int, start.window + duration - 1));
    }
    assert(placed.in_range());
    assert forall|d: int, w: int| 0 <= d < DAYS && 0 <= w < WINDOWS implies match #[trigger] after.occupant(
        d,
        w,
    ) {
        Some(other) => after.placements.contains_key(other) && after.placements[other].covers(
            d,
            w,
        ),
        None => true,
    } by {
        if !placed.covers(d, w) {
            assert(after.occupant(d, w) == t.occupant(d, w));
        }
    }
    assert forall|other: u32, d: int, w: int|
        after.placements.contains_key(other) && #[trigger] after.placements[other].covers(
            d,
            w,
        ) implies after.occupant(d, w) == Some(other) by {
        if other != id {
            assert(t.placements.contains_key(other));
            assert(t.placements[other].covers(d, w));
            assert(t.placements[other].in_range());
            assert(t.occupant(d, w) == Some(other));
            if placed.covers(d, w) {
                assert(t.cell_free(start.day as int, w));
            }
        }
    }
}

/// Removing a constraint from the grid keeps the occupancy invariants.
pub proof fn lemma_unschedule_preserves_wf(t: Timetable, id: u32)
    requires
        t.wf(),
    ensures
        t.without_placement(id).wf(),
{
    if t.placements.contains_key(id) {
        let placed = t.placements[id];
        let after = t.without_placement(id);
        assert forall|d: int, w: int| 0 <= d < DAYS && 0 <= w < WINDOWS implies match #[trigger] after.occupant(
            d,
            w,
        ) {
            Some(other) => after.placements.contains_key(other) && after.placements[other].covers(
                d,
                w,
            ),
            None => true,
        } by {
            if !placed.covers(d, w) {
                assert(after.occupant(d, w) == t.occupant(d, w));
            }
        }
        assert forall|other: u32, d: int, w: int|
            after.placements.contains_key(other) && #[trigger] after.placements[other].covers(
                d,
                w,
            ) implies after.occupant(d, w) == Some(other) by {
            assert(t.placements.contains_key(other));
            assert(t.placements[other].covers(d, w));
            assert(t.placements[other].in_range());
            assert(t.occupant(d, w) == Some(other));
            if placed.covers(d, w) {
                assert(t.occupant(d, w) == Some(id));
            }
        }
    }
}

/// Placing a constraint into a free range and removing it again gives back
/// the state from before, and the placement that is removed starts where the
/// constraint was put.
pub proof fn lemma_schedule_then_unschedule(t: Timetable, id: u32, duration: u8, start: Slot)
    requires
        t.wf(),
        start.day < DAYS,
        start.window < WINDOWS,
        t.range_free(start, duration),
        !t.is_scheduled(id),
    ensures
        t.with_placement(id, duration, start).is_scheduled(id),
        t.with_placement(id, duration, start).placements[id].start == start,
        t.with_placement(id, duration, start).placements[id].duration == duration,
        t.with_placement(id, duration, start).without_placement(id) == t,
{
    let placed = Placement { start, duration };
    let mid = t.with_placement(id, duration, start);
    let back = mid.without_placement(id);
    assert(back.placements =~= t.placements);
    assert forall|d: int, w: int| 0 <= d < DAYS && 0 <= w < WINDOWS implies back.cells[d][w]
        == t.cells[d][w] by {
        if placed.covers(d, w) {
            assert(t.cell_free(start.day as int, w));
        }
    }
    assert(back.cells =~~= t.cells);
}

/// Once a constraint is taken off the grid, every range that was free or
/// held by it is free.
pub proof fn lemma_unschedule_frees_range(t: Timetable, id: u32, start: Slot, duration: u8)
    requires
        t.wf(),
        t.range_free_or_owned_by(id, start, duration),
    ensures
        t.without_placement(id).range_free(start, duration),
{
    let after = t.without_placement(id);
    assert forall|w: int| start.window <= w < start.window + duration implies #[trigger] after.cell_free(
        start.day as int,
        w,
    ) by {
        assert(t.cell_free_or_owned_by(id, start.day as int, w));
        if t.occupant(start.day as int, w) == Some(id) {
            assert(t.placements.contains_key(id));
            assert(t.placements[id].covers(start.day as int, w));
        }
    }
}

/// A placed constraint holds every cell of its placement, so the first
/// `duration` windows of it are free or held by it for any `duration` up to
/// its own.
pub proof fn lemma_placement_owned(t: Timetable, id: u32, duration: u8)
    requires
        t.wf(),
        t.is_scheduled(id),
        duration <= t.placements[id].duration,
    ensures
        t.placements[id].start.on_grid(),
        t.range_free_or_owned_by(id, t.placements[id].start, duration),
{
    let placed = t.placements[id];
    assert(placed.in_range());
    assert forall|w: int|
        placed.start.window <= w < placed.start.window
            + duration implies #[trigger] t.cell_free_or_owned_by(id, placed.start.day as int, w) by {
        assert(placed.covers(placed.start.day as int, w));
    }
}

/// Taking a constraint off the grid and putting it back where it was, as
/// long as it was, gives back the state from before.
pub proof fn lemma_unschedule_then_schedule(t: Timetable, id: u32)
    requires
        t.wf(),
        t.is_scheduled(id),
    ensures
        t.without_placement(id).with_placement(
            id,
            t.placements[id].duration,
            t.placements[id].start,
        ) == t,
{
    let placed = t.placements[id];
    let back = t.without_placement(id).with_placement(id, placed.duration, placed.start);
    assert(back.placements =~= t.placements);
    assert forall|d: int, w: int| 0 <= d < DAYS && 0 <= w < WINDOWS implies back.cells[d][w]
        == t.cells[d][w] by {
        if placed.covers(d, w) {
            assert(t.occupant(d, w) == Some(id));
        }
    }
    assert(back.cells =~~= t.cells);
}

/// A range that is free is also free or held by any constraint.
pub proof fn lemma_free_is_free_or_owned(t: Timetable, id: u32, start: Slot, duration: u8)
    requires
        t.range_free(start, duration),
    ensures
        t.range_free_or_owned_by(id, start, duration),
{
    assert forall|w: int|
        start.window <= w < start.window + duration implies #[trigger] t.cell_free_or_owned_by(
        id,
        start.day as int,
        w,
    ) by {
        assert(t.cell_free(start.day as int, w));
    }
}

/// A range of at least one window that is free, or free or held by a
/// constraint, starts on the grid.
pub proof fn lemma_free_range_on_grid(t: Timetable, id: u32, start: Slot, duration: u8)
    requires
        duration >= 1,
        t.range_free_or_owned_by(id, start, duration),
    ensures
        start.on_grid(),
{
    assert(t.cell_free_or_owned_by(id, start.day as int, start.window as int));
}

/// On a grid that satisfies the occupancy invariants, two different
/// constraints never hold the same cell.
pub proof fn lemma_placements_disjoint(t: Timetable, a: u32, b: u32, day: int, window: int)
    requires
        t.wf(),
        t.is_scheduled(a),
        t.is_scheduled(b),
        t.placements[a].covers(day, window),
        t.placements[b].covers(day, window),
    ensures
        a == b,
{
    assert(t.occupant(day, window) == Some(a));
    assert(t.occupant(day, window) == Some(b));
}

/// On a grid that satisfies the occupancy invariants, the cells held by a
/// placed constraint are exactly the cells of its placement: so many
/// consecutive windows of one day as the constraint is long.
pub proof fn lemma_cells_of_placement(t: Timetable, id: u32, day: int, window: int)
    requires
        t.wf(),
        0 <= day < DAYS,
        0 <= window < WINDOWS,
    ensures
        t.occupant(day, window) == Some(id) <==> t.is_scheduled(id) && t.placements[id].covers(
            day,
            window,
        ),
{
    if t.occupant(day, window) == Some(id) {
        assert(t.placements.contains_key(id));
    }
}

/// Two grids that satisfy the occupancy invariants and record the same
/// placements hold the same cells.
pub proof fn lemma_placements_determine_cells(a: Timetable, b: Timetable)
    requires
        a.wf(),
        b.wf(),
        a.placements == b.placements,
    ensures
        a == b,
{
    assert forall|d: int, w: int| 0 <= d < DAYS && 0 <= w < WINDOWS implies a.cells[d][w]
        == b.cells[d][w] by {
        lemma_cells_agree(a, b, d, w);
        lemma_cells_agree(b, a, d, w);
    }
    assert(a.cells =~~= b.cells);
}

proof fn lemma_cells_agree(a: Timetable, b: Timetable, d: int, w: int)
    requires
        a.wf(),
        b.wf(),
        a.placements == b.placements,
        0 <= d < DAYS,
        0 <= w < WINDOWS,
    ensures
        a.occupant(d, w) is Some ==> b.occupant(d, w) == a.occupant(d, w),
{
    match a.occupant(d, w) {
        Some(id) => {
            assert(b.placements.contains_key(id));
            assert(b.placements[id].covers(d, w));
        },
        None => {},
    }
}

} // verus!
