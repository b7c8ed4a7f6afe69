//! The constraints of a problem, kept in the order they were added, with the
//! random choices that the search makes among them.

use crate::constraints::{Constraint, MAX_PENALTY};
use crate::sampling::{
    choose_entry, choose_weighted_entry, entropy_rng, lemma_total_weight, seeded_rng,
};
use crate::schedule::timetable::Timetable;
use crate::schedule::Schedule;
use rand::rngs::StdRng;
use std::collections::HashMap;
use vstd::prelude::*;

verus! {

broadcast use vstd::std_specs::hash::group_hash_axioms;

/// The constraints of a problem and the generator that choices among them
/// are drawn from.
pub struct ConstraintStore {
    constraints: Vec<Constraint>,
    rng: StdRng,
}

impl View for ConstraintStore {
    type V = Seq<Constraint>;

    closed spec fn view(&self) -> Seq<Constraint> {
        self.constraints@
    }
}

/// The constraint could give way to the constraint `requesting_id`, which
/// needs `required_duration` windows: it is another constraint, it is on the
/// grid, and it is at least as long.
pub open spec fn swappable(
    c: Constraint,
    requesting_id: u32,
    required_duration: u8,
    t: Timetable,
) -> bool {
    c.id != requesting_id && c.duration >= required_duration && t.is_scheduled(c.id)
}

/// Every constraint has an entry in the penalties.
pub open spec fn covers_ids(penalties: Map<u32, u32>, constraints: Seq<Constraint>) -> bool {
    forall|i: int|
        0 <= i < constraints.len() ==> penalties.contains_key((#[trigger] constraints[i]).id)
}

/// Every constraint is well formed, and the constraints are few enough for
/// the sum of their penalties to fit in `u32`.
pub open spec fn scorable(constraints: Seq<Constraint>) -> bool {
    &&& forall|i: int| 0 <= i < constraints.len() ==> (#[trigger] constraints[i]).well_formed()
    &&& constraints.len() * MAX_PENALTY <= u32::MAX
}

/// Every constraint takes at least one window, and constraints that share
/// an id, being instances of one activity, have one duration.
pub open spec fn placeable(constraints: Seq<Constraint>) -> bool {
    &&& forall|i: int| 0 <= i < constraints.len() ==> (#[trigger] constraints[i]).duration >= 1
    &&& forall|i: int, j: int|
        0 <= i < constraints.len() && 0 <= j < constraints.len() && (#[trigger] constraints[i]).id
            == (#[trigger] constraints[j]).id ==> constraints[i].duration
            == constraints[j].duration
}

/// The most constraints whose penalties are sure to sum up within `u32`.
pub const MAX_CONSTRAINTS: usize = 99_882_960;

/// The constraints can be placed and scored.
pub open spec fn well_formed(constraints: Seq<Constraint>) -> bool {
    scorable(constraints) && placeable(constraints)
}

impl ConstraintStore {
    /// An empty store whose choices are seeded by the operating system, or
    /// nothing where the operating system cannot seed them.
    pub fn new() -> (store: Option<Self>)
        ensures
            store matches Some(made) ==> made@ == Seq::<Constraint>::empty(),
    {
        match entropy_rng() {
            Some(rng) => Some(ConstraintStore::with_generator(rng)),
            None => None,
        }
    }

    /// An empty store whose choices are drawn from the generator that `seed` gives.
    pub fn with_seed(seed: u64) -> (store: Self)
        ensures
            store@ == Seq::<Constraint>::empty(),
            store.generator() == crate::sampling::seeded_generator(seed),
    {
        ConstraintStore::with_generator(seeded_rng(seed))
    }

    /// An empty store whose choices are drawn from the generator given.
    pub fn with_generator(rng: StdRng) -> (store: Self)
        ensures
            store@ == Seq::<Constraint>::empty(),
            store.generator() == rng,
    {
        ConstraintStore { constraints: Vec::new(), rng }
    }

    /// The generator that the next choice is drawn from.
    pub closed spec fn generator(&self) -> StdRng {
        self.rng
    }

    /// Adds a constraint at the end. The generator stays as it is.
    pub fn push(&mut self, constraint: Constraint)
        ensures
            final(self)@ == old(self)@.push(constraint),
            final(self).generator() == old(self).generator(),
    {
        self.constraints.push(constraint);
    }

    /// The constraints in the order they were added.
    pub fn constraints(&self) -> (all: &Vec<Constraint>)
        ensures
            all@ == self@,
    {
        &self.constraints
    }

    /// Whether the constraints can be placed and scored.
    pub fn is_well_formed(&self) -> (well_formed: bool)
        ensures
            well_formed == self::well_formed(self@),
    {
        if self.constraints.len() > MAX_CONSTRAINTS {
            return false;
        }
        let mut i: usize = 0;
        while i < self.constraints.len()
            invariant
                i <= self.constraints.len(),
                forall|k: int|
                    0 <= k < i ==> (#[trigger] self.constraints@[k]).well_formed()
                        && self.constraints@[k].duration >= 1,
                forall|a: int, b: int|
                    0 <= a < b < i && (#[trigger] self.constraints@[a]).id
                        == (#[trigger] self.constraints@[b]).id ==> self.constraints@[a].duration
                        == self.constraints@[b].duration,
            decreases self.constraints.len() - i,
        {
            let c = &self.constraints[i];
            if !c.is_well_formed() || c.duration < 1 {
                return false;
            }
            let mut j: usize = 0;
            while j < i
                invariant
                    j <= i,
                    i < self.constraints.len(),
                    *c == self.constraints@[i as int],
                    forall|a: int|
                        0 <= a < j && (#[trigger] self.constraints@[a]).id == c.id
                            ==> self.constraints@[a].duration == c.duration,
                decreases i - j,
            {
                if self.constraints[j].id == c.id && self.constraints[j].duration != c.duration {
                    return false;
                }
                j += 1;
            }
            i += 1;
        }
        true
    }

    /// Picks a constraint to work on, each with a chance in proportion to
    /// its penalty. A constraint whose penalty is zero is never picked, and
    /// nothing is picked where every penalty is zero.
    pub fn get_constraint_for_optimisation(&mut self, penalties: &HashMap<u32, u32>) -> (picked:
        Option<&Constraint>)
        requires
            covers_ids(penalties@, old(self)@),
        ensures
            final(self)@ == old(self)@,
            picked is None <==> forall|i: int|
                0 <= i < old(self)@.len() ==> penalties@[(#[trigger] old(self)@[i]).id] == 0,
            picked matches Some(c) ==> exists|i: int|
                0 <= i < old(self)@.len() && #[trigger] old(self)@[i] == *c && penalties@[c.id] > 0,
    {
        let mut entries: Vec<(usize, u128)> = Vec::new();
        let mut i: usize = 0;
        while i < self.constraints.len()
            invariant
                i <= self.constraints.len(),
                self.constraints@ == old(self).constraints@,
                covers_ids(penalties@, self.constraints@),
                entries@.len() == i,
                forall|j: int|
                    0 <= j < i ==> (#[trigger] entries@[j]) == (
                        j as usize,
                        penalties@[self.constraints@[j].id] as u128,
                    ),
            decreases self.constraints.len() - i,
        {
            let weight: u32 = match penalties.get(&self.constraints[i].id) {
                Some(penalty) => *penalty,
                None => {
                    proof {
                        assert(penalties@.contains_key(self.constraints@[i as int].id));
                    }
                    0
                },
            };
            entries.push((i, weight as u128));
            i += 1;
        }
        proof {
            lemma_total_weight(entries@, u32::MAX as int);
            assert(entries@.len() * u32::MAX <= usize::MAX * u32::MAX) by (nonlinear_arith)
                requires
                    entries@.len() <= usize::MAX,
            ;
            assert(usize::MAX * u32::MAX <= u128::MAX) by (nonlinear_arith)
                requires
                    usize::MAX <= 0xffff_ffff_ffff_ffff,
            ;
        }
        match choose_weighted_entry(&mut self.rng, &entries) {
            Some(entry) => {
                proof {
                    let j = choose|j: int| 0 <= j < entries@.len() && entries@[j] == entry;
                    assert(entries@[j].1 > 0);
                    assert(self.constraints@[j] == self.constraints@[entry.0 as int]);
                }
                Some(&self.constraints[entry.0])
            },
            None => {
                proof {
                    assert forall|i: int| 0 <= i < self.constraints@.len() implies penalties@[(
                    #[trigger] self.constraints@[i]).id] == 0 by {
                        assert(entries@[i].1 == 0);
                    }
                }
                None
            },
        }
    }

    /// Picks, with equal chance, one of the constraints that could give way
    /// to the constraint `constraint_id`: those on the grid, other than it,
    /// that are at least `constraint_duration` windows long. Nothing is
    /// picked only where there is none.
    pub fn find_swappable_scheduled_constraint(
        &mut self,
        constraint_id: u32,
        constraint_duration: u8,
        schedule: &Schedule,
    ) -> (picked: Option<&Constraint>)
        ensures
            final(self)@ == old(self)@,
            picked is None <==> forall|i: int|
                0 <= i < old(self)@.len() ==> !swappable(
                    #[trigger] old(self)@[i],
                    constraint_id,
                    constraint_duration,
                    schedule@,
                ),
            picked matches Some(c) ==> exists|i: int|
                0 <= i < old(self)@.len() && #[trigger] old(self)@[i] == *c && swappable(
                    *c,
                    constraint_id,
                    constraint_duration,
                    schedule@,
                ),
    {
        let mut compatible_constraints: Vec<usize> = Vec::new();
        let mut i: usize = 0;
        while i < self.constraints.len()
            invariant
                i <= self.constraints.len(),
                self.constraints@ == old(self).constraints@,
                forall|k: int|
                    0 <= k < compatible_constraints@.len() ==> {
                        let j = #[trigger] compatible_constraints@[k];
                        0 <= j < i && swappable(
                            self.constraints@[j as int],
                            constraint_id,
                            constraint_duration,
                            schedule@,
                        )
                    },
                forall|j: int|
                    0 <= j < i && swappable(
                        #[trigger] self.constraints@[j],
                        constraint_id,
                        constraint_duration,
                        schedule@,
                    ) ==> compatible_constraints@.contains(j as usize),
            decreases self.constraints.len() - i,
        {
            let c = &self.constraints[i];
            if (c.id != constraint_id && c.duration >= constraint_duration)
                && schedule.is_constraint_scheduled(c.id) {
                let ghost before = compatible_constraints@;
                compatible_constraints.push(i);
                proof {
                    assert forall|j: int|
                        0 <= j < i + 1 && swappable(
                            #[trigger] self.constraints@[j],
                            constraint_id,
                            constraint_duration,
                            schedule@,
                        ) implies compatible_constraints@.contains(j as usize) by {
                        if j < i {
                            let k = choose|k: int|
                                0 <= k < before.len() && before[k] == j as usize;
                            assert(compatible_constraints@[k] == j as usize);
                        } else {
                            assert(compatible_constraints@[before.len() as int] == j as usize);
                        }
                    }
                }
            }
            i += 1;
        }
        match choose_entry(&mut self.rng, &compatible_constraints) {
            Some(index) => {
                proof {
                    let k = choose|k: int|
                        0 <= k < compatible_constraints@.len() && compatible_constraints@[k]
                            == index;
                    assert(compatible_constraints@[k] == index);
                }
                Some(&self.constraints[index])
            },
            None => {
                proof {
                    assert forall|i: int| 0 <= i < self.constraints@.len() implies !swappable(
                        #[trigger] self.constraints@[i],
                        constraint_id,
                        constraint_duration,
                        schedule@,
                    ) by {
                        if swappable(
                            self.constraints@[i],
                            constraint_id,
                            constraint_duration,
                            schedule@,
                        ) {
                            assert(compatible_constraints@.contains(i as usize));
                        }
                    }
                }
                None
            },
        }
    }

    /// The first constraint with the given id, if there is one.
    pub fn get_constraint(&self, constraint_id: u32) -> (found: Option<&Constraint>)
        ensures
            match found {
                Some(c) => exists|i: int|
                    0 <= i < self@.len() && #[trigger] self@[i] == *c && c.id == constraint_id
                        && forall|j: int| 0 <= j < i ==> (#[trigger] self@[j]).id != constraint_id,
                None => forall|j: int|
                    0 <= j < self@.len() ==> (#[trigger] self@[j]).id != constraint_id,
            },
    {
        let mut i: usize = 0;
        while i < self.constraints.len()
            invariant
                i <= self.constraints.len(),
                forall|j: int| 0 <= j < i ==> (#[trigger] self.constraints@[j]).id != constraint_id,
            decreases self.constraints.len() - i,
        {
            if self.constraints[i].id == constraint_id {
                return Some(&self.constraints[i]);
            }
            i += 1;
        }
        None
    }
}

} // verus!
