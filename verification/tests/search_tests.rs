use rand::rngs::StdRng;
use rand::SeedableRng;
use std::collections::HashMap;
use timetable::constraints::constraint_builder::ConstraintBuilder;
use timetable::constraints::constraint_store::ConstraintStore;
use timetable::constraints::{Constraint, ConstraintPriority};
use timetable::hill_climber::change_types::ChangeType;
use timetable::hill_climber::make_small_change::{
    evolve_schedule, find_alternative_slot, handle_scheduled_constraint,
    handle_unscheduled_constraint, revert_change, substitute_constraint,
};
use timetable::hill_climber::{
    calculate_penalties, calculate_penalty, climb, generate_initial_state, make_small_change,
    run_hill_climber,
};
use timetable::schedule::{Schedule, Slot};

fn slot(day: u8, window: u8) -> Slot {
    Slot { day, window }
}

fn constraint(id: u32, duration: u8, allowed: Option<Vec<Slot>>) -> Constraint {
    let mut builder = ConstraintBuilder::new()
        .set_id(id)
        .set_name(format!("c{}", id))
        .set_priority(ConstraintPriority::High)
        .set_duration(duration);
    if let Some(slots) = allowed {
        builder = builder.set_allowed_slots(slots);
    }
    builder.build().unwrap()
}

fn store_of(seed: u64, constraints: Vec<Constraint>) -> ConstraintStore {
    let mut store = ConstraintStore::with_seed(seed);
    for c in constraints {
        store.push(c);
    }
    store
}

/// A schedule on which only the first `free` windows of the first day are
/// free: constraints with ids from 1000 on, which no store holds, have the
/// rest.
fn crowded(free: u8) -> Schedule {
    let mut schedule = Schedule::new();
    schedule.schedule_constraint(1000, 48 - free, &slot(0, free));
    for day in 1..7u8 {
        schedule.schedule_constraint(1000 + day as u32, 48, &slot(day, 0));
    }
    schedule
}

#[test]
fn store_keeps_constraints_in_order() {
    let store = store_of(1, vec![constraint(3, 4, None), constraint(1, 2, None)]);
    let ids: Vec<u32> = store.constraints().iter().map(|c| c.id).collect();
    assert_eq!(ids, vec![3, 1]);
    assert_eq!(ConstraintStore::new().unwrap().constraints().len(), 0);
}

#[test]
fn get_constraint_finds_the_first_with_the_id() {
    let store = store_of(
        1,
        vec![constraint(3, 4, None), constraint(1, 2, None), constraint(1, 7, None)],
    );
    assert_eq!(store.get_constraint(1).map(|c| c.duration), Some(2));
    assert_eq!(store.get_constraint(3).map(|c| c.duration), Some(4));
    assert!(store.get_constraint(2).is_none());
}

#[test]
fn weighted_selection_never_picks_a_zero_weight() {
    for seed in 0..50u64 {
        let mut store = store_of(
            seed,
            vec![
                constraint(1, 4, None),
                constraint(2, 4, None),
                constraint(3, 4, None),
                constraint(4, 4, None),
            ],
        );
        let mut penalties: HashMap<u32, u32> = HashMap::new();
        penalties.insert(1, 0);
        penalties.insert(2, 5);
        penalties.insert(3, 0);
        penalties.insert(4, 0);
        for _ in 0..20 {
            let picked = store.get_constraint_for_optimisation(&penalties);
            assert_eq!(picked.map(|c| c.id), Some(2));
        }
    }
}

#[test]
fn weighted_selection_picks_nothing_when_all_weights_are_zero() {
    let mut store = store_of(7, vec![constraint(1, 4, None), constraint(2, 4, None)]);
    let mut penalties: HashMap<u32, u32> = HashMap::new();
    penalties.insert(1, 0);
    penalties.insert(2, 0);
    assert!(store.get_constraint_for_optimisation(&penalties).is_none());
    let mut empty = ConstraintStore::with_seed(7);
    assert!(empty.get_constraint_for_optimisation(&penalties).is_none());
}

#[test]
fn weighted_selection_reaches_every_positive_weight() {
    let mut store = store_of(
        11,
        vec![constraint(1, 4, None), constraint(2, 4, None), constraint(3, 4, None)],
    );
    let mut penalties: HashMap<u32, u32> = HashMap::new();
    penalties.insert(1, u32::MAX);
    penalties.insert(2, 0);
    penalties.insert(3, u32::MAX);
    let mut seen_first = false;
    let mut seen_third = false;
    for _ in 0..200 {
        match store.get_constraint_for_optimisation(&penalties).map(|c| c.id) {
            Some(1) => seen_first = true,
            Some(3) => seen_third = true,
            other => panic!("picked {:?}", other),
        }
    }
    assert!(seen_first && seen_third);
}

#[test]
fn same_seed_gives_the_same_choices() {
    let constraints = || {
        vec![constraint(1, 4, None), constraint(2, 4, None), constraint(3, 4, None)]
    };
    let mut first = store_of(42, constraints());
    let mut second = store_of(42, constraints());
    let mut penalties: HashMap<u32, u32> = HashMap::new();
    penalties.insert(1, 3);
    penalties.insert(2, 5);
    penalties.insert(3, 7);
    for _ in 0..50 {
        let a = first.get_constraint_for_optimisation(&penalties).map(|c| c.id);
        let b = second.get_constraint_for_optimisation(&penalties).map(|c| c.id);
        assert_eq!(a, b);
    }
}

#[test]
fn swappable_is_scheduled_other_and_long_enough() {
    let mut store = store_of(
        5,
        vec![
            constraint(1, 4, None),
            constraint(2, 8, None),
            constraint(3, 2, None),
            constraint(4, 6, None),
            constraint(5, 9, None),
        ],
    );
    let mut schedule = Schedule::new();
    schedule.schedule_constraint(1, 4, &slot(0, 0));
    schedule.schedule_constraint(2, 8, &slot(0, 4));
    schedule.schedule_constraint(3, 2, &slot(0, 12));
    schedule.schedule_constraint(4, 6, &slot(0, 14));
    let mut seen_two = false;
    let mut seen_four = false;
    for _ in 0..200 {
        let picked = store.find_swappable_scheduled_constraint(1, 4, &schedule).map(|c| c.id);
        match picked {
            Some(2) => seen_two = true,
            Some(4) => seen_four = true,
            other => panic!("picked {:?}", other),
        }
    }
    assert!(seen_two && seen_four);
    assert!(store.find_swappable_scheduled_constraint(1, 9, &schedule).is_none());
    assert_eq!(
        store.find_swappable_scheduled_constraint(2, 7, &schedule).map(|c| c.id),
        None
    );
    assert_eq!(
        store.find_swappable_scheduled_constraint(4, 7, &schedule).map(|c| c.id),
        Some(2)
    );
}

#[test]
fn seeding_places_a_single_constraint_at_the_origin() {
    let mut store = store_of(1, vec![constraint(1, 4, None)]);
    let mut schedule = Schedule::new();
    generate_initial_state(&store, &mut schedule);
    assert_eq!(schedule.scheduled_slot(1), Some(slot(0, 0)));
    let best = run_hill_climber(&mut store, 100);
    for day in 0..7u8 {
        for window in 0..48u8 {
            let expected = if day == 0 && window < 4 { Some(1) } else { None };
            assert_eq!(best.occupant(day, window), expected);
        }
    }
    assert_eq!(calculate_penalty(&store, &best), 0);
}

#[test]
fn seeding_follows_the_allowed_slots_in_order() {
    let allowed = vec![slot(0, 0), slot(0, 4)];
    let mut store = store_of(
        1,
        vec![constraint(1, 4, Some(allowed.clone())), constraint(2, 4, Some(allowed))],
    );
    let mut schedule = Schedule::new();
    generate_initial_state(&store, &mut schedule);
    assert_eq!(schedule.scheduled_slot(1), Some(slot(0, 0)));
    assert_eq!(schedule.scheduled_slot(2), Some(slot(0, 4)));
    assert_eq!(calculate_penalty(&store, &schedule), 0);
    let best = run_hill_climber(&mut store, 100);
    assert_eq!(calculate_penalty(&store, &best), 0);
    assert_eq!(best.scheduled_slot(1), Some(slot(0, 0)));
    assert_eq!(best.scheduled_slot(2), Some(slot(0, 4)));
}

#[test]
fn conflict_over_one_allowed_slot_leaves_one_constraint_out() {
    for seed in 0..10u64 {
        let mut store = store_of(
            seed,
            vec![
                constraint(1, 48, Some(vec![slot(0, 0)])),
                constraint(2, 4, Some(vec![slot(0, 0)])),
            ],
        );
        let mut schedule = Schedule::new();
        generate_initial_state(&store, &mut schedule);
        assert_eq!(schedule.scheduled_slot(1), Some(slot(0, 0)));
        assert!(!schedule.is_constraint_scheduled(2));
        let second = store.get_constraint(2).unwrap();
        assert_eq!(
            timetable::constraints::penalties::calculate_validity_based_penalty(second, &schedule),
            10
        );
        assert_eq!(
            timetable::constraints::penalties::calculate_allowed_slots_based_penalty(
                second, &schedule
            ),
            0
        );
        assert_eq!(calculate_penalty(&store, &schedule), 10);
        for iterations in [0u32, 1, 2, 25] {
            let best = run_hill_climber(&mut store, iterations);
            assert_eq!(calculate_penalty(&store, &best), 10);
        }
    }
}

#[test]
fn substitution_takes_the_place_of_a_longer_constraint() {
    let mut store = store_of(3, vec![constraint(2, 8, None), constraint(1, 4, None)]);
    let mut schedule = crowded(8);
    generate_initial_state(&store, &mut schedule);
    assert_eq!(schedule.scheduled_slot(2), Some(slot(0, 0)));
    assert!(!schedule.is_constraint_scheduled(1));
    let seeded_penalty = calculate_penalty(&store, &schedule);
    assert_eq!(seeded_penalty, 10);

    let mut best = schedule.snapshot();
    let mut best_penalty = seeded_penalty;
    assert!(make_small_change(&mut store, &mut schedule, &mut best, &mut best_penalty));
    assert_eq!(schedule.scheduled_slot(1), Some(slot(0, 0)));
    assert!(!schedule.is_constraint_scheduled(2));
    for window in 0..8u8 {
        let expected = if window < 4 { Some(1) } else { None };
        assert_eq!(schedule.occupant(0, window), expected);
    }
    assert_eq!(schedule.occupant(0, 8), Some(1000));
    assert_eq!(calculate_penalty(&store, &schedule), 10);
    assert!(best_penalty <= seeded_penalty);
    assert_eq!(best_penalty, calculate_penalty(&store, &best));

    assert!(make_small_change(&mut store, &mut schedule, &mut best, &mut best_penalty));
    assert_eq!(schedule.scheduled_slot(1), Some(slot(0, 0)));
    assert!(!schedule.is_constraint_scheduled(2));
    assert_eq!(best_penalty, 10);
}

#[test]
fn substitute_leaves_the_rest_of_the_freed_range_free() {
    let mut schedule = Schedule::new();
    schedule.schedule_constraint(2, 8, &slot(3, 10));
    let change = substitute_constraint(1, 4, 2, 8, &mut schedule);
    assert_eq!(change, ChangeType::Substituted(1, 2, slot(3, 10), 8));
    assert_eq!(schedule.scheduled_slot(1), Some(slot(3, 10)));
    assert!(!schedule.is_constraint_scheduled(2));
    assert_eq!(schedule.occupant(3, 13), Some(1));
    assert_eq!(schedule.occupant(3, 14), None);
    assert_eq!(schedule.occupant(3, 17), None);
}

#[test]
fn best_penalty_never_rises() {
    for seed in 0..5u64 {
        let mut store = store_of(
            seed,
            vec![
                constraint(1, 6, Some(vec![slot(0, 0), slot(0, 2)])),
                constraint(2, 4, Some(vec![slot(0, 0)])),
                constraint(3, 8, None),
                constraint(4, 2, Some(vec![slot(0, 6)])),
            ],
        );
        let mut schedule = crowded(8);
        generate_initial_state(&store, &mut schedule);
        let mut best = schedule.snapshot();
        let mut best_penalty = calculate_penalty(&store, &schedule);
        let mut current = best_penalty;
        for _ in 0..60 {
            let before = best_penalty;
            let picked = make_small_change(&mut store, &mut schedule, &mut best, &mut best_penalty);
            assert!(best_penalty <= before);
            assert_eq!(best_penalty, calculate_penalty(&store, &best));
            let now = calculate_penalty(&store, &schedule);
            assert!(now <= current);
            current = now;
            if !picked {
                assert_eq!(now, 0);
                break;
            }
        }
    }
}

#[test]
fn a_worsening_step_is_undone() {
    // The only way to place the second constraint is in place of the first,
    // at a slot that is not allowed for it: that costs more than it saves.
    let mut store = store_of(
        9,
        vec![constraint(1, 8, None), constraint(2, 4, Some(vec![slot(5, 5)]))],
    );
    let mut schedule = crowded(8);
    generate_initial_state(&store, &mut schedule);
    assert_eq!(schedule.scheduled_slot(1), Some(slot(0, 0)));
    assert!(!schedule.is_constraint_scheduled(2));
    let grid = schedule.grid;
    let mut best = schedule.snapshot();
    let mut best_penalty = calculate_penalty(&store, &schedule);
    assert_eq!(best_penalty, 10);
    for _ in 0..10 {
        assert!(make_small_change(&mut store, &mut schedule, &mut best, &mut best_penalty));
        assert_eq!(schedule.grid, grid);
        assert_eq!(schedule.scheduled_slot(1), Some(slot(0, 0)));
        assert!(!schedule.is_constraint_scheduled(2));
        assert_eq!(best_penalty, 10);
        assert_eq!(best.grid, grid);
    }
}

#[test]
fn search_stops_when_every_penalty_is_zero() {
    let mut store = store_of(1, vec![constraint(1, 4, None), constraint(2, 4, None)]);
    let mut schedule = Schedule::new();
    generate_initial_state(&store, &mut schedule);
    let grid = schedule.grid;
    let mut best = schedule.snapshot();
    let mut best_penalty = calculate_penalty(&store, &schedule);
    assert_eq!(best_penalty, 0);
    assert!(!make_small_change(&mut store, &mut schedule, &mut best, &mut best_penalty));
    assert_eq!(schedule.grid, grid);
    let found = climb(&mut store, &mut schedule, 1000);
    assert_eq!(found.grid, grid);
}

#[test]
fn penalties_are_kept_by_id() {
    let store = store_of(
        1,
        vec![
            constraint(1, 4, Some(vec![slot(0, 0)])),
            constraint(2, 4, None),
            constraint(3, 49, None),
        ],
    );
    let mut schedule = Schedule::new();
    schedule.schedule_constraint(1, 4, &slot(1, 0));
    schedule.schedule_constraint(2, 4, &slot(2, 0));
    let penalties = calculate_penalties(&store, &schedule);
    assert_eq!(penalties.len(), 3);
    assert_eq!(penalties.get(&1), Some(&30));
    assert_eq!(penalties.get(&2), Some(&0));
    assert_eq!(penalties.get(&3), Some(&10));
    assert_eq!(calculate_penalty(&store, &schedule), 40);
}

#[test]
fn seeding_skips_what_does_not_fit_and_what_is_placed_already() {
    let store = store_of(
        1,
        vec![
            constraint(1, 48, None),
            constraint(2, 49, None),
            constraint(1, 48, None),
            constraint(3, 1, Some(vec![slot(0, 5), slot(6, 47)])),
        ],
    );
    let mut schedule = Schedule::new();
    generate_initial_state(&store, &mut schedule);
    assert_eq!(schedule.scheduled_slot(1), Some(slot(0, 0)));
    assert!(!schedule.is_constraint_scheduled(2));
    assert_eq!(schedule.scheduled_slot(3), Some(slot(6, 47)));
    assert_eq!(schedule.occupant(1, 0), None);
}

#[test]
fn alternative_slot_may_overlap_the_constraint_itself() {
    let mut schedule = Schedule::new();
    schedule.schedule_constraint(1, 4, &slot(0, 2));
    schedule.schedule_constraint(2, 4, &slot(0, 8));
    let allowed = Some(vec![slot(0, 6), slot(0, 0), slot(0, 2)]);
    assert_eq!(find_alternative_slot(1, 4, &allowed, &schedule), Some(slot(0, 0)));
    assert_eq!(find_alternative_slot(3, 4, &allowed, &schedule), None);
    assert_eq!(find_alternative_slot(1, 4, &None, &schedule), Some(slot(0, 12)));
    assert_eq!(find_alternative_slot(1, 4, &Some(vec![slot(0, 7)]), &schedule), None);
}

#[test]
fn scheduled_constraint_moves_to_its_alternative_slot() {
    let mut schedule = Schedule::new();
    schedule.schedule_constraint(1, 4, &slot(0, 2));
    let allowed = Some(vec![slot(0, 0)]);
    let change = handle_scheduled_constraint(1, 4, &allowed, &mut schedule);
    assert_eq!(change, Some(ChangeType::Move(slot(0, 2), slot(0, 0))));
    assert_eq!(schedule.scheduled_slot(1), Some(slot(0, 0)));
    for window in 0..8u8 {
        let expected = if window < 4 { Some(1) } else { None };
        assert_eq!(schedule.occupant(0, window), expected);
    }
    let blocked = handle_scheduled_constraint(1, 4, &Some(vec![slot(0, 46)]), &mut schedule);
    assert_eq!(blocked, None);
    assert_eq!(schedule.scheduled_slot(1), Some(slot(0, 0)));
    let free = handle_scheduled_constraint(1, 4, &None, &mut schedule);
    assert_eq!(free, Some(ChangeType::Move(slot(0, 0), slot(0, 4))));
}

#[test]
fn unscheduled_constraint_is_placed_or_substituted() {
    let mut store = store_of(2, vec![constraint(1, 4, None), constraint(2, 8, None)]);
    let mut schedule = crowded(8);
    let placed = handle_unscheduled_constraint(2, 8, &None, &mut schedule, &mut store);
    assert_eq!(placed, Some(ChangeType::Scheduled(2)));
    assert_eq!(schedule.scheduled_slot(2), Some(slot(0, 0)));
    let swapped = handle_unscheduled_constraint(1, 4, &None, &mut schedule, &mut store);
    assert_eq!(swapped, Some(ChangeType::Substituted(1, 2, slot(0, 0), 8)));
    let stuck = handle_unscheduled_constraint(2, 8, &None, &mut schedule, &mut store);
    assert_eq!(stuck, None);
    assert_eq!(schedule.scheduled_slot(1), Some(slot(0, 0)));
}

#[test]
fn revert_undoes_each_kind_of_change() {
    let mut store = store_of(2, vec![constraint(1, 4, None), constraint(2, 8, None)]);
    let mut schedule = crowded(8);

    let empty = schedule.grid;
    let placed = evolve_schedule(&mut store, &mut schedule, 2, 8, &None);
    assert_eq!(placed, Some(ChangeType::Scheduled(2)));
    let with_two = schedule.grid;
    revert_change(&mut schedule, &placed.unwrap(), 2, 8);
    assert_eq!(schedule.grid, empty);
    assert!(!schedule.is_constraint_scheduled(2));

    schedule.schedule_constraint(2, 8, &slot(0, 0));
    assert_eq!(schedule.grid, with_two);
    let swapped = evolve_schedule(&mut store, &mut schedule, 1, 4, &None);
    assert_eq!(swapped, Some(ChangeType::Substituted(1, 2, slot(0, 0), 8)));
    revert_change(&mut schedule, &swapped.unwrap(), 1, 4);
    assert_eq!(schedule.grid, with_two);
    assert_eq!(schedule.scheduled_slot(2), Some(slot(0, 0)));
    assert!(!schedule.is_constraint_scheduled(1));

    let mut roomy = Schedule::new();
    roomy.schedule_constraint(1, 4, &slot(0, 2));
    let before = roomy.grid;
    let moved = evolve_schedule(&mut store, &mut roomy, 1, 4, &Some(vec![slot(0, 0)]));
    assert_eq!(moved, Some(ChangeType::Move(slot(0, 2), slot(0, 0))));
    revert_change(&mut roomy, &moved.unwrap(), 1, 4);
    assert_eq!(roomy.grid, before);
    assert_eq!(roomy.scheduled_slot(1), Some(slot(0, 2)));
}

#[test]
fn climb_without_iterations_returns_the_schedule_given() {
    let mut store = store_of(1, vec![constraint(1, 4, Some(vec![slot(3, 3)]))]);
    let mut schedule = Schedule::new();
    schedule.schedule_constraint(1, 4, &slot(0, 0));
    let best = climb(&mut store, &mut schedule, 0);
    assert_eq!(best.grid, schedule.grid);
    assert_eq!(calculate_penalty(&store, &best), 30);
    let better = climb(&mut store, &mut schedule, 5);
    assert_eq!(calculate_penalty(&store, &better), 0);
    assert_eq!(better.scheduled_slot(1), Some(slot(3, 3)));
}

#[test]
fn store_checks_what_the_search_needs() {
    assert!(ConstraintStore::with_seed(1).is_well_formed());
    assert!(store_of(1, vec![constraint(1, 4, None), constraint(2, 48, None)]).is_well_formed());
    assert!(store_of(1, vec![constraint(1, 4, None), constraint(1, 4, None)]).is_well_formed());
    assert!(!store_of(1, vec![constraint(1, 4, None), constraint(1, 5, None)]).is_well_formed());
    assert!(!store_of(1, vec![constraint(1, 4, None), constraint(2, 0, None)]).is_well_formed());
    let mut twice = constraint(3, 4, None);
    twice.penalties.push(timetable::constraints::penalty::Penalty::Validity);
    assert!(!twice.is_well_formed());
    assert!(!store_of(1, vec![twice]).is_well_formed());
    let mut no_list = constraint(4, 4, Some(vec![slot(0, 0)]));
    no_list.allowed_slots = None;
    assert!(!no_list.is_well_formed());
    assert!(constraint(4, 4, Some(vec![slot(0, 0)])).is_well_formed());
}

fn draws(store: &mut ConstraintStore, count: usize) -> Vec<u32> {
    let mut penalties: HashMap<u32, u32> = HashMap::new();
    penalties.insert(1, 5);
    penalties.insert(2, 5);
    penalties.insert(3, 5);
    let mut picked = Vec::new();
    for _ in 0..count {
        picked.push(store.get_constraint_for_optimisation(&penalties).map(|c| c.id).unwrap());
    }
    picked
}

#[test]
fn seed_decides_the_generator() {
    let constraints = || {
        vec![constraint(1, 4, None), constraint(2, 4, None), constraint(3, 4, None)]
    };
    let mut seeded = store_of(42, constraints());
    let mut given = ConstraintStore::with_generator(StdRng::seed_from_u64(42));
    for c in constraints() {
        given.push(c);
    }
    let mut other = store_of(43, constraints());
    let from_seed = draws(&mut seeded, 64);
    assert_eq!(from_seed, draws(&mut given, 64));
    assert_ne!(from_seed, draws(&mut other, 64));
}
