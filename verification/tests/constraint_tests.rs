use timetable::constraints::constraint_builder::{BuildError, ConstraintBuilder};
use timetable::constraints::penalties::{
    calculate_allowed_slots_based_penalty, calculate_gap_based_penalty,
    calculate_preferred_slots_based_penalty, calculate_validity_based_penalty, is_slot_listed,
};
use timetable::constraints::penalty::Penalty;
use timetable::constraints::{Constraint, ConstraintPriority};
use timetable::schedule::{Schedule, Slot};

fn slot(day: u8, window: u8) -> Slot {
    Slot { day, window }
}

fn constraint(
    id: u32,
    priority: ConstraintPriority,
    allowed: Option<Vec<Slot>>,
    preferred: Option<Vec<Slot>>,
) -> Constraint {
    let mut builder = ConstraintBuilder::new()
        .set_id(id)
        .set_name(format!("c{}", id))
        .set_priority(priority)
        .set_duration(4);
    if let Some(slots) = allowed {
        builder = builder.set_allowed_slots(slots);
    }
    if let Some(slots) = preferred {
        builder = builder.set_preferred_slots(slots);
    }
    builder.build().unwrap()
}

#[test]
fn builder_with_only_id_and_name_is_rejected() {
    let built = ConstraintBuilder::new().set_id(1).set_name("a".to_string()).build();
    assert_eq!(built.err(), Some(BuildError::EmptyConstraint));
}

#[test]
fn builder_with_nothing_set_is_rejected() {
    assert_eq!(ConstraintBuilder::new().build().err(), Some(BuildError::EmptyConstraint));
}

#[test]
fn builder_reports_the_first_missing_option() {
    let no_name = ConstraintBuilder::new().set_duration(4).build();
    assert_eq!(no_name.err(), Some(BuildError::MissingName));
    let no_id = ConstraintBuilder::new().set_duration(4).set_name("a".to_string()).build();
    assert_eq!(no_id.err(), Some(BuildError::MissingId));
    let no_priority =
        ConstraintBuilder::new().set_duration(4).set_name("a".to_string()).set_id(3).build();
    assert_eq!(no_priority.err(), Some(BuildError::MissingPriority));
    let no_duration = ConstraintBuilder::new()
        .set_gap(2)
        .set_name("a".to_string())
        .set_id(3)
        .set_priority(ConstraintPriority::Low)
        .build();
    assert_eq!(no_duration.err(), Some(BuildError::MissingDuration));
}

#[test]
fn build_error_messages() {
    assert_eq!(
        BuildError::EmptyConstraint.message(),
        "Empty constraint, please ensure criteria is specified for the constraint"
    );
    assert_eq!(BuildError::MissingName.message(), "Please ensure the name is set for constraint");
    assert_eq!(BuildError::MissingId.message(), "Please ensure an id is given for the constraint");
    assert_eq!(
        BuildError::MissingPriority.message(),
        "Please ensure the priority is set for the constraint"
    );
    assert_eq!(
        BuildError::MissingDuration.message(),
        "Please ensure the duration is specified for the constraint"
    );
}

#[test]
fn builder_builds_what_was_set() {
    let built = ConstraintBuilder::new()
        .set_id(12)
        .set_name("lecture".to_string())
        .set_priority(ConstraintPriority::Low)
        .set_preferred_slots(vec![slot(1, 2)])
        .set_duration(6)
        .set_gap(96)
        .set_allowed_slots(vec![slot(0, 0), slot(3, 4)])
        .build()
        .unwrap();
    assert_eq!(built.id, 12);
    assert_eq!(built.name, "lecture");
    assert_eq!(built.priority, ConstraintPriority::Low);
    assert_eq!(built.duration, 6);
    assert_eq!(built.gap, Some(96));
    assert_eq!(built.allowed_slots, Some(vec![slot(0, 0), slot(3, 4)]));
    assert_eq!(built.preferred_slots, Some(vec![slot(1, 2)]));
    assert_eq!(
        built.penalties,
        vec![Penalty::PreferredSlots, Penalty::Validity, Penalty::Gap, Penalty::AllowedSlots]
    );
}

#[test]
fn builder_enables_each_penalty_once() {
    let built = ConstraintBuilder::new()
        .set_id(1)
        .set_name("a".to_string())
        .set_priority(ConstraintPriority::High)
        .set_duration(4)
        .set_duration(8)
        .set_allowed_slots(vec![slot(0, 0)])
        .set_allowed_slots(vec![slot(1, 1)])
        .build()
        .unwrap();
    assert_eq!(built.duration, 8);
    assert_eq!(built.allowed_slots, Some(vec![slot(1, 1)]));
    assert_eq!(built.penalties, vec![Penalty::Validity, Penalty::AllowedSlots]);
    assert_eq!(built.gap, None);
    assert_eq!(built.preferred_slots, None);
}

#[test]
fn builder_can_build_more_than_once() {
    let builder = ConstraintBuilder::new()
        .set_id(1)
        .set_name("a".to_string())
        .set_priority(ConstraintPriority::High)
        .set_duration(4);
    let first = builder.build().unwrap();
    let second = builder.build().unwrap();
    assert_eq!(first.id, second.id);
    assert_eq!(first.name, second.name);
    assert_eq!(first.penalties, second.penalties);
}

#[test]
fn validity_penalty_by_priority() {
    let high = constraint(1, ConstraintPriority::High, None, None);
    let low = constraint(2, ConstraintPriority::Low, None, None);
    let mut schedule = Schedule::new();
    assert_eq!(calculate_validity_based_penalty(&high, &schedule), 10);
    assert_eq!(calculate_validity_based_penalty(&low, &schedule), 5);
    schedule.schedule_constraint(1, 4, &slot(0, 0));
    schedule.schedule_constraint(2, 4, &slot(0, 4));
    assert_eq!(calculate_validity_based_penalty(&high, &schedule), 0);
    assert_eq!(calculate_validity_based_penalty(&low, &schedule), 0);
}

#[test]
fn allowed_slots_penalty_by_priority() {
    let allowed = vec![slot(0, 0), slot(2, 8)];
    let high = constraint(1, ConstraintPriority::High, Some(allowed.clone()), None);
    let low = constraint(2, ConstraintPriority::Low, Some(allowed), None);
    let mut schedule = Schedule::new();
    assert_eq!(calculate_allowed_slots_based_penalty(&high, &schedule), 0);
    assert_eq!(calculate_allowed_slots_based_penalty(&low, &schedule), 0);
    schedule.schedule_constraint(1, 4, &slot(2, 8));
    schedule.schedule_constraint(2, 4, &slot(2, 12));
    assert_eq!(calculate_allowed_slots_based_penalty(&high, &schedule), 0);
    assert_eq!(calculate_allowed_slots_based_penalty(&low, &schedule), 20);
    assert_eq!(schedule.unschedule_constraint(1, 4), Ok(slot(2, 8)));
    schedule.schedule_constraint(1, 4, &slot(0, 1));
    assert_eq!(calculate_allowed_slots_based_penalty(&high, &schedule), 30);
}

#[test]
fn preferred_slots_penalty_by_priority() {
    let preferred = vec![slot(0, 0), slot(2, 8)];
    let high = constraint(1, ConstraintPriority::High, None, Some(preferred.clone()));
    let low = constraint(2, ConstraintPriority::Low, None, Some(preferred));
    let mut schedule = Schedule::new();
    assert_eq!(calculate_preferred_slots_based_penalty(&high, &schedule), 0);
    assert_eq!(calculate_preferred_slots_based_penalty(&low, &schedule), 0);
    schedule.schedule_constraint(1, 4, &slot(0, 0));
    schedule.schedule_constraint(2, 4, &slot(0, 4));
    assert_eq!(calculate_preferred_slots_based_penalty(&high, &schedule), 0);
    assert_eq!(calculate_preferred_slots_based_penalty(&low, &schedule), 2);
    assert_eq!(schedule.unschedule_constraint(1, 4), Ok(slot(0, 0)));
    schedule.schedule_constraint(1, 4, &slot(5, 5));
    assert_eq!(calculate_preferred_slots_based_penalty(&high, &schedule), 3);
}

#[test]
fn gap_penalty_is_zero() {
    let built = ConstraintBuilder::new()
        .set_id(1)
        .set_name("a".to_string())
        .set_priority(ConstraintPriority::High)
        .set_duration(4)
        .set_gap(10)
        .build()
        .unwrap();
    let mut schedule = Schedule::new();
    assert_eq!(calculate_gap_based_penalty(&built, &schedule), 0);
    schedule.schedule_constraint(1, 4, &slot(0, 0));
    assert_eq!(calculate_gap_based_penalty(&built, &schedule), 0);
    assert_eq!(built.calculate_penalty(&schedule), 0);
}

#[test]
fn total_penalty_is_the_sum_of_the_enabled_kernels() {
    let c = constraint(
        1,
        ConstraintPriority::High,
        Some(vec![slot(0, 0)]),
        Some(vec![slot(0, 0), slot(1, 0)]),
    );
    let mut schedule = Schedule::new();
    assert_eq!(c.calculate_penalty(&schedule), 10);
    schedule.schedule_constraint(1, 4, &slot(0, 0));
    assert_eq!(c.calculate_penalty(&schedule), 0);
    assert_eq!(schedule.unschedule_constraint(1, 4), Ok(slot(0, 0)));
    schedule.schedule_constraint(1, 4, &slot(1, 0));
    assert_eq!(c.calculate_penalty(&schedule), 30);
    assert_eq!(schedule.unschedule_constraint(1, 4), Ok(slot(1, 0)));
    schedule.schedule_constraint(1, 4, &slot(2, 0));
    assert_eq!(c.calculate_penalty(&schedule), 33);
    let low = constraint(
        2,
        ConstraintPriority::Low,
        Some(vec![slot(0, 0)]),
        Some(vec![slot(0, 0), slot(1, 0)]),
    );
    assert_eq!(low.calculate_penalty(&schedule), 5);
    schedule.schedule_constraint(2, 4, &slot(3, 0));
    assert_eq!(low.calculate_penalty(&schedule), 22);
}

#[test]
fn kernels_give_the_same_score_each_time() {
    let c = constraint(
        1,
        ConstraintPriority::High,
        Some(vec![slot(0, 0)]),
        Some(vec![slot(1, 0)]),
    );
    let mut schedule = Schedule::new();
    schedule.schedule_constraint(1, 4, &slot(4, 4));
    for _ in 0..3 {
        assert_eq!(calculate_validity_based_penalty(&c, &schedule), 0);
        assert_eq!(calculate_allowed_slots_based_penalty(&c, &schedule), 30);
        assert_eq!(calculate_preferred_slots_based_penalty(&c, &schedule), 3);
        assert_eq!(calculate_gap_based_penalty(&c, &schedule), 0);
        assert_eq!(c.calculate_penalty(&schedule), 33);
    }
}

#[test]
fn a_slot_off_the_allowed_list_costs_more_than_no_slot() {
    for priority in [ConstraintPriority::High, ConstraintPriority::Low] {
        let c = constraint(1, priority, Some(vec![slot(0, 0)]), None);
        let off_grid = Schedule::new();
        let mut off_list = Schedule::new();
        off_list.schedule_constraint(1, 4, &slot(3, 3));
        assert!(
            calculate_validity_based_penalty(&c, &off_grid)
                < calculate_allowed_slots_based_penalty(&c, &off_list)
        );
        assert!(c.calculate_penalty(&off_grid) < c.calculate_penalty(&off_list));
    }
}

#[test]
fn slot_listed() {
    let slots = vec![slot(0, 0), slot(3, 4)];
    assert!(is_slot_listed(&slots, slot(3, 4)));
    assert!(!is_slot_listed(&slots, slot(4, 3)));
    assert!(!is_slot_listed(&vec![], slot(0, 0)));
}

#[test]
fn constraint_is_put_on_the_schedule_with_its_id_and_duration() {
    let c = constraint(8, ConstraintPriority::High, None, None);
    let mut schedule = Schedule::new();
    c.schedule_for_slot((2, 44), &mut schedule);
    assert_eq!(schedule.scheduled_slot(8), Some(slot(2, 44)));
    for window in 40..48u8 {
        let expected = if window >= 44 { Some(8) } else { None };
        assert_eq!(schedule.occupant(2, window), expected);
    }
    assert_eq!(schedule.unschedule_constraint(8, 4), Ok(slot(2, 44)));
}

#[test]
fn list_kernels_score_nothing_off_the_grid_even_without_a_list() {
    let c = constraint(1, ConstraintPriority::High, None, None);
    let schedule = Schedule::new();
    assert_eq!(calculate_allowed_slots_based_penalty(&c, &schedule), 0);
    assert_eq!(calculate_preferred_slots_based_penalty(&c, &schedule), 0);
}
