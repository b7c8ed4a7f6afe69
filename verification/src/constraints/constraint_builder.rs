//! Assembling a constraint option by option.

use crate::constraints::penalty::{copy_penalties, has_penalty, Penalty};
use crate::constraints::{Constraint, ConstraintPriority};
use crate::schedule::{copy_listed_slots, slots_view, Slot};
use vstd::prelude::*;

verus! {

/// Why a constraint could not be built.
#[derive(Clone, Copy, Debug, PartialEq, Eq, Structural)]
pub enum BuildError {
    /// No option that enables a penalty was set.
    EmptyConstraint,
    /// No name was set.
    MissingName,
    /// No id was set.
    MissingId,
    /// No priority was set.
    MissingPriority,
    /// No duration was set.
    MissingDuration,
}

impl BuildError {
    /// What to tell the user.
    pub fn message(&self) -> (text: &'static str)
        ensures
            text == match self {
                BuildError::EmptyConstraint => EMPTY_CONSTRAINT,
                BuildError::MissingName => MISSING_NAME,
                BuildError::MissingId => MISSING_ID,
                BuildError::MissingPriority => MISSING_PRIORITY,
                BuildError::MissingDuration => MISSING_DURATION,
            },
    {
        match self {
            BuildError::EmptyConstraint => EMPTY_CONSTRAINT,
            BuildError::MissingName => MISSING_NAME,
            BuildError::MissingId => MISSING_ID,
            BuildError::MissingPriority => MISSING_PRIORITY,
            BuildError::MissingDuration => MISSING_DURATION,
        }
    }
}

pub const EMPTY_CONSTRAINT: &'static str =
    "Empty constraint, please ensure criteria is specified for the constraint";

pub const MISSING_NAME: &'static str = "Please ensure the name is set for constraint";

pub const MISSING_ID: &'static str = "Please ensure an id is given for the constraint";

pub const MISSING_PRIORITY: &'static str = "Please ensure the priority is set for the constraint";

pub const MISSING_DURATION: &'static str =
    "Please ensure the duration is specified for the constraint";

/// Builds a constraint from the options that were set. Which penalties score
/// the constraint follows from the options: each option that a penalty reads
/// enables that penalty when it is first set.
pub struct ConstraintBuilder {
    constraint_id: Option<u32>,
    constraint_name: Option<String>,
    priority: Option<ConstraintPriority>,
    duration: Option<u8>,
    gap: Option<u8>,
    allowed_slots: Option<Vec<Slot>>,
    preferred_slots: Option<Vec<Slot>>,
    penalties: Vec<Penalty>,
}

/// The options of a builder as plain values.
pub struct Options {
    pub id: Option<u32>,
    pub name: Option<Seq<char>>,
    pub priority: Option<ConstraintPriority>,
    pub duration: Option<u8>,
    pub gap: Option<u8>,
    pub allowed_slots: Option<Seq<Slot>>,
    pub preferred_slots: Option<Seq<Slot>>,
    pub penalties: Seq<Penalty>,
}

/// `kinds` with `kind` at its end, unless `kinds` has it already.
pub open spec fn enable(kinds: Seq<Penalty>, kind: Penalty) -> Seq<Penalty> {
    if kinds.contains(kind) {
        kinds
    } else {
        kinds.push(kind)
    }
}

impl Options {
    /// Each penalty kind is listed at most once, and exactly where the option
    /// that it reads is set.
    pub open spec fn consistent(self) -> bool {
        &&& self.penalties.no_duplicates()
        &&& self.penalties.contains(Penalty::Validity) <==> self.duration is Some
        &&& self.penalties.contains(Penalty::AllowedSlots) <==> self.allowed_slots is Some
        &&& self.penalties.contains(Penalty::PreferredSlots) <==> self.preferred_slots is Some
        &&& self.penalties.contains(Penalty::Gap) <==> self.gap is Some
    }

    /// What keeps a constraint from being built, if anything does: the first
    /// of no penalty, no name, no id, no priority, no duration.
    pub open spec fn defect(self) -> Option<BuildError> {
        if self.penalties.len() == 0 {
            Some(BuildError::EmptyConstraint)
        } else if self.name is None {
            Some(BuildError::MissingName)
        } else if self.id is None {
            Some(BuildError::MissingId)
        } else if self.priority is None {
            Some(BuildError::MissingPriority)
        } else if self.duration is None {
            Some(BuildError::MissingDuration)
        } else {
            None
        }
    }

    /// The constraint holds exactly what the options say.
    pub open spec fn describes(self, c: Constraint) -> bool {
        &&& self.id == Some(c.id)
        &&& self.name == Some(c.name@)
        &&& self.priority == Some(c.priority)
        &&& self.duration == Some(c.duration)
        &&& self.gap == c.gap
        &&& self.allowed_slots == slots_view(c.allowed_slots)
        &&& self.preferred_slots == slots_view(c.preferred_slots)
        &&& self.penalties == c.penalties@
    }
}

/// Lists a penalty kind at the end, unless it is listed already.
fn enable_penalty(kinds: &mut Vec<Penalty>, kind: Penalty)
    requires
        old(kinds)@.no_duplicates(),
    ensures
        final(kinds)@ == enable(old(kinds)@, kind),
        final(kinds)@.no_duplicates(),
        forall|other: Penalty|
            final(kinds)@.contains(other) <==> (old(kinds)@.contains(other) || other == kind),
{
    if !has_penalty(kinds, kind) {
        let ghost before = kinds@;
        kinds.push(kind);
        proof {
            assert forall|other: Penalty|
                kinds@.contains(other) <==> (before.contains(other) || other == kind) by {
                if before.contains(other) {
                    let j = choose|j: int| 0 <= j < before.len() && before[j] == other;
                    assert(kinds@[j] == other);
                }
                if other == kind {
                    assert(kinds@[before.len() as int] == other);
                }
            }
        }
    }
}

impl View for ConstraintBuilder {
    type V = Options;

    closed spec fn view(&self) -> Options {
        Options {
            id: self.constraint_id,
            name: match self.constraint_name {
                Some(name) => Some(name@),
                None => None,
            },
            priority: self.priority,
            duration: self.duration,
            gap: self.gap,
            allowed_slots: slots_view(self.allowed_slots),
            preferred_slots: slots_view(self.preferred_slots),
            penalties: self.penalties@,
        }
    }
}

impl ConstraintBuilder {
    #[verifier::type_invariant]
    spec fn options_consistent(self) -> bool {
        self@.consistent()
    }

    /// A builder with no option set.
    pub fn new() -> (builder: ConstraintBuilder)
        ensures
            builder@ == (Options {
                id: None,
                name: None,
                priority: None,
                duration: None,
                gap: None,
                allowed_slots: None,
                preferred_slots: None,
                penalties: Seq::empty(),
            }),
    {
        ConstraintBuilder {
            constraint_id: None,
            constraint_name: None,
            priority: None,
            duration: None,
            gap: None,
            allowed_slots: None,
            preferred_slots: None,
            penalties: Vec::new(),
        }
    }

    /// Sets the id. Instances of one activity share an id.
    pub fn set_id(self, id: u32) -> (builder: Self)
        ensures
            builder@ == (Options { id: Some(id), ..self@ }),
    {
        proof {
            use_type_invariant(&self);
        }
        ConstraintBuilder { constraint_id: Some(id), ..self }
    }

    /// Sets the name.
    pub fn set_name(self, name: String) -> (builder: Self)
        ensures
            builder@ == (Options { name: Some(name@), ..self@ }),
    {
        proof {
            use_type_invariant(&self);
        }
        ConstraintBuilder { constraint_name: Some(name), ..self }
    }

    /// Sets the priority.
    pub fn set_priority(self, priority: ConstraintPriority) -> (builder: Self)
        ensures
            builder@ == (Options { priority: Some(priority), ..self@ }),
    {
        proof {
            use_type_invariant(&self);
        }
        ConstraintBuilder { priority: Some(priority), ..self }
    }

    /// Sets the duration in windows and enables the validity penalty.
    pub fn set_duration(self, duration: u8) -> (builder: Self)
        ensures
            builder@ == (Options {
                duration: Some(duration),
                penalties: enable(self@.penalties, Penalty::Validity),
                ..self@
            }),
    {
        proof {
            use_type_invariant(&self);
        }
        let mut penalties = self.penalties;
        enable_penalty(&mut penalties, Penalty::Validity);
        ConstraintBuilder { duration: Some(duration), penalties, ..self }
    }

    /// Sets the least distance in windows between instances of the activity
    /// and enables the gap penalty.
    pub fn set_gap(self, gap: u8) -> (builder: Self)
        ensures
            builder@ == (Options {
                gap: Some(gap),
                penalties: enable(self@.penalties, Penalty::Gap),
                ..self@
            }),
    {
        proof {
            use_type_invariant(&self);
        }
        let mut penalties = self.penalties;
        enable_penalty(&mut penalties, Penalty::Gap);
        ConstraintBuilder { gap: Some(gap), penalties, ..self }
    }

    /// Sets the slots at which the activity may start and enables the
    /// allowed-slots penalty.
    pub fn set_allowed_slots(self, slots: Vec<Slot>) -> (builder: Self)
        ensures
            builder@ == (Options {
                allowed_slots: Some(slots@),
                penalties: enable(self@.penalties, Penalty::AllowedSlots),
                ..self@
            }),
    {
        proof {
            use_type_invariant(&self);
        }
        let mut penalties = self.penalties;
        enable_penalty(&mut penalties, Penalty::AllowedSlots);
        ConstraintBuilder { allowed_slots: Some(slots), penalties, ..self }
    }

    /// Sets the slots at which the activity would best start and enables the
    /// preferred-slots penalty.
    pub fn set_preferred_slots(self, slots: Vec<Slot>) -> (builder: Self)
        ensures
            builder@ == (Options {
                preferred_slots: Some(slots@),
                penalties: enable(self@.penalties, Penalty::PreferredSlots),
                ..self@
            }),
    {
        proof {
            use_type_invariant(&self);
        }
        let mut penalties = self.penalties;
        enable_penalty(&mut penalties, Penalty::PreferredSlots);
        ConstraintBuilder { preferred_slots: Some(slots), penalties, ..self }
    }

    /// Builds the constraint, or says which option is missing.
    pub fn build(&self) -> (built: Result<Constraint, BuildError>)
        ensures
            match built {
                Ok(c) => self@.defect() is None && self@.describes(c) && c.well_formed(),
                Err(e) => self@.defect() == Some(e),
            },
    {
        proof {
            use_type_invariant(self);
        }
        if self.penalties.len() == 0 {
            return Err(BuildError::EmptyConstraint);
        }
        let name = match &self.constraint_name {
            Some(name) => name.clone(),
            None => {
                return Err(BuildError::MissingName);
            },
        };
        let id = match self.constraint_id {
            Some(id) => id,
            None => {
                return Err(BuildError::MissingId);
            },
        };
        let priority = match self.priority {
            Some(priority) => priority,
            None => {
                return Err(BuildError::MissingPriority);
            },
        };
        let duration = match self.duration {
            Some(duration) => duration,
            None => {
                return Err(BuildError::MissingDuration);
            },
        };
        Ok(
            Constraint {
                name,
                id,
                penalties: copy_penalties(&self.penalties),
                priority,
                duration,
                gap: self.gap,
                allowed_slots: copy_listed_slots(&self.allowed_slots),
                preferred_slots: copy_listed_slots(&self.preferred_slots),
            },
        )
    }
}

} // verus!
