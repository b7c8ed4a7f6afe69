use vstd::prelude::*;

verus! {

/// The kinds of penalty that a constraint can be scored by.
#[derive(Clone, Copy, Debug, PartialEq, Eq, Structural)]
pub enum Penalty {
    /// Charged while the constraint is not on the grid.
    Validity,
    /// Charged while the constraint starts at a slot that is not allowed.
    AllowedSlots,
    /// Charged while the constraint starts at a slot that is not preferred.
    PreferredSlots,
    /// Charged for instances of one activity that lie too close together.
    Gap,
}

/// Whether `kind` is one of `kinds`.
pub fn has_penalty(kinds: &Vec<Penalty>, kind: Penalty) -> (found: bool)
    ensures
        found == kinds@.contains(kind),
{
    let mut i: usize = 0;
    while i < kinds.len()
        invariant
            i <= kinds.len(),
            forall|j: int| 0 <= j < i ==> kinds@[j] != kind,
        decreases kinds.len() - i,
    {
        if kinds[i] == kind {
            return true;
        }
        i += 1;
    }
    false
}

/// Whether no kind is listed twice.
pub fn all_distinct(kinds: &Vec<Penalty>) -> (distinct: bool)
    ensures
        distinct == kinds@.no_duplicates(),
{
    let mut i: usize = 0;
    while i < kinds.len()
        invariant
            i <= kinds.len(),
            forall|a: int, b: int| 0 <= a < b < i ==> kinds@[a] != kinds@[b],
        decreases kinds.len() - i,
    {
        let mut j: usize = 0;
        while j < i
            invariant
                j <= i,
                i < kinds.len(),
                forall|a: int| 0 <= a < j ==> kinds@[a] != kinds@[i as int],
            decreases i - j,
        {
            if kinds[j] == kinds[i] {
                return false;
            }
            j += 1;
        }
        i += 1;
    }
    true
}

/// A copy of a list of penalty kinds.
pub fn copy_penalties(kinds: &Vec<Penalty>) -> (copy: Vec<Penalty>)
    ensures
        copy@ == kinds@,
{
    let mut copy: Vec<Penalty> = Vec::new();
    let mut i: usize = 0;
    while i < kinds.len()
        invariant
            i <= kinds.len(),
            copy@ == kinds@.take(i as int),
        decreases kinds.len() - i,
    {
        copy.push(kinds[i]);
        proof {
            assert(kinds@.take(i + 1) =~= kinds@.take(i as int).push(kinds@[i as int]));
        }
        i += 1;
    }
    proof {
        assert(kinds@.take(kinds@.len() as int) =~= kinds@);
    }
    copy
}

} // verus!
