//! Random choices, made by the `rand` crate. Nothing here is proved: each
//! contract states what the source of the called function shows.

use rand::rngs::StdRng;
use rand::seq::IndexedRandom;
use rand::SeedableRng;
use vstd::prelude::*;

verus! {

/// The pseudo-random generator `rand::rngs::StdRng`, carried as it is.
#[verifier::external_type_specification]
#[verifier::external_body]
pub struct ExStdRng(StdRng);

/// The sum of the weights of the entries, each entry being an index and its
/// weight.
pub open spec fn total_weight(entries: Seq<(usize, u128)>) -> int
    decreases entries.len(),
{
    if entries.len() == 0 {
        0
    } else {
        total_weight(entries.drop_last()) + entries.last().1
    }
}

/// The sum of the weights is zero exactly where every weight is, and it is
/// at most the number of entries times the largest weight among them.
pub proof fn lemma_total_weight(entries: Seq<(usize, u128)>, bound: int)
    requires
        forall|i: int| 0 <= i < entries.len() ==> (#[trigger] entries[i]).1 <= bound,
    ensures
        0 <= total_weight(entries) <= entries.len() * bound,
        total_weight(entries) == 0 <==> forall|i: int|
            0 <= i < entries.len() ==> (#[trigger] entries[i]).1 == 0,
    decreases entries.len(),
{
    if entries.len() > 0 {
        let front = entries.drop_last();
        assert forall|i: int| 0 <= i < front.len() implies (#[trigger] front[i]).1 <= bound by {
            assert(front[i] == entries[i]);
        }
        lemma_total_weight(front, bound);
        assert(entries.len() * bound == front.len() * bound + bound) by (nonlinear_arith)
            requires
                entries.len() == front.len() + 1,
        ;
        if total_weight(entries) == 0 {
            assert forall|i: int| 0 <= i < entries.len() implies (#[trigger] entries[i]).1
                == 0 by {
                if i < front.len() {
                    assert(front[i] == entries[i]);
                }
            }
        } else {
            if total_weight(front) != 0 {
                let i = choose|i: int| 0 <= i < front.len() && (#[trigger] front[i]).1 != 0;
                assert(front[i] == entries[i]);
            }
        }
    }
}

/// The generator that `StdRng::seed_from_u64` makes of a seed.
pub uninterp spec fn seeded_generator(seed: u64) -> StdRng;

/// Calls `StdRng::seed_from_u64`, which expands the seed to the bytes that
/// the generator starts from. The generator that comes back depends on the
/// seed alone: that is all that is claimed of it.
#[verifier::external_body]
pub(crate) fn seeded_rng(seed: u64) -> (rng: StdRng)
    ensures
        rng == seeded_generator(seed),
{
    StdRng::seed_from_u64(seed)
}

/// Calls `StdRng::try_from_os_rng`, which asks the operating system for the
/// bytes that the generator starts from. The call fails where the operating
/// system gives none, and then nothing comes back. Nothing is claimed of the
/// generator, nor of when the call succeeds.
#[verifier::external_body]
pub(crate) fn entropy_rng() -> Option<StdRng> {
    StdRng::try_from_os_rng().ok()
}

/// Calls `IndexedRandom::choose_weighted` on the entries, with the second
/// component of an entry as its weight. The call fails, and nothing is
/// picked, where there is no entry, where all weights are zero, or where the
/// sum of the weights does not fit in `u128`. Otherwise it hands out one of
/// the entries, and never one of weight zero. How likely each entry is, is
/// not stated here.
#[verifier::external_body]
pub(crate) fn choose_weighted_entry(rng: &mut StdRng, entries: &Vec<(usize, u128)>) -> (picked:
    Option<(usize, u128)>)
    ensures
        picked is None <==> (total_weight(entries@) == 0 || total_weight(entries@) > u128::MAX),
        picked matches Some(entry) ==> entries@.contains(entry) && entry.1 > 0,
{
    entries.choose_weighted(rng, |entry| entry.1).ok().copied()
}

/// Calls `IndexedRandom::choose` on the entries: nothing where there is no
/// entry, otherwise one of the entries. How likely each entry is, is not
/// stated here.
#[verifier::external_body]
pub(crate) fn choose_entry(rng: &mut StdRng, entries: &Vec<usize>) -> (picked: Option<usize>)
    ensures
        picked is None <==> entries@.len() == 0,
        picked matches Some(entry) ==> entries@.contains(entry),
{
    entries.choose(rng).copied()
}

} // verus!
