//! Random numbers from a seed.
use glam::DVec2;
use rand::rngs::StdRng;
use rand::{Rng, SeedableRng};
use vstd::prelude::*;

use crate::geometry::{is_at_most, is_less, splat_of, zero};

verus! {

/// A generator of random numbers, from `rand`.
#[verifier::external_type_specification]
#[verifier::external_body]
pub struct ExStdRng(rand::rngs::StdRng);

/// All generators that `StdRng::seed_from_u64` may give for a seed, on one platform or another.
pub uninterp spec fn generators_for(seed: u64) -> Set<StdRng>;

/// Calls `StdRng::seed_from_u64`. The generator is only said to be one of those that may be given for the seed: which
/// one may differ from one platform to another.
#[verifier::external_body]
pub(crate) fn seeded(seed: u64) -> (generator: StdRng)
    ensures
        generators_for(seed).contains(generator),
{
    StdRng::seed_from_u64(seed)
}

/// All numbers, in both coordinates, that `Rng::random` may give for a generator, each with the generator as it is
/// left, on one platform or another.
pub uninterp spec fn draws_from(generator: StdRng) -> Set<(DVec2, StdRng)>;

/// Calls `Rng::random` for a number from zero to below one, and gives it in both coordinates. The number and the
/// generator as it is left are only said to be some that may come of the generator.
#[verifier::external_body]
pub(crate) fn random_fraction(generator: &mut StdRng) -> (number: DVec2)
    ensures
        draws_from(*old(generator)).contains((number, *final(generator))),
        is_at_most(zero(), number),
        is_less(number, splat_of(1)),
{
    DVec2::splat(generator.random())
}

/// Whether a number is from zero to below one.
pub open spec fn is_fraction(number: DVec2) -> bool {
    is_at_most(zero(), number) && is_less(number, splat_of(1))
}

/// Whether numbers are drawn one after the other from generators, each of which is left by the draw before, and each
/// number is from zero to below one.
pub open spec fn are_drawn(generators: Seq<StdRng>, numbers: Seq<DVec2>) -> bool {
    &&& generators.len() == numbers.len() + 1
    &&& forall|i: int|
        0 <= i < numbers.len() ==> {
            &&& is_fraction(#[trigger] numbers[i])
            &&& draws_from(generators[i]).contains((numbers[i], generators[i + 1]))
        }
}

/// Whether numbers are those drawn first from a generator with the seed.
pub open spec fn are_drawn_for(seed: u64, generators: Seq<StdRng>, numbers: Seq<DVec2>) -> bool {
    are_drawn(generators, numbers) && generators_for(seed).contains(generators[0])
}

/// One more draw from the generator that the last one has left.
pub(crate) proof fn lemma_draw(generators: Seq<StdRng>, numbers: Seq<DVec2>, number: DVec2, left: StdRng)
    requires
        are_drawn(generators, numbers),
        is_fraction(number),
        draws_from(generators.last()).contains((number, left)),
    ensures
        are_drawn(generators.push(left), numbers.push(number)),
        generators.push(left)[0] == generators[0],
        generators.push(left).last() == left,
{
    let more = numbers.push(number);
    let after = generators.push(left);
    assert forall|i: int| 0 <= i < more.len() implies {
        &&& is_fraction(#[trigger] more[i])
        &&& draws_from(after[i]).contains((more[i], after[i + 1]))
    } by {
        if i < numbers.len() {
            assert(more[i] == numbers[i]);
        }
    }
}

} // verus!
