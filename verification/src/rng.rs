//! The seeded random source that generation and combat draw from.
//!
//! Nothing is proved about the generator itself: each function below states
//! only the range that its outside counterpart documents.

use vstd::prelude::*;
use bracket_lib::random::RandomNumberGenerator;

verus! {

/// `bracket_lib`'s random number generator, carried around as a value that
/// cannot be looked into.
#[verifier::external_type_specification]
#[verifier::external_body]
pub struct ExRandomNumberGenerator(RandomNumberGenerator);

/// `RandomNumberGenerator::range` on `i32`: a value from `min` up to but not
/// including `max`. The outside function rejects an empty range, so `min < max`
/// is required.
#[verifier::external_body]
pub(crate) fn range(rng: &mut RandomNumberGenerator, min: i32, max: i32) -> (r: i32)
    requires
        min < max,
    ensures
        min <= r < max,
{
    rng.range(min, max)
}

/// `RandomNumberGenerator::roll_dice` for a single die: a value from 1 to
/// `sides` inclusive. The outside function samples from `1..sides + 1`, which
/// must be a non-empty range that does not overflow.
#[verifier::external_body]
pub(crate) fn roll_die(rng: &mut RandomNumberGenerator, sides: i32) -> (r: i32)
    requires
        1 <= sides < i32::MAX,
    ensures
        1 <= r <= sides,
{
    rng.roll_dice(1, sides)
}

/// `RandomNumberGenerator::rand` on `bool`: a coin flip. Either value may come
/// back.
#[verifier::external_body]
pub(crate) fn coin(rng: &mut RandomNumberGenerator) -> (r: bool)
{
    rng.rand::<bool>()
}

} // verus!
