use vstd::prelude::*;

verus! {

/// rltk's random number generator, carried through the generators as an
/// opaque value.
#[verifier::external_type_specification]
#[verifier::external_body]
pub struct ExRandomNumberGenerator(rltk::RandomNumberGenerator);

/// Relies on rltk::RandomNumberGenerator::new: a generator seeded from the
/// system's entropy source, or from the clock where that fails. Nothing is
/// assumed of the seed.
#[verifier::external_body]
pub(crate) fn new_rng() -> (r: rltk::RandomNumberGenerator) {
    rltk::RandomNumberGenerator::new()
}

/// Relies on rltk::RandomNumberGenerator::range, which draws through rand's
/// `gen_range(min..max)`: a value of the half-open range `[min, max)`. An empty
/// range panics there, so it is ruled out.
#[verifier::external_body]
pub(crate) fn range(rng: &mut rltk::RandomNumberGenerator, min: i32, max: i32) -> (r: i32)
    requires
        min < max,
    ensures
        min <= r < max,
{
    rng.range(min, max)
}

/// Relies on rltk::RandomNumberGenerator::roll_dice: the sum of `n` draws of
/// `range(1, die_type + 1)`, each from `1` to `die_type` inclusive. The bounds
/// keep `die_type + 1` and the sum from overflowing.
#[verifier::external_body]
pub(crate) fn roll_dice(rng: &mut rltk::RandomNumberGenerator, n: i32, die_type: i32) -> (r: i32)
    requires
        0 <= n,
        1 <= die_type < i32::MAX,
        n * die_type <= i32::MAX,
    ensures
        n <= r <= n * die_type,
{
    rng.roll_dice(n, die_type)
}

} // verus!
