use rand::Rng;
use vstd::prelude::*;

verus! {

/// The simulation's seeded random number generator, `rand::rngs::StdRng`.
#[verifier::external_type_specification]
#[verifier::external_body]
pub struct ExStdRng(rand::rngs::StdRng);

/// Draws a number from `0..bound` with `rand::Rng::gen_range`.
///
/// rand documents that `gen_range` on a half-open range returns a value
/// inside the range and panics when the range is empty; nothing is stated
/// of which value comes out, since it depends on the generator's state.
#[verifier::external_body]
pub(crate) fn draw_below(rng: &mut rand::rngs::StdRng, bound: usize) -> (r: usize)
    requires
        bound > 0,
    ensures
        r < bound,
{
    rng.gen_range(0..bound)
}

/// Draws a number from `0..bound` with `rand::Rng::gen_range` on `i32`,
/// the type an untyped integer range takes.
///
/// rand documents that `gen_range` on a half-open range returns a value
/// inside the range and panics when the range is empty; nothing is stated
/// of which value comes out, since it depends on the generator's state.
#[verifier::external_body]
pub(crate) fn draw_i32_below(rng: &mut rand::rngs::StdRng, bound: i32) -> (r: i32)
    requires
        bound > 0,
    ensures
        0 <= r < bound,
{
    rng.gen_range(0..bound)
}

} // verus!
