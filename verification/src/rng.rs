//! The random stream the library draws from.
use rand::distributions::{Distribution, Uniform};
use rand::rngs::SmallRng;
use vstd::prelude::*;

verus! {

/// Trusted: `rand::rngs::SmallRng`, the generator that every draw is made
/// from. The library hands it on and never looks inside.
#[verifier::external_type_specification]
#[verifier::external_body]
pub struct ExSmallRng(SmallRng);

/// Trusted: `Uniform::new(0u8, bound).sample(rng)` of the `rand` crate. The
/// sampler is documented to draw from the half-open range, so the value lies
/// below `bound`; which value comes depends on the stream, and nothing is
/// claimed of that. `Uniform::new` panics on an empty range, hence `bound > 0`.
#[verifier::external_body]
pub(crate) fn draw_below_u8(rng: &mut SmallRng, bound: u8) -> (r: u8)
    requires
        bound > 0,
    ensures
        r < bound,
{
    Uniform::new(0u8, bound).sample(rng)
}

/// Trusted: `Uniform::new(0usize, bound).sample(rng)` of the `rand` crate, with
/// the same claim as for the byte-sized draw: the value lies below `bound`.
#[verifier::external_body]
pub(crate) fn draw_below(rng: &mut SmallRng, bound: usize) -> (r: usize)
    requires
        bound > 0,
    ensures
        r < bound,
{
    Uniform::new(0usize, bound).sample(rng)
}

} // verus!
