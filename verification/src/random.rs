//! The source of randomness that every stochastic step draws from.

use vstd::prelude::*;

verus! {

/// The thread-local generator of the `rand` crate. Nothing is known of its state.
#[verifier::external_type_specification]
#[verifier::external_body]
pub struct ExThreadRng(rand::rngs::ThreadRng);

/// `rand::rng` hands out a handle to the thread-local generator. Nothing is
/// claimed of the handle.
pub assume_specification[ rand::rng ]() -> (rng: rand::rngs::ThreadRng);

/// Draws a position from `low..high` with `rand::Rng::random_range`.
///
/// The range given must not be empty, since the draw panics on an empty range.
/// All that is claimed of the result is that it lies in the range.
#[verifier::external_body]
pub(crate) fn random_index(rng: &mut rand::rngs::ThreadRng, low: usize, high: usize) -> (index: usize)
    requires
        low < high,
    ensures
        low <= index < high,
{
    rand::Rng::random_range(rng, low..high)
}

} // verus!
