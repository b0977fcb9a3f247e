//! The random source of level generation and spawning: the generator of
//! the current thread.

use vstd::prelude::*;
use rand::rngs::ThreadRng;
use rand::seq::SliceRandom;
use rand::Rng;
use crate::position::Position;

verus! {

/// The handle of `rand` to the random number generator of the current
/// thread. Nothing is known of the numbers that it will give.
#[verifier::external_type_specification]
#[verifier::external_body]
pub struct ExThreadRng(ThreadRng);

/// `rand::thread_rng`: the handle to the generator of the current thread.
/// Nothing is claimed of it.
pub assume_specification[ rand::thread_rng ]() -> ThreadRng;

/// Calls `Rng::gen_range` of `rand` with the half-open range `low..high`.
/// `rand` panics on an empty range, which `requires` leaves out; of the
/// number drawn only its range is claimed.
#[verifier::external_body]
pub(crate) fn gen_range(rng: &mut ThreadRng, low: i32, high: i32) -> (n: i32)
    requires
        low < high,
    ensures
        low <= n < high,
{
    rng.gen_range(low..high)
}

/// Calls `SliceRandom::shuffle` of `rand` on the positions. Of the new
/// order nothing is claimed but that it holds the same positions, each as
/// often as before.
#[verifier::external_body]
pub(crate) fn shuffle(rng: &mut ThreadRng, positions: &mut Vec<Position>)
    ensures
        final(positions)@.to_multiset() == old(positions)@.to_multiset(),
{
    positions.shuffle(rng)
}

} // verus!
