//! Pairs of numbers and of neighbours, as `itertools` forms them.

use vstd::prelude::*;
use itertools::Itertools;
use crate::position::Position;

verus! {

/// Calls `Itertools::cartesian_product` of `itertools` on the ranges
/// `first_low..=first_high` and `second_low..=second_high` and collects the
/// pairs. They come with the first number at its lowest and the second
/// running through its range, then the first number one higher, and so on.
#[verifier::external_body]
pub(crate) fn cartesian_product(
    first_low: i32,
    first_high: i32,
    second_low: i32,
    second_high: i32,
) -> (pairs: Vec<(i32, i32)>)
    requires
        first_low <= first_high,
        second_low <= second_high,
        (first_high - first_low + 1) * (second_high - second_low + 1) <= usize::MAX,
    ensures
        pairs@.len() == (first_high - first_low + 1) * (second_high - second_low + 1),
        forall|k: int|
            0 <= k < pairs@.len() ==> (#[trigger] pairs@[k]).0 == first_low + k / (second_high
                - second_low + 1) && pairs@[k].1 == second_low + k % (second_high - second_low + 1),
{
    Itertools::cartesian_product(first_low..=first_high, second_low..=second_high).collect()
}

/// Calls `Itertools::tuple_windows` of `itertools` on the positions and
/// collects the pairs: each position with the one that follows it, in
/// order. Fewer than two positions give no pair.
#[verifier::external_body]
pub(crate) fn tuple_windows(positions: &Vec<Position>) -> (pairs: Vec<(Position, Position)>)
    ensures
        pairs@.len() == (if positions@.len() == 0 { 0 } else { positions@.len() - 1 }),
        forall|k: int|
            0 <= k < pairs@.len() ==> (#[trigger] pairs@[k]).0 == positions@[k] && pairs@[k].1
                == positions@[k + 1],
{
    positions.iter().copied().tuple_windows().collect()
}

} // verus!
