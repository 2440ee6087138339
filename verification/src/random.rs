//! The one source of randomness the library draws on. The result of a draw
//! depends on a thread-local generator, so nothing more is promised of it
//! than its range.

use vstd::prelude::*;

verus! {

/// Relies on rand::random_range over `0..bound`: the draw is uniform over the
/// range and always lies inside it.
#[verifier::external_body]
pub fn random_below(bound: usize) -> (r: usize)
    requires
        1 <= bound,
    ensures
        r < bound,
{
    rand::random_range(0..bound)
}

} // verus!
