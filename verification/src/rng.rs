//! The library's one source of randomness: drawing an index below a bound.
//! Hand dealing, replacement draws, random map picks and room-code
//! generation all go through it.

use vstd::prelude::*;

verus! {

/// Relies on rand::Rng::gen_range over `0..n`: returns a uniformly drawn
/// value of the range, and panics only when the range is empty.
#[verifier::external_body]
pub(crate) fn random_index(n: usize) -> (r: usize)
    requires
        n > 0,
    ensures
        r < n,
{
    rand::Rng::gen_range(&mut rand::thread_rng(), 0..n)
}

} // verus!
