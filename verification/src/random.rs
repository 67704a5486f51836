use vstd::prelude::*;
use rand::Rng;

verus! {

/// Draws a uniformly random index below `bound` from the thread-local
/// generator of `rand` (`Rng::gen_range` over `0..bound`).
/// Trusted: the result is only promised to lie below `bound`; `gen_range`
/// panics on an empty range, which `requires` leaves out.
#[verifier::external_body]
pub(crate) fn random_below(bound: usize) -> (r: usize)
    requires
        bound > 0,
    ensures
        r < bound,
{
    rand::thread_rng().gen_range(0..bound)
}

/// Draws a random `bool` from the thread-local generator of `rand`
/// (`Rng::gen::<bool>()`, a fair coin). Nothing is promised of the result.
#[verifier::external_body]
pub(crate) fn random_bool() -> bool {
    rand::thread_rng().gen::<bool>()
}

} // verus!
