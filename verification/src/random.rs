//! The random number generator, which comes from the `rand` crate. What
//! stands here is believed of `rand`, not proved.

use vstd::prelude::*;
use rand::rngs::ThreadRng;
use rand::Rng;

verus! {

/// `rand`'s handle to the random number generator of the current thread.
#[verifier::external_type_specification]
#[verifier::external_body]
pub struct ExThreadRng(ThreadRng);

/// `rand::thread_rng`: hands out the generator of the current thread. It
/// takes no argument and panics only where the system cannot seed the
/// generator. Nothing is claimed of the handle.
pub assume_specification[ rand::thread_rng ]() -> (rng: ThreadRng)
;

/// `rand::Rng::gen_ratio` on the thread's generator: a random `bool` that is
/// `true` with probability `numerator / denominator`. It panics on a zero
/// denominator and on a numerator above the denominator, so both are ruled
/// out. Of the outcome only the two certain cases are claimed: never `true`
/// for a zero numerator, always `true` for a numerator equal to the
/// denominator.
#[verifier::external_body]
pub(crate) fn gen_ratio(rng: &mut ThreadRng, numerator: u32, denominator: u32) -> (hit: bool)
    requires
        denominator > 0,
        numerator <= denominator,
    ensures
        numerator == 0 ==> !hit,
        numerator == denominator ==> hit,
{
    rng.gen_ratio(numerator, denominator)
}

} // verus!
