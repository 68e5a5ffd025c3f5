//! The source of randomness: the thread-local generator of `rand`.
//!
//! Nothing here is proved. The contracts say what every outcome of a draw
//! satisfies, never which outcome comes.

use rand::rngs::ThreadRng;
use rand::Rng;
use vstd::prelude::*;

verus! {

/// `rand::rngs::ThreadRng`, the handle to the generator of the current
/// thread. Its state is not visible to the proofs.
#[verifier::external_type_specification]
#[verifier::external_body]
pub struct ExThreadRng(rand::rngs::ThreadRng);

/// `rand::thread_rng` hands out the generator of the current thread, seeded
/// by the operating system. Nothing is claimed of the handle. The first call
/// on a thread aborts if the operating system gives no seed.
pub assume_specification[ rand::thread_rng ]() -> (rng: ThreadRng)
;

/// `Rng::gen_range` on the half-open range `0..bound`: some index below
/// `bound`. The range must not be empty, else `gen_range` panics. Which index
/// comes is up to the generator, so two calls may differ.
#[verifier::external_body]
pub(crate) fn random_below(rng: &mut ThreadRng, bound: usize) -> (j: usize)
    requires
        bound > 0,
    ensures
        j < bound,
{
    rng.gen_range(0..bound)
}

} // verus!
