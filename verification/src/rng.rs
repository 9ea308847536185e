//! Random numbers, from the `rand` crate.
use vstd::prelude::*;
use rand::Rng;
use rand::rngs::ThreadRng;

verus! {

/// The generator of the current thread, as `rand` hands it out. Nothing is
/// known of its state.
#[verifier::external_type_specification]
#[verifier::external_body]
pub struct ExThreadRng(ThreadRng);

/// `rand::rng`: a handle to the generator of the current thread. Nothing is
/// claimed of it. It panics only when the operating system cannot seed the
/// generator.
pub assume_specification[ rand::rng ]() -> (rng: ThreadRng)
;

/// `Rng::random_range` on `low..high`: some number of that range. Which one
/// is left open. The range must not be empty, or the call would panic; it
/// panics besides only when the operating system cannot reseed the generator.
#[verifier::external_body]
pub(crate) fn random_range(rng: &mut ThreadRng, low: i64, high: i64) -> (r: i64)
    requires
        low < high,
    ensures
        low <= r < high,
{
    rng.random_range(low..high)
}

} // verus!
