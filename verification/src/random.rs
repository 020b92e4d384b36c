//! Random numbers.

use vstd::prelude::*;
use rand::Rng;

verus! {

/// A random 64-bit number: `Rng::gen` on `rand`'s generator of the current
/// thread. Nothing is claimed of the value. The generator takes its seed
/// from the operating system in two places: when a thread first asks for
/// it, and when it is seeded anew, after a set amount of output or after
/// the process has forked. In both places it panics where the operating
/// system gives it no seed.
#[verifier::external_body]
pub(crate) fn random_u64() -> (r: u64) {
    rand::thread_rng().gen::<u64>()
}

} // verus!
