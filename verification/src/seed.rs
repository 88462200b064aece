//! The coin that decides what each patch of a new field does.

use vstd::prelude::*;
use rand::rngs::ThreadRng;
use rand::Rng;
use crate::patch::Strategy;

verus! {

/// `rand::rngs::ThreadRng`, a handle to the random number generator of the
/// calling thread. Nothing is known of what it holds.
#[verifier::external_type_specification]
#[verifier::external_body]
pub struct ExThreadRng(rand::rngs::ThreadRng);

/// `rand::thread_rng` hands out a handle to the generator of the calling
/// thread, which the system seeds when the thread first asks for it.
/// Nothing is claimed of the handle.
pub assume_specification[ rand::thread_rng ]() -> (generator: ThreadRng);

/// `Rng::gen_ratio` on the thread's generator: `true` with a chance of
/// `numerator` in `denominator`. It panics on a denominator of zero and on
/// a numerator above the denominator; these are left out, and so are the
/// odds at which the outcome is certain. Of the outcome nothing is claimed.
#[verifier::external_body]
fn ratio_toss(generator: &mut ThreadRng, numerator: u32, denominator: u32) -> (heads: bool)
    requires
        0 < numerator < denominator,
{
    generator.gen_ratio(numerator, denominator)
}

impl Strategy {
    /// A strategy drawn from `generator` by a fair coin: helping and
    /// leeching are equally likely.
    pub fn sample(generator: &mut ThreadRng) -> (strategy: Strategy) {
        Strategy::from_coin(ratio_toss(generator, 1, 2))
    }
}

} // verus!
