//! The random draws of a generation run, taken from `rand`'s thread-local
//! generator. Nothing is promised of a draw but its range.
use vstd::prelude::*;

use rand::rngs::ThreadRng;
use rand::Rng;

verus! {

/// rand's handle on its thread-local generator, carried through opaquely.
#[verifier::external_type_specification]
#[verifier::external_body]
pub struct ExThreadRng(rand::rngs::ThreadRng);

/// Relies on rand::thread_rng: it hands out the thread's generator, and
/// nothing is promised of it.
pub assume_specification[ rand::thread_rng ]() -> rand::rngs::ThreadRng;

/// Relies on rand::Rng::gen_range over `0..bound`: the value lies in that
/// range. It panics on an empty range, which `requires` rules out.
#[verifier::external_body]
pub(crate) fn draw_below(rng: &mut ThreadRng, bound: u128) -> (r: u128)
    requires
        bound > 0,
    ensures
        r < bound,
{
    rng.gen_range(0..bound)
}

} // verus!
