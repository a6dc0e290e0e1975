//! The source of chance from which the mines are laid.

use rand::rngs::ThreadRng;
use rand::Rng;
use vstd::prelude::*;

verus! {

/// `rand::rngs::ThreadRng`, the generator that each thread has for itself.
#[verifier::external_type_specification]
#[verifier::external_body]
pub struct ExThreadRng(ThreadRng);

/// `Rng::gen_range` on the range from zero up to, but not including, `bound`.
/// The generator picks the number, so all that is known of it is that it lies
/// in the range. An empty range is left out: `gen_range` panics on it.
#[verifier::external_body]
pub(crate) fn roll(rng: &mut ThreadRng, bound: i32) -> (n: i32)
    requires
        0 < bound,
    ensures
        0 <= n < bound,
{
    rng.gen_range(0..bound)
}

} // verus!
