//! The random draws that mutation and crash naming rest on.
//!
//! Nothing here is proved. Each function hands one request to the `rand`
//! crate and states only what holds of every value that can come back.

use vstd::prelude::*;
use rand::Rng;

verus! {

/// `rand::rngs::ThreadRng`, the handle to the calling thread's generator.
/// Its state is opaque to the verifier.
#[verifier::external_type_specification]
#[verifier::external_body]
pub struct ExThreadRng(rand::rngs::ThreadRng);

/// Calls `Rng::gen_range(0, bound)`, which samples the half-open range
/// `[0, bound)` and panics when the range is empty. Claimed: the index drawn
/// lies below `bound`. Which one it is stays unknown.
#[verifier::external_body]
pub(crate) fn draw_below(rng: &mut rand::rngs::ThreadRng, bound: usize) -> (index: usize)
    requires
        bound > 0,
    ensures
        index < bound,
{
    rng.gen_range(0, bound)
}

/// Calls `Rng::gen::<u8>()`. Any byte may come back, so nothing is claimed.
#[verifier::external_body]
pub(crate) fn draw_byte(rng: &mut rand::rngs::ThreadRng) -> (value: u8) {
    rng.gen::<u8>()
}

/// Calls `Rng::gen::<u32>()`. Any value may come back, so nothing is claimed.
#[verifier::external_body]
pub(crate) fn draw_tag(rng: &mut rand::rngs::ThreadRng) -> (tag: u32) {
    rng.gen::<u32>()
}

} // verus!
