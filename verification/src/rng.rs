//! Trusted boundary around the random number generator.
//!
//! Every draw the engine makes goes through one of the wrappers below, so a
//! seedable generator can be threaded explicitly through the whole run.  The
//! contracts state only what holds of every possible outcome of a draw.

use vstd::prelude::*;

verus! {

#[verifier::external_type_specification]
#[verifier::external_body]
pub struct ExStdRng(rand::rngs::StdRng);

/// Relies on rand::Rng::gen_range over a `u64` half-open range: the result
/// is drawn from `lo..hi`, and the call panics only on an empty range.
#[verifier::external_body]
pub fn draw_range(rng: &mut rand::rngs::StdRng, lo: u64, hi: u64) -> (r: u64)
    requires
        lo < hi,
    ensures
        lo <= r < hi,
{
    rand::Rng::gen_range(rng, lo..hi)
}

/// Relies on rand::seq::index::sample: it returns exactly `amount` distinct
/// indices drawn from `0..length`, and panics only when `amount > length`.
#[verifier::external_body]
pub fn draw_distinct_indices(rng: &mut rand::rngs::StdRng, length: usize, amount: usize) -> (r:
    Vec<usize>)
    requires
        amount <= length,
    ensures
        r@.len() == amount,
        forall|k: int| 0 <= k < r@.len() ==> r@[k] < length,
        forall|k: int, l: int| 0 <= k < l < r@.len() ==> r@[k] != r@[l],
{
    rand::seq::index::sample(rng, length, amount).into_vec()
}

/// Relies on rand::RngCore::next_u32; nothing is promised of the value.
#[verifier::external_body]
pub fn draw_u32(rng: &mut rand::rngs::StdRng) -> u32 {
    rand::RngCore::next_u32(rng)
}

} // verus!
