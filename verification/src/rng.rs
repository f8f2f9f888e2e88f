//! Trusted wrapper over the injected random number generator.
//!
//! The node owns a `rand::rngs::StdRng` chosen at construction, so tests
//! and hosts can seed it. Nothing can be promised about a random draw.

use vstd::prelude::*;
use rand::RngCore;

verus! {

/// `rand::rngs::StdRng`, opaque to the verifier.
#[verifier::external_type_specification]
#[verifier::external_body]
pub struct ExStdRng(rand::rngs::StdRng);

/// Relies on `rand::RngCore::next_u64`; the draw is random, so nothing
/// is stated about it.
#[verifier::external_body]
pub(crate) fn next_u64(rng: &mut rand::rngs::StdRng) -> u64 {
    rng.next_u64()
}

} // verus!
