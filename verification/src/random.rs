//! The random source that measurements draw from.
use rand::rngs::StdRng;
use rand::Rng;
use vstd::prelude::*;

verus! {

/// `rand::rngs::StdRng`, the seedable generator of the `rand` crate. Nothing
/// of its state is visible to the proofs.
#[verifier::external_type_specification]
#[verifier::external_body]
pub struct ExStdRng(rand::rngs::StdRng);

/// Draws the next 64-bit word with `rand::Rng::gen::<u64>`, which for this
/// generator is its `next_u64`. The call advances the generator and cannot
/// fail; nothing is claimed of the word drawn.
#[verifier::external_body]
pub(crate) fn next_word(rng: &mut StdRng) -> (word: u64) {
    rng.gen::<u64>()
}

} // verus!
