//! Random numbers.

use rand::RngExt;
use vstd::prelude::*;

verus! {

/// `rand::RngExt::random_range` on the generator of the thread, for the range that starts at zero
/// and ends with `most`: some number of that range. Which one is left to chance.
#[verifier::external_body]
pub(crate) fn random_up_to(most: u32) -> (number: u32)
    ensures
        number <= most,
{
    rand::rng().random_range(0..=most)
}

/// `rand::random`: some number of the whole range. Which one is left to chance.
#[verifier::external_body]
pub(crate) fn random_number() -> (number: u128) {
    rand::random::<u128>()
}

} // verus!
