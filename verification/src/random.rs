//! Random words, from the thread's generator.

use vstd::prelude::*;

verus! {

/// `rand::random::<u32>()`: a word drawn from the calling thread's generator.
/// Any word may come back, and two calls may differ.
#[verifier::external_body]
pub(crate) fn random_u32() -> u32 {
    rand::random::<u32>()
}

/// `rand::random::<u8>()`: a byte drawn from the calling thread's generator.
/// Any byte may come back, and two calls may differ.
#[verifier::external_body]
pub(crate) fn random_u8() -> u8 {
    rand::random::<u8>()
}

} // verus!
