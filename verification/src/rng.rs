//! Trusted draws from the process random-number generator.

use vstd::prelude::*;

verus! {

/// Relies on `rand::random`: a fresh 64-bit value.  Nothing can be promised
/// of a random draw.
#[verifier::external_body]
pub(crate) fn random_u64() -> u64 {
    rand::random::<u64>()
}

/// Relies on `rand::random`: a fresh 128-bit value.
#[verifier::external_body]
pub(crate) fn random_u128() -> u128 {
    rand::random::<u128>()
}

} // verus!
