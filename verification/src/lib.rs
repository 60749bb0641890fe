//! Two-party secure integer comparison.
//!
//! Alice and Bob jointly compute the single bit `i > j` over two integers of a
//! fixed bit-width, without either party learning the other's input.  A
//! plaintext variant runs a DGK-style bitwise comparison over additively
//! homomorphic curve-ElGamal ciphertexts; an encrypted variant reduces the
//! comparison of two Paillier ciphertexts to the plaintext variant through
//! additive blinding and division by a power of two.

use vstd::prelude::*;

pub mod alice;
pub mod bits;
pub mod bob;
pub mod channel;
pub mod elgamal;
pub mod group;
pub mod paillier;
pub mod rng;
pub mod session;
pub mod utils;
pub mod wire;

verus! {

/// The default working bit-width: inputs to the encrypted comparison are
/// integers in `[0, 2^L)`.
pub const L: u32 = 32;

/// How a failed protocol run is reported to the caller.
#[derive(Debug, Clone, Copy, PartialEq, Eq, Structural)]
pub enum CompareError {
    /// The channel closed early, or a frame could not be decoded.
    TransportError,
    /// A protocol invariant was violated: a decrypted value outside its
    /// honest range, a received vector of the wrong shape, or a modulus
    /// incompatible with the bit-width (the last is detected at entry,
    /// deterministically, before any message is exchanged).
    InvariantError,
    /// An input was rejected at entry: a plaintext of at least `2^L`, or a
    /// sign selector outside `{-1, +1}`.
    InputError,
}

} // verus!
