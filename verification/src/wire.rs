//! Byte framing for the protocol's messages.
//!
//! Every message is one frame: a vector of ElGamal ciphertexts is the
//! concatenation of the 32-byte canonical encodings of its points; a
//! Paillier ciphertext is the little-endian bytes of its value; a boolean is
//! a single byte, `0` or `1`.  A ciphertext vector carries one entry per
//! encoded bit position — `l + 2` of them for the working bit-width `l`,
//! the two extra positions holding the spread the distance-two encoding
//! needs.  The framing itself is verified; what the bytes of a point encode
//! is opaque (see [`crate::group`]).

use vstd::prelude::*;
use crate::CompareError;
use crate::elgamal::{ct_wf, EgCiphertext};
use crate::group::{pt_compress, pt_decompress};

verus! {

/// Encodes a vector of ciphertexts as the concatenation of its points'
/// canonical encodings.
pub fn cts_to_bytes(v: &Vec<EgCiphertext>) -> (r: Vec<u8>)
    ensures
        r@.len() == 64 * v@.len(),
{
    let mut out: Vec<u8> = Vec::new();
    let mut j: usize = 0;
    while j < v.len()
        invariant
            j <= v@.len(),
            out@.len() == 64 * j as nat,
        decreases v@.len() - j,
    {
        let b1 = pt_compress(&v[j].c1);
        let b2 = pt_compress(&v[j].c2);
        let mut t: usize = 0;
        while t < 32
            invariant
                t <= 32,
                b1@.len() == 32,
                out@.len() == 64 * j as nat + t as nat,
            decreases 32 - t,
        {
            out.push(b1[t]);
            t = t + 1;
        }
        let mut t2: usize = 0;
        while t2 < 32
            invariant
                t2 <= 32,
                b2@.len() == 32,
                out@.len() == 64 * j as nat + 32 + t2 as nat,
            decreases 32 - t2,
        {
            out.push(b2[t2]);
            t2 = t2 + 1;
        }
        j = j + 1;
    }
    out
}

/// Copies the 32-byte block starting at `start` out of `b`.
fn take_point_bytes(b: &Vec<u8>, start: usize) -> (r: Vec<u8>)
    requires
        start + 32 <= b@.len(),
        b@.len() <= usize::MAX,
    ensures
        r@.len() == 32,
{
    let mut out: Vec<u8> = Vec::new();
    let mut t: usize = 0;
    while t < 32
        invariant
            t <= 32,
            start + 32 <= b@.len(),
            b@.len() <= usize::MAX,
            out@.len() == t as nat,
        decreases 32 - t,
    {
        out.push(b[start + t]);
        t = t + 1;
    }
    out
}

/// Decodes a frame into a vector of `count` well-formed ciphertexts.  A
/// frame of the wrong length, or bytes that are not a canonical point
/// encoding, are a deserialisation mismatch.
pub fn bytes_to_cts(b: &Vec<u8>, count: usize) -> (r: Result<Vec<EgCiphertext>, CompareError>)
    requires
        count <= 64,
    ensures
        r matches Ok(v) ==> {
            &&& v@.len() == count
            &&& forall|j: int| 0 <= j < count ==> #[trigger] ct_wf(v@[j])
        },
        r matches Err(e) ==> e == CompareError::TransportError,
{
    if b.len() != 64 * count {
        return Err(CompareError::TransportError);
    }
    let mut out: Vec<EgCiphertext> = Vec::new();
    let mut j: usize = 0;
    while j < count
        invariant
            j <= count,
            count <= 64,
            b@.len() == 64 * count,
            out@.len() == j as nat,
            forall|t: int| 0 <= t < j as int ==> #[trigger] ct_wf(out@[t]),
        decreases count - j,
    {
        let b1 = take_point_bytes(b, 64 * j);
        let b2 = take_point_bytes(b, 64 * j + 32);
        let p1 = match pt_decompress(b1.as_slice()) {
            Some(p) => p,
            None => {
                return Err(CompareError::TransportError);
            },
        };
        let p2 = match pt_decompress(b2.as_slice()) {
            Some(p) => p,
            None => {
                return Err(CompareError::TransportError);
            },
        };
        out.push(EgCiphertext { c1: p1, c2: p2 });
        j = j + 1;
    }
    Ok(out)
}

/// Encodes a boolean as a single byte.
pub fn bool_to_bytes(b: bool) -> (r: Vec<u8>)
    ensures
        r@.len() == 1,
        r@[0] == (if b {
            1u8
        } else {
            0u8
        }),
{
    let mut out: Vec<u8> = Vec::new();
    if b {
        out.push(1u8);
    } else {
        out.push(0u8);
    }
    out
}

/// Decodes a single-byte boolean frame.
pub fn bytes_to_bool(b: &Vec<u8>) -> (r: Result<bool, CompareError>)
    ensures
        b@.len() == 1 && b@[0] == 1u8 ==> r == Ok::<bool, CompareError>(true),
        b@.len() == 1 && b@[0] == 0u8 ==> r == Ok::<bool, CompareError>(false),
        !(b@.len() == 1 && (b@[0] == 0u8 || b@[0] == 1u8)) ==> r == Err::<
            bool,
            CompareError,
        >(CompareError::TransportError),
{
    if b.len() != 1 {
        return Err(CompareError::TransportError);
    }
    if b[0] == 1 {
        Ok(true)
    } else if b[0] == 0 {
        Ok(false)
    } else {
        Err(CompareError::TransportError)
    }
}

} // verus!
