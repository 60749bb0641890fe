//! Trusted model of the Ristretto prime-order group from `curve25519-dalek`.
//!
//! Every point is some multiple of the fixed base point; `pt_log` names that
//! multiple, reduced into `[0, ell)` where `ell` is the (prime) group order.
//! Likewise `sc_val` names the value in `[0, ell)` by which a scalar acts on
//! the group.  Each wrapper below states, over these two names, exactly what
//! the corresponding `curve25519-dalek` operation does to discrete
//! logarithms; the library's ElGamal layer is verified against these
//! contracts.

use vstd::prelude::*;
use curve25519_dalek::constants::RISTRETTO_BASEPOINT_TABLE;
use curve25519_dalek::ristretto::CompressedRistretto;
use curve25519_dalek::ristretto::RistrettoPoint;
use curve25519_dalek::scalar::Scalar;
use curve25519_dalek::traits::Identity;

verus! {

#[verifier::external_type_specification]
#[verifier::external_body]
pub struct ExRistrettoPoint(RistrettoPoint);

#[verifier::external_type_specification]
#[verifier::external_body]
pub struct ExScalar(Scalar);

/// The order of the Ristretto group: the prime
/// `2^252 + 27742317777372353535851937790883648493`.
pub open spec fn group_order() -> int {
    0x1000000000000000000000000000000014def9dea2f79cd65812631a5cf5d3edint
}

/// The discrete logarithm of a point with respect to the base point,
/// reduced into `[0, group_order())`.  Well defined because the Ristretto
/// group is cyclic of prime order and the base point generates it.
pub uninterp spec fn pt_log(p: RistrettoPoint) -> int;

/// The value in `[0, group_order())` by which a scalar acts on the group.
pub uninterp spec fn sc_val(s: Scalar) -> int;

/// Relies on the derived `Clone` for `RistrettoPoint`, a `Copy` type: the
/// clone is the same point.
pub assume_specification[ <RistrettoPoint as Clone>::clone ](p: &RistrettoPoint) -> (r:
    RistrettoPoint)
    ensures
        r == *p,
;

/// Relies on the derived `Clone` for `Scalar`, a `Copy` type: the clone is
/// the same scalar.
pub assume_specification[ <Scalar as Clone>::clone ](s: &Scalar) -> (r: Scalar)
    ensures
        r == *s,
;

/// Relies on `RistrettoPoint::identity`: the neutral element, whose discrete
/// logarithm is zero.
#[verifier::external_body]
pub(crate) fn pt_identity() -> (r: RistrettoPoint)
    ensures
        pt_log(r) == 0,
{
    RistrettoPoint::identity()
}

/// Relies on multiplication of the precomputed basepoint table by a scalar:
/// the result is the scalar's multiple of the base point.
#[verifier::external_body]
pub(crate) fn pt_base_mul(s: &Scalar) -> (r: RistrettoPoint)
    ensures
        pt_log(r) == sc_val(*s) && 0 <= pt_log(r) < group_order(),
{
    s * &RISTRETTO_BASEPOINT_TABLE
}

/// Relies on `Scalar::random`: a uniformly random scalar, canonical, so its
/// action value lies in `[0, group_order())`.
#[verifier::external_body]
pub(crate) fn sc_random() -> (s: Scalar)
    ensures
        0 <= sc_val(s) < group_order(),
{
    Scalar::random(&mut rand::rngs::OsRng)
}

/// Relies on `Scalar::from::<u128>`: the scalar acting as `u` reduced
/// modulo the group order.
#[verifier::external_body]
pub(crate) fn sc_from_u128(u: u128) -> (s: Scalar)
    ensures
        sc_val(s) == u as int % group_order(),
{
    Scalar::from(u)
}

/// Relies on point addition: discrete logarithms add modulo the group order.
#[verifier::external_body]
pub(crate) fn pt_add(a: &RistrettoPoint, b: &RistrettoPoint) -> (r: RistrettoPoint)
    ensures
        pt_log(r) == (pt_log(*a) + pt_log(*b)) % group_order(),
{
    a + b
}

/// Relies on point subtraction: discrete logarithms subtract modulo the
/// group order.
#[verifier::external_body]
pub(crate) fn pt_sub(a: &RistrettoPoint, b: &RistrettoPoint) -> (r: RistrettoPoint)
    ensures
        pt_log(r) == (pt_log(*a) - pt_log(*b)) % group_order(),
{
    a - b
}

/// Relies on scalar-point multiplication: the discrete logarithm is scaled
/// by the scalar's action value, modulo the group order.
#[verifier::external_body]
pub(crate) fn pt_scalar_mul(s: &Scalar, p: &RistrettoPoint) -> (r: RistrettoPoint)
    ensures
        pt_log(r) == (sc_val(*s) * pt_log(*p)) % group_order(),
{
    s * p
}

/// Relies on `PartialEq` for `RistrettoPoint` (constant-time comparison):
/// two points are equal exactly when they are the same multiple of the base
/// point.
#[verifier::external_body]
pub(crate) fn pt_eq(a: &RistrettoPoint, b: &RistrettoPoint) -> (r: bool)
    ensures
        r == (pt_log(*a) == pt_log(*b)),
{
    a == b
}

/// Relies on `RistrettoPoint::compress`: the canonical 32-byte encoding.
#[verifier::external_body]
pub(crate) fn pt_compress(p: &RistrettoPoint) -> (r: Vec<u8>)
    ensures
        r@.len() == 32,
{
    p.compress().as_bytes().to_vec()
}

/// Relies on `CompressedRistretto::decompress`: accepts exactly the
/// canonical encodings of group elements.  The 32-byte length is required
/// because `from_slice` panics on any other length.
#[verifier::external_body]
pub(crate) fn pt_decompress(b: &[u8]) -> (r: Option<RistrettoPoint>)
    requires
        b@.len() == 32,
    ensures
        r is Some ==> 0 <= pt_log(r->Some_0) < group_order(),
{
    CompressedRistretto::from_slice(b).decompress()
}

} // verus!
