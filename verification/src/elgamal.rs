//! Additively homomorphic ElGamal over the Ristretto group.
//!
//! A plaintext `m` is carried as the curve point `m * P`; a ciphertext is the
//! pair `(r * P, m * P + r * pk)` for a fresh random scalar `r`.  Decryption
//! under the secret scalar `k` recovers `c2 - k * c1`, so the spec-level
//! content of a ciphertext is `dec_log(k, c)`, the discrete logarithm of that
//! difference.  All scheme operations here are verified against the trusted
//! group model in [`crate::group`]; only the re-randomisation step
//! [`eg_scale`] is itself trusted, because its zero-preservation rests on the
//! primality of the group order.

use vstd::prelude::*;
use vstd::arithmetic::div_mod::*;
use curve25519_dalek::ristretto::RistrettoPoint;
use curve25519_dalek::scalar::Scalar;
use crate::group::{
    group_order, pt_add, pt_base_mul, pt_eq, pt_identity, pt_log, pt_scalar_mul, pt_sub,
    sc_from_u128, sc_random, sc_val,
};
use crate::rng::random_u128;

verus! {

/// An ElGamal encryption key: the public point `k * P`.
#[derive(Clone)]
pub struct EgPublicKey {
    /// The public curve point.
    pub point: RistrettoPoint,
}

/// An ElGamal decryption key: the secret scalar `k`.
#[derive(Clone)]
pub struct EgSecretKey {
    /// The secret scalar.
    pub scalar: Scalar,
}

/// An ElGamal ciphertext: a pair of curve points.
#[derive(Clone)]
pub struct EgCiphertext {
    /// The randomness part, `r * P`.
    pub c1: RistrettoPoint,
    /// The payload part, `m * P + r * pk`.
    pub c2: RistrettoPoint,
}

/// What decryption under the secret value `k` yields: the discrete logarithm
/// of `c2 - k * c1`, in `[0, group_order())`.
pub open spec fn dec_log(k: int, c: EgCiphertext) -> int {
    (pt_log(c.c2) - k * pt_log(c.c1)) % group_order()
}

/// The public key's discrete logarithm.
pub open spec fn pk_log(pk: EgPublicKey) -> int {
    pt_log(pk.point)
}

/// What decryption under the secret key matching `pk` yields.
pub open spec fn dec_under(pk: EgPublicKey, c: EgCiphertext) -> int {
    dec_log(pk_log(pk), c)
}

/// The key pair really is a pair: the public point is the secret scalar's
/// multiple of the base point.
pub open spec fn eg_matches(pk: EgPublicKey, sk: EgSecretKey) -> bool {
    sc_val(sk.scalar) == pt_log(pk.point)
}

/// Both components are group elements with reduced discrete logarithms.
pub open spec fn ct_wf(c: EgCiphertext) -> bool {
    &&& 0 <= pt_log(c.c1) < group_order()
    &&& 0 <= pt_log(c.c2) < group_order()
}

/// The residue a signed message `(mag, neg)` leaves modulo the group order.
pub open spec fn signed_residue(mag: u128, neg: bool) -> int {
    if neg {
        (-(mag as int)) % group_order()
    } else {
        (mag as int) % group_order()
    }
}

/// Subtracting under an already-reduced left operand: `(x % m - y) % m`
/// equals `(x - y) % m`.
proof fn lemma_sub_mod_left(x: int, y: int, m: int)
    requires
        m > 0,
    ensures
        (x % m - y) % m == (x - y) % m,
{
    lemma_mod_twice(x, m);
    lemma_sub_mod_noop(x % m, y, m);
    lemma_sub_mod_noop(x, y, m);
}

/// A value strictly between `-m` and `m` is divisible by `m` only if it is
/// zero.
pub proof fn lemma_small_mod_zero(v: int, m: int)
    requires
        -m < v < m,
        m > 0,
    ensures
        (v % m == 0) <==> v == 0,
{
    lemma_small_mod(0nat, m as nat);
    if v > 0 {
        lemma_small_mod(v as nat, m as nat);
    } else if v < 0 {
        lemma_fundamental_div_mod_converse(v, m, -1, v + m);
    }
}

/// Generates a fresh key pair: a random secret scalar and its public point.
pub fn eg_generate_keys() -> (r: (EgPublicKey, EgSecretKey))
    ensures
        eg_matches(r.0, r.1),
        0 <= pk_log(r.0) < group_order(),
{
    let s = sc_random();
    let p = pt_base_mul(&s);
    (EgPublicKey { point: p }, EgSecretKey { scalar: s })
}

/// Encrypts the signed value `(mag, neg)` (that is, `mag` or `-mag`) under
/// `pk` with fresh randomness.
pub fn eg_encrypt(pk: &EgPublicKey, mag: u128, neg: bool) -> (c: EgCiphertext)
    ensures
        dec_under(*pk, c) == signed_residue(mag, neg),
        ct_wf(c),
{
    let ell: Ghost<int> = Ghost(group_order());
    proof {
        lemma_pow2_ell();
    }
    let m0 = pt_base_mul(&sc_from_u128(mag));
    let mp = if neg {
        let idp = pt_identity();
        let r = pt_sub(&idp, &m0);
        proof {
            lemma_sub_mod_noop_right(0, mag as int, ell@);
            lemma_mod_bound(0 - (mag as int) % ell@, ell@);
        }
        r
    } else {
        m0
    };
    assert(0 <= pt_log(mp) < ell@ && pt_log(mp) == signed_residue(mag, neg)) by {
        lemma_mod_bound(-(mag as int), ell@);
        lemma_mod_bound(mag as int, ell@);
    }
    let rsc = sc_random();
    let c1 = pt_base_mul(&rsc);
    let masked = pt_scalar_mul(&rsc, &pk.point);
    let c2 = pt_add(&mp, &masked);
    let c = EgCiphertext { c1, c2 };
    proof {
        let kk = pk_log(*pk);
        let rv = sc_val(rsc);
        let lmp = pt_log(mp);
        lemma_mod_bound(lmp + (rv * kk) % ell@, ell@);
        lemma_sub_mod_left(lmp + (rv * kk) % ell@, kk * rv, ell@);
        lemma_add_mod_noop_right(lmp - kk * rv, rv * kk, ell@);
        lemma_small_mod(lmp as nat, ell@ as nat);
    }
    c
}

/// The group order exceeds `2^64`; stated through small facts the callers
/// need when placing 64-bit protocol values into the exponent.
pub proof fn lemma_pow2_ell()
    ensures
        group_order() > 0x100000000000000000000000000000000int,
        group_order() > 0,
{
}

/// Homomorphic addition: component-wise point addition adds the decrypted
/// exponents modulo the group order, under every secret value.
pub fn eg_add(a: &EgCiphertext, b: &EgCiphertext) -> (c: EgCiphertext)
    ensures
        forall|k: int| #[trigger]
            dec_log(k, c) == (dec_log(k, *a) + dec_log(k, *b)) % group_order(),
        ct_wf(c),
{
    let c1 = pt_add(&a.c1, &b.c1);
    let c2 = pt_add(&a.c2, &b.c2);
    let c = EgCiphertext { c1, c2 };
    proof {
        let ell = group_order();
        lemma_pow2_ell();
        lemma_mod_bound(pt_log(a.c1) + pt_log(b.c1), ell);
        lemma_mod_bound(pt_log(a.c2) + pt_log(b.c2), ell);
        assert forall|k: int| #[trigger]
            dec_log(k, c) == (dec_log(k, *a) + dec_log(k, *b)) % ell by {
            let l1a = pt_log(a.c1);
            let l1b = pt_log(b.c1);
            let l2a = pt_log(a.c2);
            let l2b = pt_log(b.c2);
            lemma_sub_mod_left(l2a + l2b, k * ((l1a + l1b) % ell), ell);
            lemma_mul_mod_noop_right(k, l1a + l1b, ell);
            lemma_sub_mod_noop_right(l2a + l2b, k * (l1a + l1b), ell);
            vstd::arithmetic::mul::lemma_mul_is_distributive_add(k, l1a, l1b);
            lemma_add_mod_noop(l2a - k * l1a, l2b - k * l1b, ell);
        }
    }
    c
}

/// Re-randomises a ciphertext by multiplying both components by the scalar
/// `u`.  Relies on scalar-point multiplication in `curve25519-dalek` and on
/// the Ristretto group having prime order `ell`: the decrypted exponent is
/// scaled by `u`, and since `1 <= u < 2^128 < ell`, the scale factor is a
/// unit, so the exponent is zero after scaling exactly when it was zero
/// before.
#[verifier::external_body]
pub fn eg_scale(c: &EgCiphertext, u: u128) -> (r: EgCiphertext)
    requires
        1 <= u,
    ensures
        forall|k: int| ((#[trigger] dec_log(k, r) == 0) <==> (dec_log(k, *c) == 0)),
        ct_wf(r),
{
    let s = Scalar::from(u);
    EgCiphertext { c1: &s * &c.c1, c2: &s * &c.c2 }
}

/// A uniformly random nonzero blinding factor for [`eg_scale`].
pub fn fresh_blinder() -> (u: u128)
    ensures
        u >= 1,
{
    let u = random_u128();
    if u == 0 {
        1
    } else {
        u
    }
}

/// Reports whether a ciphertext decrypts to the zero exponent under `sk`,
/// by comparing `c2` against `k * c1`.
pub fn eg_is_zero(sk: &EgSecretKey, c: &EgCiphertext) -> (r: bool)
    requires
        ct_wf(*c),
    ensures
        r == (dec_log(sc_val(sk.scalar), *c) == 0),
{
    let kc1 = pt_scalar_mul(&sk.scalar, &c.c1);
    let r = pt_eq(&c.c2, &kc1);
    proof {
        let ell = group_order();
        let k = sc_val(sk.scalar);
        let l1 = pt_log(c.c1);
        let l2 = pt_log(c.c2);
        lemma_pow2_ell();
        lemma_mod_bound(k * l1, ell);
        lemma_sub_mod_noop_right(l2, k * l1, ell);
        lemma_small_mod_zero(l2 - (k * l1) % ell, ell);
    }
    r
}

} // verus!
