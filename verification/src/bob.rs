//! Bob's side of the two protocols.
//!
//! In the plaintext comparison Bob publishes the encrypted per-bit terms of
//! his input, receives the blinded and shuffled combination from Alice, and
//! reports whether any entry decrypts to zero.  In the encrypted comparison
//! Bob holds the Paillier secret key: he unmasks the blinded difference,
//! returns its quotient and remainder by `2^l` re-encrypted, plays the
//! plaintext comparison on the low word, and decrypts the combined result.

use vstd::prelude::*;
use vstd::arithmetic::power2::pow2;
use std::sync::mpsc::Receiver;
use std::sync::mpsc::Sender;
use num_bigint::BigUint;
use crate::CompareError;
use crate::channel::{recv_frame, send_frame};
use crate::elgamal::{ct_wf, dec_log, dec_under, EgCiphertext, EgPublicKey, EgSecretKey};
use crate::group::sc_val;
use crate::paillier::{
    big_from_bytes, big_from_u128, big_lt, big_to_bytes, big_to_u128, big_val, pail_ct_ok,
    pail_decrypt, pail_encrypt, pail_msg, pail_n_ok, sk_ok, PaillierPk, PaillierSk,
};
use crate::utils::{cumulative_power_two, emod, enc_value, pow2_u64, BitOp};
use crate::wire::{bool_to_bytes, bytes_to_cts, cts_to_bytes};

verus! {

/// The plaintext Bob feeds to the bit encoder: `4 * x + 2`.  Against
/// Alice's `4 * y`, the two encoded values are always at distance two or
/// more: never equal, so the two sign selectors produce exactly
/// complementary relations, and never adjacent, so the index of the zero
/// pair sum is unique and Bob's zero count reveals nothing beyond the
/// comparison bit.
pub open spec fn bob_encoded(x: u64) -> nat {
    (4 * x + 2) as nat
}

/// Bob's published terms: the bit encoding of `4 * x + 2` under `op = +`,
/// `s = 0`, over `l + 2` bit positions.
pub fn bob_make_terms(plaintext: u64, l: u32, pk: &EgPublicKey) -> (r: Result<
    Vec<EgCiphertext>,
    CompareError,
>)
    requires
        1 <= l <= 62,
    ensures
        (r is Err) <==> (plaintext as nat >= pow2(l as nat)),
        r is Err ==> r == Err::<Vec<EgCiphertext>, CompareError>(CompareError::InputError),
        r matches Ok(v) ==> {
            &&& v@.len() == l + 2
            &&& forall|j: int|
                0 <= j < l + 2 ==> #[trigger] dec_under(*pk, v@[j]) == emod(
                    enc_value(BitOp::Add, 0, bob_encoded(plaintext), (l + 1 - j) as nat),
                ) && ct_wf(v@[j])
        },
{
    let p = pow2_u64(l);
    if plaintext >= p {
        return Err(CompareError::InputError);
    }
    proof {
        vstd::arithmetic::power2::lemma_pow2_strictly_increases(l as nat, 63);
        vstd::arithmetic::power2::lemma_pow2_adds(l as nat, 2);
        vstd::arithmetic::power2::lemma2_to64();
        vstd::arithmetic::power2::lemma2_to64_rest();
    }
    let xx: u64 = 4 * plaintext + 2;
    match cumulative_power_two(xx, BitOp::Add, 0, pk, l + 2) {
        Ok(v) => Ok(v),
        Err(_) => {
            proof {
                assert(false);
            }
            Err(CompareError::InputError)
        },
    }
}

/// Scans the received vector for an entry that decrypts to the zero
/// exponent under `sk`.
pub fn bob_scan_zero(sk: &EgSecretKey, e: &Vec<EgCiphertext>) -> (r: bool)
    requires
        forall|j: int| 0 <= j < e@.len() ==> #[trigger] ct_wf(e@[j]),
    ensures
        r == exists|j: int|
            0 <= j < e@.len() && #[trigger] dec_log(sc_val(sk.scalar), e@[j]) == 0,
{
    let mut j: usize = 0;
    while j < e.len()
        invariant
            j <= e@.len(),
            forall|t: int| 0 <= t < e@.len() ==> #[trigger] ct_wf(e@[t]),
            forall|t: int| 0 <= t < j as int ==> #[trigger] dec_log(sc_val(sk.scalar), e@[t]) != 0,
        decreases e@.len() - j,
    {
        if crate::elgamal::eg_is_zero(sk, &e[j]) {
            return true;
        }
        j = j + 1;
    }
    false
}

/// Bob's role in the plaintext comparison over a channel pair: publish the
/// terms, receive the blinded shuffled vector, and report whether a zero is
/// among it.  Rejects a plaintext of `l` bits or more.
pub fn bob_plaintext_comparison(
    tx: &Sender<Vec<u8>>,
    rx: &Receiver<Vec<u8>>,
    plaintext: u64,
    pk: &EgPublicKey,
    sk: &EgSecretKey,
    l: u32,
) -> (r: Result<bool, CompareError>)
    requires
        1 <= l <= 62,
    ensures
        (r == Err::<bool, CompareError>(CompareError::InputError)) <==> (plaintext as nat >= pow2(
            l as nat,
        )),
{
    let t = match bob_make_terms(plaintext, l, pk) {
        Ok(t) => t,
        Err(e) => {
            return Err(e);
        },
    };
    if !send_frame(tx, cts_to_bytes(&t)) {
        return Err(CompareError::TransportError);
    }
    let frame = match recv_frame(rx) {
        Some(f) => f,
        None => {
            return Err(CompareError::TransportError);
        },
    };
    let e = match bytes_to_cts(&frame, l as usize + 2) {
        Ok(e) => e,
        Err(err) => {
            return Err(err);
        },
    };
    Ok(bob_scan_zero(sk, &e))
}

/// The least modulus the encrypted comparison accepts for the bit-width
/// `l`: ample room for the bias, the inputs and the 64-bit mask.
pub open spec fn modulus_floor(l: u32) -> nat {
    (pow2((l + 2) as nat) + pow2(66)) as nat
}

/// The floor as a machine word.
pub fn modulus_floor_exec(l: u32) -> (r: u128)
    requires
        1 <= l <= 62,
    ensures
        r as nat == modulus_floor(l),
{
    proof {
        vstd::arithmetic::power2::lemma2_to64();
        vstd::arithmetic::power2::lemma_pow2_adds(l as nat, 2);
        vstd::arithmetic::power2::lemma_pow2_adds(64, 2);
    }
    let p: u128 = pow2_u64(l) as u128;
    proof {
        vstd::arithmetic::mul::lemma_mul_is_commutative(pow2(l as nat) as int, 4);
        vstd::arithmetic::mul::lemma_mul_is_commutative(pow2(64) as int, 4);
    }
    4 * p + 0x40000000000000000u128
}

/// Bob's unmasking step: decrypt the masked difference, reject a value
/// outside the honest range `[0, 2^(l+1) + 2^64)`, split it by `2^l`, and
/// re-encrypt both halves with fresh randomness.  Returns `None` when
/// decryption or the range check fails; for honest key material and an
/// honest masked ciphertext it succeeds, and the returned pair encrypts
/// exactly the quotient and the low word.
pub fn bob_unmask(pk: &PaillierPk, sk: &PaillierSk, d_ct: &BigUint, l: u32) -> (r: Option<
    (BigUint, BigUint, u64),
>)
    requires
        1 <= l <= 62,
        big_val(sk.n) >= 2,
        big_val(pk.n) == big_val(sk.n),
    ensures
        r matches Some(t) ==> t.2 < pow2(l as nat),
        (pail_n_ok(big_val(pk.n)) && sk_ok(
            *sk,
        )) ==> {
            let nv = big_val(pk.n);
            let d = pail_msg(big_val(*d_ct), nv);
            &&& ((pail_ct_ok(big_val(*d_ct), nv) && d < pow2(
                (l + 1) as nat,
            ) + pow2(64)) ==> r is Some)
            &&& (r matches Some(t) ==> {
                &&& d < pow2((l + 1) as nat) + pow2(64)
                &&& t.2 == d % pow2(l as nat)
                &&& pail_msg(big_val(t.0), nv) == (d / pow2(
                    l as nat,
                )) % nv
                &&& pail_ct_ok(big_val(t.0), nv)
                &&& pail_msg(big_val(t.1), nv) == (d % pow2(
                    l as nat,
                )) % nv
                &&& pail_ct_ok(big_val(t.1), nv)
            })
        },
{
    proof {
        vstd::arithmetic::power2::lemma2_to64();
        vstd::arithmetic::power2::lemma2_to64_rest();
        vstd::arithmetic::power2::lemma_pow2_adds(l as nat, 1);
        vstd::arithmetic::power2::lemma_pow2_strictly_increases(l as nat, 64);
        vstd::arithmetic::power2::lemma_pow2_strictly_increases(65, 128);
        vstd::arithmetic::power2::lemma_pow2_adds(64, 64);
        vstd::arithmetic::power2::lemma_pow2_adds(64, 1);
    }
    let d_big = match pail_decrypt(sk, d_ct) {
        Some(v) => v,
        None => {
            return None;
        },
    };
    let d128 = match big_to_u128(&d_big) {
        Some(v) => v,
        None => {
            return None;
        },
    };
    let p = pow2_u64(l) as u128;
    let bound: u128 = 2 * (pow2_u64(l) as u128) + 0x10000000000000000u128;
    if d128 >= bound {
        return None;
    }
    let d_div = d128 / p;
    let d_lo = d128 % p;
    proof {
        vstd::arithmetic::div_mod::lemma_mod_bound(d128 as int, p as int);
    }
    let enc_dh = pail_encrypt(pk, d_div);
    let enc_dl = pail_encrypt(pk, d_lo);
    Some((enc_dh, enc_dl, d_lo as u64))
}

/// Bob's role in the encrypted comparison over a channel pair.  A modulus
/// too small for the bit-width is an invariant violation, detected at entry
/// before any message; the masked difference decrypting outside its honest
/// range aborts the run the same way.
pub fn bob_encrypted_comparison(
    tx: Sender<Vec<u8>>,
    rx: Receiver<Vec<u8>>,
    pk_paillier: &PaillierPk,
    sk_paillier: &PaillierSk,
    pk_ecc: &EgPublicKey,
    sk_ecc: &EgSecretKey,
    l: u32,
) -> (r: Result<bool, CompareError>)
    requires
        1 <= l <= 62,
        big_val(sk_paillier.n) >= 2,
        big_val(pk_paillier.n) == big_val(sk_paillier.n),
    ensures
        r != Err::<bool, CompareError>(CompareError::InputError),
        big_val(pk_paillier.n) < modulus_floor(l) ==> r == Err::<bool, CompareError>(
            CompareError::InvariantError,
        ),
{
    let floor = big_from_u128(modulus_floor_exec(l));
    if big_lt(&pk_paillier.n, &floor) {
        return Err(CompareError::InvariantError);
    }
    let frame = match recv_frame(&rx) {
        Some(f) => f,
        None => {
            return Err(CompareError::TransportError);
        },
    };
    let d_ct = big_from_bytes(frame.as_slice());
    let split = match bob_unmask(pk_paillier, sk_paillier, &d_ct, l) {
        Some(t) => t,
        None => {
            return Err(CompareError::InvariantError);
        },
    };
    if !send_frame(&tx, big_to_bytes(&split.0)) {
        return Err(CompareError::TransportError);
    }
    if !send_frame(&tx, big_to_bytes(&split.1)) {
        return Err(CompareError::TransportError);
    }
    let lam = match bob_plaintext_comparison(&tx, &rx, split.2, pk_ecc, sk_ecc, l) {
        Ok(b) => b,
        Err(e) => {
            return Err(
                if e == CompareError::InputError {
                    proof {
                        assert(false);
                    }
                    CompareError::InvariantError
                } else {
                    e
                },
            );
        },
    };
    let lam_m: u128 = if lam {
        1
    } else {
        0
    };
    if !send_frame(&tx, big_to_bytes(&pail_encrypt(pk_paillier, lam_m))) {
        return Err(CompareError::TransportError);
    }
    let final_frame = match recv_frame(&rx) {
        Some(f) => f,
        None => {
            return Err(CompareError::TransportError);
        },
    };
    let final_ct = big_from_bytes(final_frame.as_slice());
    let final_big = match pail_decrypt(sk_paillier, &final_ct) {
        Some(v) => v,
        None => {
            return Err(CompareError::InvariantError);
        },
    };
    let zero = big_from_u128(0);
    let bit = big_lt(&zero, &final_big);
    if !send_frame(&tx, bool_to_bytes(bit)) {
        return Err(CompareError::TransportError);
    }
    Ok(bit)
}

} // verus!
