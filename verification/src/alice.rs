//! Alice's side of the two protocols.
//!
//! In the plaintext comparison Alice receives Bob's terms, adds her own
//! (encoded with `op = -` and the sign selector `s`), re-randomises every
//! sum with a fresh nonzero blinder, shuffles, and returns the vector.  In
//! the encrypted comparison Alice blinds the difference of her two Paillier
//! ciphertexts additively, has Bob split it by `2^l`, compares the low words
//! through the plaintext subprotocol, and combines the pieces into a
//! ciphertext of the comparison bit.

use vstd::prelude::*;
use vstd::arithmetic::power2::pow2;
use std::sync::mpsc::Receiver;
use std::sync::mpsc::Sender;
use num_bigint::BigUint;
use rand::seq::SliceRandom;
use crate::CompareError;
use crate::channel::{recv_frame, send_frame};
use crate::elgamal::{
    ct_wf, dec_under, eg_add, eg_scale, fresh_blinder, lemma_pow2_ell, EgCiphertext, EgPublicKey,
};
use crate::group::group_order;
use crate::paillier::{
    big_from_bytes, big_from_u128, big_lt, big_to_bytes, big_val, pail_add, pail_ct_ok,
    pail_encrypt, pail_msg, pail_n_ok, pail_try_negate, PaillierPk,
};
use crate::rng::random_u64;
use crate::utils::{cumulative_power_two, emod, enc_value, pow2_u64, BitOp};
use crate::wire::{bytes_to_bool, bytes_to_cts, cts_to_bytes};

verus! {

/// The plaintext Alice feeds to the bit encoder: `4 * y`, kept at distance
/// two or more from Bob's `4 * x + 2` so that the zero pair-sum index is
/// unique and the two sign selectors are exactly complementary.
pub open spec fn alice_encoded(y: u64) -> nat {
    (4 * y) as nat
}

/// Relies on `SliceRandom::shuffle` with the thread generator: a permutation
/// of the vector in place, so the elements as a multiset are unchanged.
#[verifier::external_body]
fn shuffle_cts(v: &mut Vec<EgCiphertext>)
    ensures
        final(v)@.to_multiset() == old(v)@.to_multiset(),
{
    v.shuffle(&mut rand::thread_rng());
}

/// Two sequences holding the same multiset hold a zero-decrypting entry, and
/// well-formed entries, together.
proof fn lemma_multiset_transfer(a: Seq<EgCiphertext>, b: Seq<EgCiphertext>, pk: EgPublicKey)
    requires
        a.to_multiset() == b.to_multiset(),
    ensures
        a.len() == b.len(),
        (exists|j: int| 0 <= j < a.len() && #[trigger] dec_under(pk, a[j]) == 0) <==> (exists|
            j: int,
        | 0 <= j < b.len() && #[trigger] dec_under(pk, b[j]) == 0),
        (forall|j: int| 0 <= j < a.len() ==> #[trigger] ct_wf(a[j])) ==> (forall|j: int|
            0 <= j < b.len() ==> #[trigger] ct_wf(b[j])),
{
    a.to_multiset_ensures();
    b.to_multiset_ensures();
    if exists|j: int| 0 <= j < a.len() && #[trigger] dec_under(pk, a[j]) == 0 {
        let j = choose|j: int| 0 <= j < a.len() && #[trigger] dec_under(pk, a[j]) == 0;
        assert(a.contains(a[j]));
        assert(a.to_multiset().count(a[j]) > 0);
        assert(b.to_multiset().count(a[j]) > 0);
        assert(b.contains(a[j]));
        let i = choose|i: int| 0 <= i < b.len() && b[i] == a[j];
        assert(dec_under(pk, b[i]) == 0);
    }
    if exists|j: int| 0 <= j < b.len() && #[trigger] dec_under(pk, b[j]) == 0 {
        let j = choose|j: int| 0 <= j < b.len() && #[trigger] dec_under(pk, b[j]) == 0;
        assert(b.contains(b[j]));
        assert(b.to_multiset().count(b[j]) > 0);
        assert(a.to_multiset().count(b[j]) > 0);
        assert(a.contains(b[j]));
        let i = choose|i: int| 0 <= i < a.len() && a[i] == b[j];
        assert(dec_under(pk, a[i]) == 0);
    }
    if forall|j: int| 0 <= j < a.len() ==> #[trigger] ct_wf(a[j]) {
        assert forall|j: int| 0 <= j < b.len() implies #[trigger] ct_wf(b[j]) by {
            assert(b.contains(b[j]));
            assert(b.to_multiset().count(b[j]) > 0);
            assert(a.to_multiset().count(b[j]) > 0);
            assert(a.contains(b[j]));
            let i = choose|i: int| 0 <= i < a.len() && a[i] == b[j];
            assert(ct_wf(a[i]));
        }
    }
}

/// Alice's response to Bob's published terms: her own terms added in, every
/// sum freshly re-randomised, and the whole vector shuffled.  The returned
/// vector is, as a multiset, position-by-position equivalent to the blinded
/// sums: some ordering of it decrypts to zero at exactly the positions whose
/// pairwise exponent sum is zero — so in particular the number of
/// zero-decrypting entries matches, not only their existence.
#[verifier::rlimit(60)]
pub fn alice_respond(
    plaintext: u64,
    s: i64,
    l: u32,
    pk: &EgPublicKey,
    t: &Vec<EgCiphertext>,
) -> (r: Result<Vec<EgCiphertext>, CompareError>)
    requires
        1 <= l <= 62,
        forall|j: int| 0 <= j < t@.len() ==> #[trigger] ct_wf(t@[j]),
    ensures
        (r == Err::<Vec<EgCiphertext>, CompareError>(CompareError::InputError)) <==> (
        plaintext as nat >= pow2(l as nat) || (s != 1 && s != -1)),
        ((plaintext as nat) < pow2(l as nat) && (s == 1 || s == -1) && t@.len() != l + 2) ==> r
            == Err::<Vec<EgCiphertext>, CompareError>(CompareError::InvariantError),
        ((plaintext as nat) < pow2(l as nat) && (s == 1 || s == -1) && t@.len() == l + 2) ==> r
            is Ok,
        r matches Ok(e) ==> {
            &&& t@.len() == l + 2
            &&& e@.len() == l + 2
            &&& forall|j: int| 0 <= j < l + 2 ==> #[trigger] ct_wf(e@[j])
            &&& ((exists|j: int| 0 <= j < l + 2 && #[trigger] dec_under(*pk, e@[j]) == 0) <==> (
            exists|j: int|
                0 <= j < l + 2 && (#[trigger] dec_under(*pk, t@[j]) + emod(
                    enc_value(BitOp::Sub, s as int, alice_encoded(plaintext), (l + 1 - j) as nat),
                )) % group_order() == 0))
            &&& (exists|pre: Seq<EgCiphertext>|
                {
                    &&& (#[trigger] pre.to_multiset()) == e@.to_multiset()
                    &&& pre.len() == l + 2
                    &&& forall|j: int|
                        0 <= j < l + 2 ==> ((#[trigger] dec_under(*pk, pre[j]) == 0) <==> (
                        dec_under(*pk, t@[j]) + emod(
                            enc_value(
                                BitOp::Sub,
                                s as int,
                                alice_encoded(plaintext),
                                (l + 1 - j) as nat,
                            ),
                        )) % group_order() == 0)
                })
        },
{
    let p = pow2_u64(l);
    if plaintext >= p || (s != 1 && s != -1) {
        return Err(CompareError::InputError);
    }
    let lw: usize = l as usize + 2;
    if t.len() != lw {
        return Err(CompareError::InvariantError);
    }
    proof {
        vstd::arithmetic::power2::lemma_pow2_strictly_increases(l as nat, 63);
        vstd::arithmetic::power2::lemma_pow2_adds(l as nat, 2);
        vstd::arithmetic::power2::lemma2_to64();
        vstd::arithmetic::power2::lemma2_to64_rest();
    }
    let yy: u64 = 4 * plaintext;
    let vs = match cumulative_power_two(yy, BitOp::Sub, s, pk, l + 2) {
        Ok(v) => v,
        Err(_) => {
            proof {
                assert(false);
            }
            return Err(CompareError::InputError);
        },
    };
    let mut out: Vec<EgCiphertext> = Vec::new();
    let mut j: usize = 0;
    while j < lw
        invariant
            j <= lw,
            lw == l + 2,
            l <= 62,
            t@.len() == lw,
            vs@.len() == lw,
            out@.len() == j as nat,
            forall|i: int| 0 <= i < t@.len() ==> #[trigger] ct_wf(t@[i]),
            forall|i: int|
                0 <= i < lw as int ==> #[trigger] dec_under(*pk, vs@[i]) == emod(
                    enc_value(BitOp::Sub, s as int, alice_encoded(plaintext), (l + 1 - i) as nat),
                ) && ct_wf(vs@[i]),
            forall|i: int| 0 <= i < j as int ==> #[trigger] ct_wf(out@[i]),
            forall|i: int|
                0 <= i < j as int ==> ((#[trigger] dec_under(*pk, out@[i]) == 0) <==> (dec_under(
                    *pk,
                    t@[i],
                ) + emod(
                    enc_value(BitOp::Sub, s as int, alice_encoded(plaintext), (l + 1 - i) as nat),
                )) % group_order() == 0),
        decreases lw - j,
    {
        let sum = eg_add(&t[j], &vs[j]);
        let blinded = eg_scale(&sum, fresh_blinder());
        proof {
            lemma_pow2_ell();
            assert(dec_under(*pk, sum) == (dec_under(*pk, t@[j as int]) + dec_under(
                *pk,
                vs@[j as int],
            )) % group_order());
            vstd::arithmetic::div_mod::lemma_add_mod_noop_right(
                dec_under(*pk, t@[j as int]),
                enc_value(
                    BitOp::Sub,
                    s as int,
                    alice_encoded(plaintext),
                    (l + 1 - j as int) as nat,
                ),
                group_order(),
            );
        }
        out.push(blinded);
        j = j + 1;
    }
    let ghost before = out@;
    shuffle_cts(&mut out);
    proof {
        lemma_multiset_transfer(before, out@, *pk);
        assert(before.to_multiset() == out@.to_multiset());
        if exists|i: int|
            0 <= i < l + 2 && (#[trigger] dec_under(*pk, t@[i]) + emod(
                enc_value(BitOp::Sub, s as int, alice_encoded(plaintext), (l + 1 - i) as nat),
            )) % group_order() == 0 {
            let i = choose|i: int|
                0 <= i < l + 2 && (#[trigger] dec_under(*pk, t@[i]) + emod(
                    enc_value(BitOp::Sub, s as int, alice_encoded(plaintext), (l + 1 - i) as nat),
                )) % group_order() == 0;
            assert(dec_under(*pk, before[i]) == 0);
        }
        if exists|i: int| 0 <= i < l + 2 && #[trigger] dec_under(*pk, before[i]) == 0 {
            let i = choose|i: int| 0 <= i < l + 2 && #[trigger] dec_under(*pk, before[i]) == 0;
            assert((dec_under(*pk, t@[i]) + emod(
                enc_value(BitOp::Sub, s as int, alice_encoded(plaintext), (l + 1 - i) as nat),
            )) % group_order() == 0);
        }
    }
    Ok(out)
}

/// Alice's role in the plaintext comparison over a channel pair: receive the
/// terms, respond, and send the result back.  Rejects a plaintext of `l`
/// bits or more and a sign selector outside `{-1, +1}`.
pub fn alice_plaintext_comparison(
    tx: &Sender<Vec<u8>>,
    rx: &Receiver<Vec<u8>>,
    plaintext: u64,
    pk: &EgPublicKey,
    s: i64,
    l: u32,
) -> (r: Result<(), CompareError>)
    requires
        1 <= l <= 62,
    ensures
        (r == Err::<(), CompareError>(CompareError::InputError)) <==> (plaintext as nat >= pow2(
            l as nat,
        ) || (s != 1 && s != -1)),
{
    let p = pow2_u64(l);
    if plaintext >= p || (s != 1 && s != -1) {
        return Err(CompareError::InputError);
    }
    let frame = match recv_frame(rx) {
        Some(f) => f,
        None => {
            return Err(CompareError::TransportError);
        },
    };
    let t = match bytes_to_cts(&frame, l as usize + 2) {
        Ok(t) => t,
        Err(e) => {
            return Err(e);
        },
    };
    let e = match alice_respond(plaintext, s, l, pk, &t) {
        Ok(e) => e,
        Err(_) => {
            proof {
                assert(false);
            }
            return Err(CompareError::InvariantError);
        },
    };
    if !send_frame(tx, cts_to_bytes(&e)) {
        return Err(CompareError::TransportError);
    }
    Ok(())
}

/// Alice's masking step: the homomorphic sum
/// `Enc(2^l - 1) + a - b + Enc(r64)`.  Returns `None` exactly when `b`
/// cannot be inverted modulo `n^2`, that is (for an honest modulus) when `b`
/// is not a unit; for honest inputs the result is a unit ciphertext of
/// `(2^l - 1) + a - b + r64 mod n`.
pub fn alice_mask(pk: &PaillierPk, a: &BigUint, b: &BigUint, l: u32, r64: u64) -> (r: Option<
    BigUint,
>)
    requires
        1 <= l <= 62,
        big_val(pk.n) >= 2,
    ensures
        pail_n_ok(big_val(pk.n)) ==> {
            let nv = big_val(pk.n);
            &&& (r is Some <==> pail_ct_ok(big_val(*b), nv))
            &&& (r matches Some(d) ==> (pail_ct_ok(
                big_val(*a),
                nv,
            ) && pail_msg(big_val(*a), nv) < nv
                && pail_msg(big_val(*b), nv) < nv) ==> {
                &&& pail_msg(big_val(d), nv) == (pow2(l as nat)
                    - 1 + pail_msg(big_val(*a), nv)
                    - pail_msg(big_val(*b), nv) + r64) % (
                nv as int)
                &&& pail_ct_ok(big_val(d), nv)
            })
        },
{
    let p = pow2_u64(l);
    let bias: u64 = p - 1;
    let enc_bias = pail_encrypt(pk, bias as u128);
    let enc_r = pail_encrypt(pk, r64 as u128);
    let neg_b = match pail_try_negate(pk, b) {
        Some(c) => c,
        None => {
            return None;
        },
    };
    let d1 = pail_add(pk, &enc_bias, a);
    let d2 = pail_add(pk, &neg_b, &enc_r);
    let d = pail_add(pk, &d1, &d2);
    proof {
        let nv = big_val(pk.n) as int;
        if pail_n_ok(big_val(pk.n))
            && pail_ct_ok(big_val(*a), nv as nat)
            && pail_msg(big_val(*a), nv as nat) < nv
            && pail_msg(big_val(*b), nv as nat) < nv {
            let ma = pail_msg(big_val(*a), nv as nat) as int;
            let mb = pail_msg(big_val(*b), nv as nat) as int;
            vstd::arithmetic::div_mod::lemma_small_mod(
                pail_msg(big_val(*a), nv as nat),
                nv as nat,
            );
            vstd::arithmetic::div_mod::lemma_add_mod_noop(bias as int, ma, nv);
            vstd::arithmetic::div_mod::lemma_mod_add_multiples_vanish(-mb, nv);
            vstd::arithmetic::div_mod::lemma_add_mod_noop(-mb, r64 as int, nv);
            vstd::arithmetic::div_mod::lemma_add_mod_noop(bias + ma, r64 - mb, nv);
        }
    }
    Some(d)
}

/// Alice's combining step: the homomorphic difference
/// `dh_ct - Enc(r_div) - lam_ct`.  Returns `None` exactly when (for an
/// honest modulus) the received `lam_ct` is not a unit; for a unit `dh_ct`
/// the result is a unit ciphertext of `msg(dh_ct) - r_div - msg(lam_ct)
/// mod n`.
pub fn alice_combine(pk: &PaillierPk, dh_ct: &BigUint, r_div: u64, lam_ct: &BigUint) -> (r: Option<
    BigUint,
>)
    requires
        big_val(pk.n) >= 2,
    ensures
        pail_n_ok(big_val(pk.n)) ==> {
            let nv = big_val(pk.n);
            &&& (r is Some <==> pail_ct_ok(
                big_val(*lam_ct),
                nv,
            ))
            &&& (r matches Some(c) ==> (pail_ct_ok(
                big_val(*dh_ct),
                nv,
            ) && pail_msg(big_val(*dh_ct), nv) < nv
                && pail_msg(big_val(*lam_ct), nv) < nv) ==> {
                &&& pail_msg(big_val(c), nv)
                    == (pail_msg(big_val(*dh_ct), nv) - r_div
                    - pail_msg(big_val(*lam_ct), nv)) % (
                nv as int)
                &&& pail_ct_ok(big_val(c), nv)
            })
        },
{
    let enc_rh = pail_encrypt(pk, r_div as u128);
    let neg_rh = match pail_try_negate(pk, &enc_rh) {
        Some(c) => c,
        None => {
            return None;
        },
    };
    let neg_lam = match pail_try_negate(pk, lam_ct) {
        Some(c) => c,
        None => {
            return None;
        },
    };
    let c = pail_add(pk, &pail_add(pk, dh_ct, &neg_rh), &neg_lam);
    proof {
        let nv = big_val(pk.n) as int;
        if pail_n_ok(big_val(pk.n))
            && pail_ct_ok(big_val(*dh_ct), nv as nat)
            && pail_msg(big_val(*dh_ct), nv as nat) < nv
            && pail_msg(big_val(*lam_ct), nv as nat) < nv {
            let mdh = pail_msg(big_val(*dh_ct), nv as nat) as int;
            let mlam = pail_msg(
                big_val(*lam_ct),
                nv as nat,
            ) as int;
            vstd::arithmetic::div_mod::lemma_mod_add_multiples_vanish(-(r_div as int % nv), nv);
            vstd::arithmetic::div_mod::lemma_sub_mod_noop_right(0, r_div as int, nv);
            vstd::arithmetic::div_mod::lemma_add_mod_noop_right(mdh, -(r_div as int), nv);
            vstd::arithmetic::div_mod::lemma_mod_add_multiples_vanish(-mlam, nv);
            vstd::arithmetic::div_mod::lemma_add_mod_noop(mdh - r_div, -mlam, nv);
        }
    }
    Some(c)
}

/// Alice's role in the encrypted comparison over a channel pair.  `a` and
/// `b` are Paillier ciphertexts of the two values under `pk_paillier`, whose
/// secret key Bob holds.  The sign selector is accepted for interface
/// compatibility and validated, but the subprotocol always runs with
/// `s = +1`; the masking makes its direction independent of the caller's
/// choice.  A modulus too small for the bit-width is an invariant violation,
/// detected at entry before any message.  The additive mask is a uniform
/// 64-bit draw, so the statistical hiding margin is `64 - l` bits:
/// comfortable at the default width, thin as `l` approaches its upper
/// bound.
pub fn alice_encrypted_comparison(
    tx: Sender<Vec<u8>>,
    rx: Receiver<Vec<u8>>,
    a: &BigUint,
    b: &BigUint,
    pk_paillier: &PaillierPk,
    pk_ecc: &EgPublicKey,
    s: i64,
    l: u32,
) -> (r: Result<bool, CompareError>)
    requires
        1 <= l <= 62,
        big_val(pk_paillier.n) >= 2,
    ensures
        (r == Err::<bool, CompareError>(CompareError::InputError)) <==> (s != 1 && s != -1),
        ((s == 1 || s == -1) && big_val(pk_paillier.n) < crate::bob::modulus_floor(l)) ==> r
            == Err::<bool, CompareError>(CompareError::InvariantError),
        ((s == 1 || s == -1) && big_val(pk_paillier.n)
            >= crate::bob::modulus_floor(l) && pail_n_ok(
            big_val(pk_paillier.n),
        ) && !pail_ct_ok(
            big_val(*b),
            big_val(pk_paillier.n),
        )) ==> r == Err::<bool, CompareError>(CompareError::InvariantError),
{
    if s != 1 && s != -1 {
        return Err(CompareError::InputError);
    }
    let floor = big_from_u128(crate::bob::modulus_floor_exec(l));
    if big_lt(&pk_paillier.n, &floor) {
        return Err(CompareError::InvariantError);
    }
    let r64 = random_u64();
    let d = match alice_mask(pk_paillier, a, b, l, r64) {
        Some(d) => d,
        None => {
            return Err(CompareError::InvariantError);
        },
    };
    if !send_frame(&tx, big_to_bytes(&d)) {
        return Err(CompareError::TransportError);
    }
    let dh_frame = match recv_frame(&rx) {
        Some(f) => f,
        None => {
            return Err(CompareError::TransportError);
        },
    };
    let dh_ct = big_from_bytes(dh_frame.as_slice());
    let dl_frame = match recv_frame(&rx) {
        Some(f) => f,
        None => {
            return Err(CompareError::TransportError);
        },
    };
    let _dl_ct = big_from_bytes(dl_frame.as_slice());
    let p = pow2_u64(l);
    let r_div = r64 / p;
    let r_lo = r64 % p;
    proof {
        vstd::arithmetic::div_mod::lemma_mod_bound(r64 as int, p as int);
    }
    match alice_plaintext_comparison(&tx, &rx, r_lo, pk_ecc, 1, l) {
        Ok(()) => (),
        Err(e) => {
            return Err(
                if e == CompareError::InputError {
                    proof {
                        assert(false);
                    }
                    CompareError::InvariantError
                } else {
                    e
                },
            );
        },
    }
    let lam_frame = match recv_frame(&rx) {
        Some(f) => f,
        None => {
            return Err(CompareError::TransportError);
        },
    };
    let lam_ct = big_from_bytes(lam_frame.as_slice());
    let combined = match alice_combine(pk_paillier, &dh_ct, r_div, &lam_ct) {
        Some(c) => c,
        None => {
            return Err(CompareError::InvariantError);
        },
    };
    if !send_frame(&tx, big_to_bytes(&combined)) {
        return Err(CompareError::TransportError);
    }
    let bit_frame = match recv_frame(&rx) {
        Some(f) => f,
        None => {
            return Err(CompareError::TransportError);
        },
    };
    bytes_to_bool(&bit_frame)
}

} // verus!
