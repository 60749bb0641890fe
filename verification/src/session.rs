//! Whole-protocol sessions, verified end to end.
//!
//! A session runs both roles in one call, exchanging values directly instead
//! of through a channel; the cryptographic operations are exactly those of
//! the channel roles.  The contracts here are the protocol's theorems: the
//! plaintext session reports `y > x` (inverted under the sign selector
//! `s = -1`), and the encrypted session reports `a > b`.

use vstd::prelude::*;
use vstd::arithmetic::div_mod::*;
use vstd::arithmetic::power2::*;
use crate::CompareError;
use crate::alice::{alice_encoded, alice_respond};
use crate::bits::{lemma_zero_sum_iff_lt, pair_sum};
use crate::bob::{bob_encoded, bob_make_terms, bob_scan_zero};
use crate::elgamal::{
    dec_log, dec_under, eg_generate_keys, lemma_pow2_ell, lemma_small_mod_zero, pk_log,
};
use crate::group::{group_order, sc_val};
use num_bigint::BigUint;
use crate::paillier::{
    big_to_u128, big_val, pail_ct_ok, pail_decrypt, pail_encrypt, pail_generate_keys, pail_msg,
    pail_n_ok, sk_ok, PaillierPk, PaillierSk,
};
use crate::rng::random_u64;
use crate::utils::{emod, enc_value, pow2_u64, BitOp};

verus! {

/// A value fits the working bit-width.
pub open spec fn in_range(v: u64, l: u32) -> bool {
    (v as nat) < pow2(l as nat)
}

/// What the plaintext protocol reports: `y > x` under `s = +1`, and its
/// negation under `s = -1`.
pub open spec fn plaintext_outcome(y_alice: u64, x_bob: u64, s: int) -> bool {
    if s == 1 {
        y_alice > x_bob
    } else {
        y_alice <= x_bob
    }
}

/// The sum of the two parties' encoded exponents at bit index `i`.
pub open spec fn term_sum(x_bob: u64, y_alice: u64, s: int, i: nat) -> int {
    enc_value(BitOp::Add, 0, bob_encoded(x_bob), i) + enc_value(
        BitOp::Sub,
        s,
        alice_encoded(y_alice),
        i,
    )
}

/// The DGK kernel at the protocol level: over the `l + 2` encoded bit
/// positions, some index has a zero pair sum exactly when the protocol's
/// outcome holds — and that index is unique, so the number of zeros reveals
/// nothing beyond the outcome.
pub proof fn lemma_term_sum_kernel(x_bob: u64, y_alice: u64, s: int, l: u32)
    requires
        1 <= l <= 62,
        in_range(x_bob, l),
        in_range(y_alice, l),
        s == 1 || s == -1,
    ensures
        (exists|i: nat| i < l + 2 && #[trigger] term_sum(x_bob, y_alice, s, i) == 0)
            <==> plaintext_outcome(y_alice, x_bob, s),
        forall|i: nat, j: nat|
            i < l + 2 && j < l + 2 && #[trigger] term_sum(x_bob, y_alice, s, i) == 0
                && #[trigger] term_sum(x_bob, y_alice, s, j) == 0 ==> i == j,
{
    let xv = bob_encoded(x_bob);
    let yv = alice_encoded(y_alice);
    let nb = (l + 2) as nat;
    lemma_pow2_adds(l as nat, 2);
    lemma2_to64();
    assert(xv < pow2(nb) && yv < pow2(nb));
    assert(yv != xv + 1 && xv != yv + 1);
    if s == 1 {
        assert forall|i: nat| term_sum(x_bob, y_alice, 1, i) == pair_sum(xv, yv, i) by {}
        lemma_zero_sum_iff_lt(xv, yv, nb);
        if exists|i: nat| i < nb && #[trigger] term_sum(x_bob, y_alice, s, i) == 0 {
            let i = choose|i: nat| i < nb && #[trigger] term_sum(x_bob, y_alice, s, i) == 0;
            assert(pair_sum(xv, yv, i) == 0);
        }
        if plaintext_outcome(y_alice, x_bob, s) {
            assert(xv < yv);
            let i = choose|i: nat| i < nb && #[trigger] pair_sum(xv, yv, i) == 0;
            assert(term_sum(x_bob, y_alice, s, i) == 0);
        }
        assert forall|i: nat, j: nat|
            i < nb && j < nb && #[trigger] term_sum(x_bob, y_alice, s, i) == 0
                && #[trigger] term_sum(x_bob, y_alice, s, j) == 0 implies i == j by {
            crate::bits::lemma_pair_zero_unique(xv, yv, i, j);
        }
    } else {
        assert forall|i: nat| term_sum(x_bob, y_alice, -1, i) == -pair_sum(yv, xv, i) by {}
        lemma_zero_sum_iff_lt(yv, xv, nb);
        if exists|i: nat| i < nb && #[trigger] term_sum(x_bob, y_alice, s, i) == 0 {
            let i = choose|i: nat| i < nb && #[trigger] term_sum(x_bob, y_alice, s, i) == 0;
            assert(pair_sum(yv, xv, i) == 0);
        }
        if plaintext_outcome(y_alice, x_bob, s) {
            assert(yv < xv);
            let i = choose|i: nat| i < nb && #[trigger] pair_sum(yv, xv, i) == 0;
            assert(term_sum(x_bob, y_alice, s, i) == 0);
        }
        assert forall|i: nat, j: nat|
            i < nb && j < nb && #[trigger] term_sum(x_bob, y_alice, s, i) == 0
                && #[trigger] term_sum(x_bob, y_alice, s, j) == 0 implies i == j by {
            crate::bits::lemma_pair_zero_unique(yv, xv, i, j);
        }
    }
}

/// Bounds on every encoded exponent: it never strays past one bit beyond the
/// plaintext's magnitude.
proof fn lemma_enc_value_bounds(op: BitOp, s: int, plain: nat, i: nat)
    requires
        -1 <= s <= 1,
    ensures
        -(plain + 2) <= enc_value(op, s, plain, i) <= plain + 2,
{
    crate::bits::lemma_nbit_bound(plain, i);
    lemma_pow2_pos((i + 1) as nat);
    lemma_fundamental_div_mod(plain as int, pow2((i + 1) as nat) as int);
    lemma_mod_bound(plain as int, pow2((i + 1) as nat) as int);
}

/// Runs the plaintext comparison in one call: fresh keys, Bob's terms,
/// Alice's blinded response, Bob's scan.  Reports `y > x` under `s = +1`,
/// its negation under `s = -1`; rejects out-of-range inputs and any other
/// sign selector.
#[verifier::rlimit(100)]
pub fn plaintext_comparison_session(y_alice: u64, x_bob: u64, s: i64, l: u32) -> (r: Result<
    bool,
    CompareError,
>)
    requires
        1 <= l <= 62,
    ensures
        (r is Err) <==> (!in_range(y_alice, l) || !in_range(x_bob, l) || (s != 1 && s != -1)),
        r is Err ==> r == Err::<bool, CompareError>(CompareError::InputError),
        r matches Ok(bit) ==> bit == plaintext_outcome(y_alice, x_bob, s as int),
{
    let p = pow2_u64(l);
    if y_alice >= p || x_bob >= p || (s != 1 && s != -1) {
        return Err(CompareError::InputError);
    }
    let (pk, sk) = eg_generate_keys();
    let t = match bob_make_terms(x_bob, l, &pk) {
        Ok(t) => t,
        Err(_) => {
            proof {
                assert(false);
            }
            return Err(CompareError::InputError);
        },
    };
    proof {
        assert forall|j: int| 0 <= j < t@.len() implies #[trigger] crate::elgamal::ct_wf(
            t@[j],
        ) by {
            assert(dec_under(pk, t@[j]) == emod(
                enc_value(BitOp::Add, 0, bob_encoded(x_bob), (l + 1 - j) as nat),
            ));
        }
    }
    let e = match alice_respond(y_alice, s, l, &pk, &t) {
        Ok(e) => e,
        Err(_) => {
            proof {
                assert(false);
            }
            return Err(CompareError::InputError);
        },
    };
    let bit = bob_scan_zero(&sk, &e);
    proof {
        let ell = group_order();
        let k = sc_val(sk.scalar);
        lemma_pow2_ell();
        lemma_pow2_strictly_increases(l as nat, 63);
        lemma_pow2_adds(l as nat, 2);
        lemma_pow2_strictly_increases((l + 2) as nat, 65);
        lemma2_to64();
        lemma2_to64_rest();
        let xv = bob_encoded(x_bob);
        let yv = alice_encoded(y_alice);
        // The scan result, restated over the public key.
        assert(k == pk_log(pk));
        if bit {
            let j = choose|j: int| 0 <= j < e@.len() && #[trigger] dec_log(k, e@[j]) == 0;
            assert(dec_under(pk, e@[j]) == 0);
            assert(exists|j: int| 0 <= j < l + 2 && #[trigger] dec_under(pk, e@[j]) == 0);
        }
        if exists|j: int| 0 <= j < l + 2 && #[trigger] dec_under(pk, e@[j]) == 0 {
            let j = choose|j: int| 0 <= j < l + 2 && #[trigger] dec_under(pk, e@[j]) == 0;
            assert(dec_log(k, e@[j]) == 0);
            assert(bit);
        }
        // Each pairwise exponent sum is zero exactly when the term sum is.
        assert forall|j: int| 0 <= j < l + 2 implies ((#[trigger] dec_under(pk, t@[j]) + emod(
            enc_value(BitOp::Sub, s as int, yv, (l + 1 - j) as nat),
        )) % ell == 0 <==> term_sum(x_bob, y_alice, s as int, (l + 1 - j) as nat) == 0) by {
            let bt = enc_value(BitOp::Add, 0, xv, (l + 1 - j) as nat);
            let av = enc_value(BitOp::Sub, s as int, yv, (l + 1 - j) as nat);
            assert(dec_under(pk, t@[j]) == emod(bt));
            lemma_add_mod_noop(bt, av, ell);
            lemma_enc_value_bounds(BitOp::Add, 0, xv, (l + 1 - j) as nat);
            lemma_enc_value_bounds(BitOp::Sub, s as int, yv, (l + 1 - j) as nat);
            lemma_small_mod_zero(bt + av, ell);
        }
        // Bridge the two quantifier shapes (position against bit index).
        if exists|j: int|
            0 <= j < l + 2 && (#[trigger] dec_under(pk, t@[j]) + emod(
                enc_value(BitOp::Sub, s as int, yv, (l + 1 - j) as nat),
            )) % ell == 0 {
            let j = choose|j: int|
                0 <= j < l + 2 && (#[trigger] dec_under(pk, t@[j]) + emod(
                    enc_value(BitOp::Sub, s as int, yv, (l + 1 - j) as nat),
                )) % ell == 0;
            assert(term_sum(x_bob, y_alice, s as int, (l + 1 - j) as nat) == 0);
            assert(exists|i: nat|
                i < l + 2 && #[trigger] term_sum(x_bob, y_alice, s as int, i) == 0);
        }
        if exists|i: nat| i < l + 2 && #[trigger] term_sum(x_bob, y_alice, s as int, i) == 0 {
            let i = choose|i: nat|
                i < l + 2 && #[trigger] term_sum(x_bob, y_alice, s as int, i) == 0;
            let j = l + 1 - i as int;
            assert((dec_under(pk, t@[j]) + emod(enc_value(BitOp::Sub, s as int, yv, i))) % ell
                == 0);
            assert(exists|j: int|
                0 <= j < l + 2 && (#[trigger] dec_under(pk, t@[j]) + emod(
                    enc_value(BitOp::Sub, s as int, yv, (l + 1 - j) as nat),
                )) % ell == 0);
        }
        lemma_term_sum_kernel(x_bob, y_alice, s as int, l);
    }
    Ok(bit)
}

/// The full encrypted comparison over given key material: Alice's additive
/// masking of `Enc(a) - Enc(b)`, Bob's split of the masked value by `2^l`,
/// the plaintext subprotocol on the low words, and the homomorphic
/// combination whose decryption is the comparison bit.  Runs exactly the
/// contracted steps of the channel roles.  For honest keys and unit
/// ciphertexts of values below `2^l`, the reported bit is exactly whether
/// the first plaintext is the larger one.
#[verifier::rlimit(100)]
pub fn encrypted_comparison_with_keys(
    ca: &BigUint,
    cb: &BigUint,
    pkn: &PaillierPk,
    skn: &PaillierSk,
    l: u32,
) -> (r: Result<bool, CompareError>)
    requires
        1 <= l <= 62,
        big_val(skn.n) == big_val(pkn.n),
        sk_ok(*skn),
        pail_n_ok(big_val(pkn.n)),
        big_val(pkn.n) >= pow2(66),
        pail_ct_ok(big_val(*ca), big_val(pkn.n)),
        pail_ct_ok(big_val(*cb), big_val(pkn.n)),
        pail_msg(big_val(*ca), big_val(pkn.n)) < pow2(l as nat),
        pail_msg(big_val(*cb), big_val(pkn.n)) < pow2(l as nat),
    ensures
        r == Ok::<bool, CompareError>(
            pail_msg(big_val(*ca), big_val(pkn.n)) > pail_msg(big_val(*cb), big_val(pkn.n)),
        ),
{
    let ghost nv = big_val(pkn.n);
    let ghost a = pail_msg(big_val(*ca), nv);
    let ghost b = pail_msg(big_val(*cb), nv);
    let p = pow2_u64(l);
    proof {
        lemma_pow2_strictly_increases(l as nat, 63);
        lemma_pow2_strictly_increases(l as nat, 66);
        lemma_pow2_strictly_increases(1, 66);
        lemma_pow2_adds(l as nat, 1);
        lemma_pow2_adds(62, 1);
        lemma_pow2_adds(63, 1);
        lemma_pow2_adds(64, 1);
        lemma_pow2_adds(65, 1);
        lemma2_to64();
        lemma2_to64_rest();
    }
    let r64 = random_u64();
    let d_ct = match crate::alice::alice_mask(pkn, ca, cb, l, r64) {
        Some(d) => d,
        None => {
            proof {
                assert(false);
            }
            return Err(CompareError::InvariantError);
        },
    };
    let ghost d_val: int = pow2(l as nat) - 1 + a - b + r64;
    proof {
        assert(0 <= d_val < pow2(66));
        lemma_small_mod(d_val as nat, nv as nat);
        assert(pail_msg(big_val(d_ct), nv) == d_val);
        assert(d_val < pow2((l + 1) as nat) + pow2(64));
    }
    let split = match crate::bob::bob_unmask(pkn, skn, &d_ct, l) {
        Some(t) => t,
        None => {
            proof {
                assert(false);
            }
            return Err(CompareError::InvariantError);
        },
    };
    let r_div = r64 / p;
    let r_lo = r64 % p;
    proof {
        lemma_mod_bound(r64 as int, p as int);
    }
    let lam = match plaintext_comparison_session(r_lo, split.2, 1, l) {
        Ok(bb) => bb,
        Err(_) => {
            proof {
                assert(false);
            }
            return Err(CompareError::InvariantError);
        },
    };
    proof {
        crate::bits::lemma_masked_quotient(a, b, r64 as nat, l as nat);
    }
    let lam_u: u128 = if lam {
        1
    } else {
        0
    };
    let enc_lam = pail_encrypt(pkn, lam_u);
    let ghost eh: int = if a > b {
        1int
    } else {
        0int
    };
    proof {
        lemma_div_pos_is_pos(d_val, p as int);
        lemma_div_nonincreasing(d_val, p as int);
        lemma_small_mod((d_val / (p as int)) as nat, nv as nat);
        lemma_small_mod(lam_u as nat, nv as nat);
        assert(split.2 == d_val % (p as int));
        assert(lam_u as int == (if (r64 as int) % (p as int) > d_val % (p as int) {
            1int
        } else {
            0int
        }));
        assert(d_val / (p as int) - r_div as int - lam_u as int == eh);
        assert(pail_msg(big_val(split.0), nv) == d_val / (p as int));
        assert(pail_msg(big_val(split.0), nv) < nv);
    }
    let combined = match crate::alice::alice_combine(pkn, &split.0, r_div, &enc_lam) {
        Some(c) => c,
        None => {
            proof {
                assert(false);
            }
            return Err(CompareError::InvariantError);
        },
    };
    proof {
        lemma_small_mod(eh as nat, nv as nat);
        assert(pail_msg(big_val(combined), nv) == eh);
    }
    let res_big = match pail_decrypt(skn, &combined) {
        Some(v) => v,
        None => {
            proof {
                assert(false);
            }
            return Err(CompareError::InvariantError);
        },
    };
    let res = match big_to_u128(&res_big) {
        Some(v) => v,
        None => {
            proof {
                assert(false);
            }
            return Err(CompareError::InvariantError);
        },
    };
    Ok(res == 1)
}

/// Runs the encrypted comparison in one call, on freshly generated keys:
/// the two inputs are Paillier-encrypted and handed to the keyed protocol.
/// On in-range inputs the comparison bit is always produced and is exactly
/// `a > b`.
pub fn encrypted_comparison_session(a: u64, b: u64, l: u32, prime_bits: u32) -> (r: Result<
    bool,
    CompareError,
>)
    requires
        1 <= l <= 62,
        128 <= prime_bits <= 4096,
    ensures
        (r == Err::<bool, CompareError>(CompareError::InputError)) <==> (!in_range(a, l)
            || !in_range(b, l)),
        (in_range(a, l) && in_range(b, l)) ==> r == Ok::<bool, CompareError>(a > b),
{
    let p = pow2_u64(l);
    if a >= p || b >= p {
        return Err(CompareError::InputError);
    }
    let (pkn, skn) = match pail_generate_keys(prime_bits) {
        Some(ks) => ks,
        None => {
            proof {
                assert(false);
            }
            return Err(CompareError::InvariantError);
        },
    };
    proof {
        lemma_pow2_pos((2 * prime_bits - 2) as nat);
        lemma_pow2_strictly_increases(66, (2 * prime_bits - 2) as nat);
        lemma_pow2_strictly_increases(l as nat, 66);
        lemma_small_mod(a as nat, big_val(pkn.n) as nat);
        lemma_small_mod(b as nat, big_val(pkn.n) as nat);
    }
    let ca = pail_encrypt(&pkn, a as u128);
    let cb = pail_encrypt(&pkn, b as u128);
    match encrypted_comparison_with_keys(&ca, &cb, &pkn, &skn, l) {
        Ok(bit) => Ok(bit),
        Err(_) => {
            proof {
                assert(false);
            }
            Err(CompareError::InvariantError)
        },
    }
}

/// Two successful runs on the same inputs report the same bit: the reported
/// value is a function of the inputs alone, whatever randomness each run
/// drew.
pub proof fn lemma_runs_agree(
    y_alice: u64,
    x_bob: u64,
    s: int,
    r1: Result<bool, CompareError>,
    r2: Result<bool, CompareError>,
)
    requires
        r1 matches Ok(b1) && b1 == plaintext_outcome(y_alice, x_bob, s),
        r2 matches Ok(b2) && b2 == plaintext_outcome(y_alice, x_bob, s),
    ensures
        r1 == r2,
{
}

/// Exactly one of `a > b`, `b > a`, `a == b` holds.
pub proof fn lemma_comparison_trichotomy(a: u64, b: u64)
    ensures
        (((a > b) ^ (b > a)) ^ (a == b)) == true,
{
}

} // verus!

