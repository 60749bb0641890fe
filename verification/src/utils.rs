//! The bit-vector encoder shared by both parties.
//!
//! `cumulative_power_two` encodes a plaintext of a given bit-width into one
//! ElGamal ciphertext per bit index, in descending order.  At index `i` the
//! encrypted exponent is `op(op(s, bit_i), hi_i)` where `bit_i` is the bit
//! and `hi_i` the value of all higher bits; `op` is addition for one party
//! and subtraction for the other, and `s` is the sign selector.  An
//! oversized plaintext is rejected, never truncated.

use vstd::prelude::*;
use vstd::arithmetic::div_mod::*;
use vstd::arithmetic::power2::*;
use vstd::bits::lemma_u64_shl_is_mul;
use crate::CompareError;
use crate::bits::{hi_above, nbit};
use crate::elgamal::{ct_wf, dec_under, eg_encrypt, signed_residue, EgCiphertext, EgPublicKey};
use crate::group::group_order;

verus! {

/// The integer operation threaded through the encoder: `+` or `-`.
#[derive(Debug, Clone, Copy, PartialEq, Eq, Structural)]
pub enum BitOp {
    /// Combine terms by addition (used by the party that publishes first).
    Add,
    /// Combine terms by subtraction (used by the responding party).
    Sub,
}

/// The operation as a function on integers.
pub open spec fn apply_op(op: BitOp, a: int, b: int) -> int {
    match op {
        BitOp::Add => a + b,
        BitOp::Sub => a - b,
    }
}

/// The exponent the encoder produces for bit index `i`.
pub open spec fn enc_value(op: BitOp, s: int, plain: nat, i: nat) -> int {
    apply_op(op, apply_op(op, s, nbit(plain, i) as int), hi_above(plain, i) as int)
}

/// The residue class of `v` modulo the group order.
pub open spec fn emod(v: int) -> int {
    v % group_order()
}

/// `2^e` as a 64-bit word.
pub fn pow2_u64(e: u32) -> (r: u64)
    requires
        e < 64,
    ensures
        r as nat == pow2(e as nat),
        r >= 1,
{
    proof {
        lemma2_to64();
        lemma2_to64_rest();
        lemma_pow2_pos(e as nat);
        if e < 63 {
            lemma_pow2_strictly_increases(e as nat, 63);
        }
        assert(pow2(e as nat) <= 0x8000000000000000);
        assert(1u64 * pow2(e as nat) == pow2(e as nat)) by (nonlinear_arith);
        lemma_u64_shl_is_mul(1u64, e as u64);
    }
    1u64 << e
}

/// Bit `i` of `x`.
pub fn nbit_u64(x: u64, i: u32) -> (r: u64)
    requires
        i < 64,
    ensures
        r as nat == nbit(x as nat, i as nat),
        r <= 1,
{
    let p = pow2_u64(i);
    (x / p) % 2
}

/// The value of the bits of `x` strictly above index `i`.
pub fn hi_u64(x: u64, i: u32) -> (r: u64)
    requires
        i < 64,
    ensures
        r as nat == hi_above(x as nat, i as nat),
{
    if i == 63 {
        proof {
            lemma2_to64();
            lemma_basic_div(x as int, pow2(64) as int);
        }
        0
    } else {
        let p = pow2_u64(i + 1);
        proof {
            lemma_fundamental_div_mod(x as int, p as int);
            lemma_mod_bound(x as int, p as int);
            vstd::arithmetic::mul::lemma_mul_is_commutative(p as int, x as int / p as int);
            assert((x as int / p as int) * (p as int) <= x as int);
        }
        (x / p) * p
    }
}

/// The exponent the encoder produces for bit index `i`, as a machine value.
pub fn enc_value_exec(op: BitOp, s: i64, plain: u64, i: u32) -> (r: i128)
    requires
        i < 64,
        -1 <= s <= 1,
    ensures
        r as int == enc_value(op, s as int, plain as nat, i as nat),
        -0x20000000000000000 <= r as int <= 0x20000000000000000,
{
    let b = nbit_u64(plain, i) as i128;
    let h = hi_u64(plain, i) as i128;
    proof {
        lemma_pow2_pos((i + 1) as nat);
        lemma_fundamental_div_mod(plain as int, pow2((i + 1) as nat) as int);
        lemma_mod_bound(plain as int, pow2((i + 1) as nat) as int);
    }
    match op {
        BitOp::Add => s as i128 + b + h,
        BitOp::Sub => s as i128 - b - h,
    }
}

/// Produces the per-bit partial sums of `plain`, encrypted under `pk`, in
/// descending bit-index order (index `width - 1` first).  The entry at
/// position `j` encrypts the exponent `enc_value(op, s, plain, width-1-j)`.
/// Rejects a sign selector outside `{-1, 0, +1}` and a plaintext of `width`
/// bits or more.
pub fn cumulative_power_two(plain: u64, op: BitOp, s: i64, pk: &EgPublicKey, width: u32) -> (r:
    Result<Vec<EgCiphertext>, CompareError>)
    requires
        1 <= width <= 64,
    ensures
        (r is Err) <==> (s < -1 || s > 1 || (plain as nat) >= pow2(width as nat)),
        r is Err ==> r == Err::<Vec<EgCiphertext>, CompareError>(CompareError::InputError),
        r matches Ok(v) ==> {
            &&& v@.len() == width as nat
            &&& forall|j: int|
                0 <= j < width as int ==> #[trigger] dec_under(*pk, v@[j]) == emod(
                    enc_value(op, s as int, plain as nat, (width - 1 - j) as nat),
                ) && ct_wf(v@[j])
        },
{
    if s < -1 || s > 1 {
        return Err(CompareError::InputError);
    }
    if width < 64 {
        let p = pow2_u64(width);
        if plain >= p {
            return Err(CompareError::InputError);
        }
    } else {
        proof {
            lemma2_to64();
        }
    }
    let mut out: Vec<EgCiphertext> = Vec::new();
    let mut j: u32 = 0;
    while j < width
        invariant
            1 <= width <= 64,
            j <= width,
            -1 <= s <= 1,
            (plain as nat) < pow2(width as nat),
            out@.len() == j as nat,
            forall|t: int|
                0 <= t < j as int ==> #[trigger] dec_under(*pk, out@[t]) == emod(
                    enc_value(op, s as int, plain as nat, (width - 1 - t) as nat),
                ) && ct_wf(out@[t]),
        decreases width - j,
    {
        let i: u32 = width - 1 - j;
        let v = enc_value_exec(op, s, plain, i);
        let neg = v < 0;
        let mag: u128 = if neg {
            (-v) as u128
        } else {
            v as u128
        };
        let c = eg_encrypt(pk, mag, neg);
        proof {
            if neg {
                assert(signed_residue(mag, neg) == emod(v as int));
            } else {
                assert(signed_residue(mag, neg) == emod(v as int));
            }
        }
        out.push(c);
        j = j + 1;
    }
    Ok(out)
}

} // verus!
