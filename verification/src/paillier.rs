//! Trusted Paillier layer over `num-bigint` and `glass_pumpkin`.
//!
//! Big integers are opaque to the verifier; `big_val` names the value a
//! `BigUint` holds, and all contracts below are stated over those values.
//! Decryption of a ciphertext value `c` under the modulus `n` is a pure
//! function of `(c, n)` — the key material is determined by `n` — and is
//! named `pail_msg(c, n)`.  The wrappers state the textbook facts of the
//! Paillier cryptosystem with generator `n + 1`: what encryption encrypts,
//! that multiplying ciphertexts adds plaintexts modulo `n`, that a modular
//! inverse negates the plaintext, and what decryption returns.  `pail_n_ok`
//! names moduli produced honestly (a product of two distinct primes),
//! `pail_sk_ok` names matching key material, and `pail_ct_ok` names
//! ciphertext values that are units modulo `n^2` (every honestly produced
//! ciphertext is one).

use vstd::prelude::*;
use vstd::arithmetic::power2::pow2;
use num_bigint::BigUint;
use num_bigint::RandBigInt;

verus! {

#[verifier::external_type_specification]
#[verifier::external_body]
pub struct ExBigUint(BigUint);

/// The non-negative integer a `BigUint` holds.
pub uninterp spec fn big_val(b: BigUint) -> nat;

/// What Paillier decryption under the key material canonical for `n`
/// returns on the ciphertext value `c`.
pub uninterp spec fn pail_msg(c: nat, n: nat) -> nat;

/// `n` is an honestly generated Paillier modulus: a product of two distinct
/// primes of equal bit length whose totient is invertible modulo `n`.
pub uninterp spec fn pail_n_ok(n: nat) -> bool;

/// `(phi, mu)` is the key material canonical for the modulus `n`.
pub uninterp spec fn pail_sk_ok(n: nat, phi: nat, mu: nat) -> bool;

/// The ciphertext value `c` is a unit modulo `n^2`.
pub uninterp spec fn pail_ct_ok(c: nat, n: nat) -> bool;

/// Relies on `Clone` for `BigUint`: the clone holds the same integer.
pub assume_specification[ <BigUint as Clone>::clone ](b: &BigUint) -> (r: BigUint)
    ensures
        big_val(r) == big_val(*b),
;

/// A Paillier encryption key: the public modulus `n`.
#[derive(Clone)]
pub struct PaillierPk {
    /// The public modulus.
    pub n: BigUint,
}

/// A Paillier decryption key: the modulus and the canonical `(phi, mu)`.
pub struct PaillierSk {
    /// The public modulus.
    pub n: BigUint,
    /// `(p - 1) * (q - 1)`.
    pub phi: BigUint,
    /// The inverse of `phi` modulo `n`.
    pub mu: BigUint,
}

/// The modulus value of a public key.
pub open spec fn pk_n(pk: PaillierPk) -> nat {
    big_val(pk.n)
}

/// The secret key is internally consistent.
pub open spec fn sk_ok(sk: PaillierSk) -> bool {
    pail_sk_ok(big_val(sk.n), big_val(sk.phi), big_val(sk.mu))
}

/// Generates a fresh key pair from two distinct primes of `prime_bits` bits
/// each, drawn again until `phi` is invertible modulo `n` (it can fail to be
/// only when one prime divides the other's predecessor).  Relies on
/// `glass_pumpkin::prime::new` (a prime with the top bit set, erring only
/// below 128 bits, which the precondition rules out — so a key pair is
/// always produced) and on `num-bigint` arithmetic: the key material
/// returned is the canonical one for `n`, and decryption inverts encryption.
#[verifier::external_body]
pub fn pail_generate_keys(prime_bits: u32) -> (r: Option<(PaillierPk, PaillierSk)>)
    requires
        128 <= prime_bits <= 4096,
    ensures
        r is Some,
        r matches Some(ks) ==> {
            &&& big_val(ks.1.n) == big_val(ks.0.n)
            &&& pail_n_ok(big_val(ks.0.n))
            &&& pail_sk_ok(big_val(ks.0.n), big_val(ks.1.phi), big_val(ks.1.mu))
            &&& big_val(ks.0.n) >= pow2((2 * prime_bits - 2) as nat)
        },
{
    let bits = prime_bits as usize;
    let one = BigUint::from(1u32);
    let p = glass_pumpkin::prime::new(bits).ok()?;
    loop {
        let q = glass_pumpkin::prime::new(bits).ok()?;
        if q != p {
            let n = &p * &q;
            let phi = (&p - &one) * (&q - &one);
            if let Some(mu) = phi.modinv(&n) {
                return Some((PaillierPk { n: n.clone() }, PaillierSk { n, phi, mu }));
            }
        }
    }
}

/// Encrypts `m` under `pk` with fresh randomness: the ciphertext is
/// `(1 + m * n) * r^n mod n^2` for a random unit `r`.  Relies on
/// `num-bigint` modular arithmetic; for an honest modulus the result is a
/// unit that decrypts to `m mod n`.
#[verifier::external_body]
pub fn pail_encrypt(pk: &PaillierPk, m: u128) -> (c: BigUint)
    requires
        big_val(pk.n) >= 2,
    ensures
        pail_n_ok(big_val(pk.n)) ==> {
            &&& pail_msg(big_val(c), big_val(pk.n)) == m as nat % big_val(pk.n)
            &&& pail_ct_ok(big_val(c), big_val(pk.n))
        },
{
    let n = &pk.n;
    let nn = n * n;
    let g_m = (BigUint::from(1u32) + BigUint::from(m) * n) % &nn;
    let mut rng = rand::thread_rng();
    let mut r = rng.gen_biguint_below(n);
    while r.modinv(n).is_none() {
        r = rng.gen_biguint_below(n);
    }
    (g_m * r.modpow(n, &nn)) % &nn
}

/// Multiplies two ciphertexts modulo `n^2`, which adds the plaintexts
/// modulo `n`.  Relies on `num-bigint` multiplication and remainder.
#[verifier::external_body]
pub fn pail_add(pk: &PaillierPk, a: &BigUint, b: &BigUint) -> (c: BigUint)
    requires
        big_val(pk.n) >= 2,
    ensures
        (pail_n_ok(big_val(pk.n)) && pail_ct_ok(big_val(*a), big_val(pk.n)) && pail_ct_ok(
            big_val(*b),
            big_val(pk.n),
        )) ==> {
            &&& pail_msg(big_val(c), big_val(pk.n)) == (pail_msg(big_val(*a), big_val(pk.n))
                + pail_msg(big_val(*b), big_val(pk.n))) % big_val(pk.n)
            &&& pail_ct_ok(big_val(c), big_val(pk.n))
        },
{
    let nn = &pk.n * &pk.n;
    (a * b) % &nn
}

/// Inverts a ciphertext modulo `n^2`, which negates the plaintext modulo
/// `n`.  Relies on `BigUint::modinv`, which returns `None` exactly when the
/// value is not a unit.
#[verifier::external_body]
pub fn pail_try_negate(pk: &PaillierPk, c: &BigUint) -> (r: Option<BigUint>)
    requires
        big_val(pk.n) >= 2,
    ensures
        pail_n_ok(big_val(pk.n)) ==> {
            &&& (r is Some <==> pail_ct_ok(big_val(*c), big_val(pk.n)))
            &&& (r matches Some(ci) ==> {
                &&& pail_msg(big_val(ci), big_val(pk.n)) == (big_val(pk.n) - pail_msg(
                    big_val(*c),
                    big_val(pk.n),
                ) as int) % big_val(pk.n) as int
                &&& pail_ct_ok(big_val(ci), big_val(pk.n))
            })
        },
{
    let nn = &pk.n * &pk.n;
    c.modinv(&nn)
}

/// Decrypts: `((c^phi mod n^2) - 1) / n * mu mod n`.  Relies on `num-bigint`
/// `modpow`; returns `None` only when `c^phi mod n^2` is zero, which cannot
/// happen for a unit ciphertext.
#[verifier::external_body]
pub fn pail_decrypt(sk: &PaillierSk, c: &BigUint) -> (r: Option<BigUint>)
    requires
        big_val(sk.n) >= 2,
    ensures
        sk_ok(*sk) ==> {
            &&& (r matches Some(v) ==> big_val(v) == pail_msg(big_val(*c), big_val(sk.n))
                && big_val(v) < big_val(sk.n))
            &&& (pail_ct_ok(big_val(*c), big_val(sk.n)) ==> r is Some)
        },
{
    let n = &sk.n;
    let nn = n * n;
    let x = c.modpow(&sk.phi, &nn);
    let xm1 = num_traits::CheckedSub::checked_sub(&x, &BigUint::from(1u32))?;
    Some(((xm1 / n) * &sk.mu) % n)
}

/// The value of a byte string read as a little-endian integer.
pub open spec fn le_bytes_val(s: Seq<u8>) -> nat
    decreases s.len(),
{
    if s.len() == 0 {
        0
    } else {
        s[0] as nat + 256 * le_bytes_val(s.subrange(1, s.len() as int))
    }
}

/// Relies on `BigUint::from::<u128>`.
#[verifier::external_body]
pub fn big_from_u128(u: u128) -> (b: BigUint)
    ensures
        big_val(b) == u as nat,
{
    BigUint::from(u)
}

/// Relies on `ToPrimitive::to_u128`: succeeds exactly on values that fit.
#[verifier::external_body]
pub fn big_to_u128(b: &BigUint) -> (r: Option<u128>)
    ensures
        r matches Some(v) ==> v as nat == big_val(*b),
        r is None ==> big_val(*b) > u128::MAX as nat,
{
    num_traits::ToPrimitive::to_u128(b)
}

/// Relies on `BigUint::to_bytes_le`: the bytes decode back to the value.
#[verifier::external_body]
pub fn big_to_bytes(b: &BigUint) -> (r: Vec<u8>)
    ensures
        le_bytes_val(r@) == big_val(*b),
{
    b.to_bytes_le()
}

/// Relies on `BigUint::from_bytes_le`: accepts any byte string and reads it
/// as a little-endian integer.
#[verifier::external_body]
pub fn big_from_bytes(bytes: &[u8]) -> (b: BigUint)
    ensures
        big_val(b) == le_bytes_val(bytes@),
{
    BigUint::from_bytes_le(bytes)
}

/// Relies on `Ord` for `BigUint`: comparison of the held values.
#[verifier::external_body]
pub fn big_lt(a: &BigUint, b: &BigUint) -> (r: bool)
    ensures
        r == (big_val(*a) < big_val(*b)),
{
    a < b
}

} // verus!
