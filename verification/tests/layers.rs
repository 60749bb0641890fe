//! Tests of the cryptographic layers, the encoder, the framing, and the
//! channel roles.

use std::sync::mpsc::channel;

use ec_el_gamal_comparison::alice::alice_plaintext_comparison;
use ec_el_gamal_comparison::bob::{bob_make_terms, bob_plaintext_comparison, bob_scan_zero};
use ec_el_gamal_comparison::elgamal::{
    eg_add, eg_encrypt, eg_generate_keys, eg_is_zero, eg_scale,
};
use ec_el_gamal_comparison::paillier::{
    big_from_bytes, big_from_u128, big_to_bytes, big_to_u128, pail_add, pail_decrypt,
    pail_encrypt, pail_generate_keys, pail_try_negate,
};
use ec_el_gamal_comparison::utils::{cumulative_power_two, BitOp};
use ec_el_gamal_comparison::wire::{bool_to_bytes, bytes_to_bool, bytes_to_cts, cts_to_bytes};
use ec_el_gamal_comparison::CompareError;

#[test]
fn test_elgamal_zero_detection() {
    let (pk, sk) = eg_generate_keys();
    assert!(eg_is_zero(&sk, &eg_encrypt(&pk, 0, false)));
    assert!(!eg_is_zero(&sk, &eg_encrypt(&pk, 5, false)));
    let cancelled = eg_add(&eg_encrypt(&pk, 5, false), &eg_encrypt(&pk, 5, true));
    assert!(eg_is_zero(&sk, &cancelled));
    let off_by_one = eg_add(&eg_encrypt(&pk, 5, false), &eg_encrypt(&pk, 4, true));
    assert!(!eg_is_zero(&sk, &off_by_one));
}

#[test]
fn test_elgamal_blinding_preserves_zero() {
    let (pk, sk) = eg_generate_keys();
    let z = eg_encrypt(&pk, 0, false);
    let z_blinded = eg_scale(&z, 123456789);
    assert!(eg_is_zero(&sk, &z_blinded));
    let nz = eg_encrypt(&pk, 9, false);
    let nz_blinded = eg_scale(&nz, 987654321);
    assert!(!eg_is_zero(&sk, &nz_blinded));
    // Blinding must actually change the ciphertext, not only keep its
    // zero/nonzero status.
    assert_ne!(cts_to_bytes(&vec![nz]), cts_to_bytes(&vec![nz_blinded]));
}

#[test]
fn test_encoder_exact_values() {
    // With `op = +`, `s = 0` the exponent at bit index i is
    // bit_i + (value of the bits above i); position j carries index
    // width - 1 - j.
    let (pk, sk) = eg_generate_keys();
    let v1 = cumulative_power_two(1, BitOp::Add, 0, &pk, 8).unwrap();
    assert_eq!(v1.len(), 8);
    for (j, ct) in v1.iter().enumerate() {
        // For plaintext 1 only bit index 0 gives a nonzero exponent.
        assert_eq!(eg_is_zero(&sk, ct), j != 7);
    }
    let v2 = cumulative_power_two(2, BitOp::Add, 0, &pk, 8).unwrap();
    for (j, ct) in v2.iter().enumerate() {
        // For plaintext 2 the exponents at bit indices 0 and 1 are 2 and 1.
        assert_eq!(eg_is_zero(&sk, ct), j != 7 && j != 6);
    }
}

#[test]
fn test_alice_rejects_wrong_vector_length() {
    let (pk, _sk) = eg_generate_keys();
    let short = vec![eg_encrypt(&pk, 1, false), eg_encrypt(&pk, 2, false)];
    assert!(matches!(
        ec_el_gamal_comparison::alice::alice_respond(5, 1, 32, &pk, &short),
        Err(CompareError::InvariantError)
    ));
}

#[test]
fn test_single_zero_even_for_adjacent_values() {
    // Bob counts identity points in the returned vector; the count must be
    // exactly one whenever the outcome holds, even for adjacent inputs and
    // at equality under the inverted selector, so that it reveals nothing
    // beyond the comparison bit.
    let (pk, sk) = eg_generate_keys();
    let cases: [(u64, u64, i64); 6] =
        [(1, 2, 1), (2, 3, 1), (7, 8, 1), (1, 1, -1), (2, 2, -1), (5, 3, -1)];
    for (x, y, s) in cases {
        let t = bob_make_terms(x, 32, &pk).unwrap();
        let e = ec_el_gamal_comparison::alice::alice_respond(y, s, 32, &pk, &t).unwrap();
        let zeros = e.iter().filter(|c| eg_is_zero(&sk, c)).count();
        assert_eq!(zeros, 1, "x={} y={} s={}", x, y, s);
    }
    // And none at all when the outcome does not hold.
    let t = bob_make_terms(9, 32, &pk).unwrap();
    let e = ec_el_gamal_comparison::alice::alice_respond(9, 1, 32, &pk, &t).unwrap();
    assert_eq!(e.iter().filter(|c| eg_is_zero(&sk, c)).count(), 0);
}

#[test]
fn test_ciphertexts_fresh() {
    // Two encodings of the same plaintext under the same key must differ on
    // the wire: every ciphertext carries fresh randomness.
    let (pk, _sk) = eg_generate_keys();
    let v1 = cumulative_power_two(77, BitOp::Add, 0, &pk, 32).unwrap();
    let v2 = cumulative_power_two(77, BitOp::Add, 0, &pk, 32).unwrap();
    assert_ne!(cts_to_bytes(&v1), cts_to_bytes(&v2));
}

#[test]
fn test_encoder_rejects_bad_sign() {
    let (pk, _sk) = eg_generate_keys();
    assert!(cumulative_power_two(3, BitOp::Sub, 5, &pk, 32).is_err());
    assert!(cumulative_power_two(3, BitOp::Sub, -2, &pk, 32).is_err());
}

#[test]
fn test_encoder_rejects_oversized_plaintext() {
    let (pk, _sk) = eg_generate_keys();
    assert!(matches!(
        cumulative_power_two(1u64 << 32, BitOp::Add, 0, &pk, 32),
        Err(CompareError::InputError)
    ));
    assert!(matches!(
        cumulative_power_two(256, BitOp::Add, 0, &pk, 8),
        Err(CompareError::InputError)
    ));
    assert!(cumulative_power_two(255, BitOp::Add, 0, &pk, 8).is_ok());
}

#[test]
fn test_encoder_frame_roundtrip() {
    let (pk, sk) = eg_generate_keys();
    let v = cumulative_power_two(5, BitOp::Add, 0, &pk, 34).unwrap();
    assert_eq!(v.len(), 34);
    let bytes = cts_to_bytes(&v);
    assert_eq!(bytes.len(), 64 * 34);
    let back = bytes_to_cts(&bytes, 34).unwrap();
    assert_eq!(back.len(), 34);
    assert_eq!(bob_scan_zero(&sk, &v), bob_scan_zero(&sk, &back));
}

#[test]
fn test_frame_rejects_garbage() {
    let short = vec![1u8, 2, 3];
    assert!(bytes_to_cts(&short, 34).is_err());
    let zeros = vec![0u8; 64 * 34];
    // The all-zero 32-byte string decodes to the identity point, so this one
    // parses; flipping bits makes blocks that are not canonical encodings.
    let mut bad = vec![0u8; 64 * 34];
    for (i, byte) in bad.iter_mut().enumerate() {
        *byte = (i % 251) as u8;
    }
    assert!(bytes_to_cts(&zeros, 34).is_ok());
    assert!(bytes_to_cts(&bad, 34).is_err());
}

#[test]
fn test_paillier_roundtrip() {
    let (pk, sk) = pail_generate_keys(128).unwrap();
    let c = pail_encrypt(&pk, 42);
    assert_eq!(big_to_u128(&pail_decrypt(&sk, &c).unwrap()), Some(42));
    let sum = pail_add(&pk, &c, &pail_encrypt(&pk, 8));
    assert_eq!(big_to_u128(&pail_decrypt(&sk, &sum).unwrap()), Some(50));
    let neg3 = pail_try_negate(&pk, &pail_encrypt(&pk, 3)).unwrap();
    let zero = pail_add(&pk, &neg3, &pail_encrypt(&pk, 3));
    assert_eq!(big_to_u128(&pail_decrypt(&sk, &zero).unwrap()), Some(0));
}

#[test]
fn test_big_integer_bytes_roundtrip() {
    let v = big_from_u128(0x1234567890abcdefu128);
    let back = big_from_bytes(&big_to_bytes(&v));
    assert_eq!(big_to_u128(&back), Some(0x1234567890abcdefu128));
}

#[test]
fn test_bool_frame_roundtrip() {
    assert_eq!(bytes_to_bool(&bool_to_bytes(true)), Ok(true));
    assert_eq!(bytes_to_bool(&bool_to_bytes(false)), Ok(false));
    assert_eq!(bytes_to_bool(&vec![7u8]), Err(CompareError::TransportError));
    assert_eq!(bytes_to_bool(&Vec::new()), Err(CompareError::TransportError));
}

#[test]
fn test_alice_channel_role() {
    // Drive Alice's channel role against Bob's two steps, single-threaded:
    // the buffered channels carry the frames.
    let (pk, sk) = eg_generate_keys();
    let (tx_bob, rx_alice) = channel::<Vec<u8>>();
    let (tx_alice, rx_bob) = channel::<Vec<u8>>();
    let x: u64 = 1000;
    let y: u64 = 2500;
    let t = bob_make_terms(x, 32, &pk).unwrap();
    assert_eq!(t.len(), 34);
    tx_bob.send(cts_to_bytes(&t)).unwrap();
    alice_plaintext_comparison(&tx_alice, &rx_alice, y, &pk, 1, 32).unwrap();
    let e = bytes_to_cts(&rx_bob.recv().unwrap(), 34).unwrap();
    assert_eq!(bob_scan_zero(&sk, &e), y > x);
}

#[test]
fn test_alice_channel_role_inverted() {
    let (pk, sk) = eg_generate_keys();
    let (tx_bob, rx_alice) = channel::<Vec<u8>>();
    let (tx_alice, rx_bob) = channel::<Vec<u8>>();
    let x: u64 = 2500;
    let y: u64 = 1000;
    let t = bob_make_terms(x, 32, &pk).unwrap();
    tx_bob.send(cts_to_bytes(&t)).unwrap();
    alice_plaintext_comparison(&tx_alice, &rx_alice, y, &pk, -1, 32).unwrap();
    let e = bytes_to_cts(&rx_bob.recv().unwrap(), 34).unwrap();
    // With s = -1 Bob finds a zero exactly when y <= x.
    assert_eq!(bob_scan_zero(&sk, &e), y <= x);
}

#[test]
fn test_bob_channel_role_bad_frame() {
    let (pk, sk) = eg_generate_keys();
    let (tx_alice, rx_bob) = channel::<Vec<u8>>();
    let (tx_bob, _rx_alice) = channel::<Vec<u8>>();
    tx_alice.send(vec![1u8, 2, 3]).unwrap();
    let r = bob_plaintext_comparison(&tx_bob, &rx_bob, 5, &pk, &sk, 32);
    assert_eq!(r, Err(CompareError::TransportError));
}

#[test]
fn test_roles_reject_oversized() {
    let (pk, sk) = eg_generate_keys();
    let too_big: u64 = 1u64 << 32;
    let (tx_bob, rx_alice) = channel::<Vec<u8>>();
    let (tx_alice, rx_bob) = channel::<Vec<u8>>();
    assert_eq!(
        bob_plaintext_comparison(&tx_bob, &rx_bob, too_big, &pk, &sk, 32),
        Err(CompareError::InputError)
    );
    assert_eq!(
        alice_plaintext_comparison(&tx_alice, &rx_alice, too_big, &pk, 1, 32),
        Err(CompareError::InputError)
    );
    assert_eq!(
        alice_plaintext_comparison(&tx_alice, &rx_alice, 5, &pk, 3, 32),
        Err(CompareError::InputError)
    );
}
