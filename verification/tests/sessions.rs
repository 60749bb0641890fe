//! End-to-end protocol runs through the session entry points.

use ec_el_gamal_comparison::paillier::{pail_encrypt, pail_generate_keys};
use ec_el_gamal_comparison::session::{
    encrypted_comparison_session, encrypted_comparison_with_keys, plaintext_comparison_session,
};
use ec_el_gamal_comparison::CompareError;
use rand::rngs::StdRng;
use rand::{Rng, SeedableRng};

#[test]
fn test_plaintext_comparison() {
    // Bob holds a, Alice holds b; the protocol reports whether Alice's value
    // is the larger one.
    let a: u64 = 3651085478;
    let b: u64 = 3421349512;
    let result = plaintext_comparison_session(b, a, 1, 32).unwrap();
    assert_eq!(result, a < b);
}

#[test]
fn test_plaintext_comparison_random() {
    let mut r = StdRng::seed_from_u64(42);
    for _i in 0..10 {
        let a_org: u32 = r.gen();
        let b_org: u32 = r.gen();
        let result = plaintext_comparison_session(a_org as u64, b_org as u64, 1, 32).unwrap();
        assert_eq!(result, a_org > b_org);
    }
}

#[test]
fn test_plaintext_comparison_inverted_random() {
    let mut r = StdRng::seed_from_u64(42);
    for _i in 0..10 {
        let a_org: u32 = r.gen();
        let b_org: u32 = r.gen();
        let result = plaintext_comparison_session(a_org as u64, b_org as u64, -1, 32).unwrap();
        // With s = -1 the reported bit is inverted.
        assert_eq!(!result, a_org > b_org);
    }
}

#[test]
fn test_ciphertext_comparison() {
    let result = encrypted_comparison_session(3651085478, 3421349512, 32, 128).unwrap();
    assert!(result);
    let result2 = encrypted_comparison_session(150, 170, 32, 128).unwrap();
    assert!(!result2);
}

#[test]
fn test_ciphertext_comparison_random() {
    // Five seeded runs (each pays for fresh Paillier keys); the sign
    // selector is fixed because the encrypted path always runs its
    // subprotocol with s = +1.  The channel-level encrypted roles cannot be
    // driven here without a second thread; they are exercised by the
    // program in app instead.
    let mut r = StdRng::seed_from_u64(42);
    for _i in 0..5 {
        let a_org: u32 = r.gen();
        let b_org: u32 = r.gen();
        let result = encrypted_comparison_session(a_org as u64, b_org as u64, 32, 128).unwrap();
        assert_eq!(result, a_org > b_org);
    }
}

#[test]
fn test_small_width_scenarios() {
    // 16-bit width: Alice holds 25, Bob holds 5.
    assert!(plaintext_comparison_session(25, 5, 1, 16).unwrap());
    assert!(!plaintext_comparison_session(25, 25, 1, 16).unwrap());
}

#[test]
fn test_plaintext_boundaries() {
    let top: u64 = (1u64 << 32) - 1;
    let half: u64 = 1u64 << 31;
    assert!(!plaintext_comparison_session(7, 7, 1, 32).unwrap());
    assert!(!plaintext_comparison_session(0, top, 1, 32).unwrap());
    assert!(plaintext_comparison_session(top, 0, 1, 32).unwrap());
    assert!(plaintext_comparison_session(half, half - 1, 1, 32).unwrap());
}

#[test]
fn test_plaintext_single_bit_differences() {
    let x: u64 = 0xDEADBEEF;
    assert_eq!(plaintext_comparison_session(x ^ 1, x, 1, 32).unwrap(), (x ^ 1) > x);
    assert_eq!(plaintext_comparison_session(x, x ^ 1, 1, 32).unwrap(), x > (x ^ 1));
    let hbit: u64 = 1u64 << 31;
    let base: u64 = 0x1234567;
    assert!(plaintext_comparison_session(base | hbit, base, 1, 32).unwrap());
    assert!(!plaintext_comparison_session(base, base | hbit, 1, 32).unwrap());
}

#[test]
fn test_encrypted_equal_inputs() {
    assert!(!encrypted_comparison_session(42, 42, 32, 128).unwrap());
}

#[test]
fn test_encrypted_boundaries() {
    let top: u64 = (1u64 << 32) - 1;
    assert!(!encrypted_comparison_session(0, top, 32, 128).unwrap());
    assert!(encrypted_comparison_session(top, 0, 32, 128).unwrap());
}

#[test]
fn test_encrypted_with_supplied_keys() {
    let (pk, sk) = pail_generate_keys(128).unwrap();
    let ca = pail_encrypt(&pk, 777);
    let cb = pail_encrypt(&pk, 55);
    assert_eq!(encrypted_comparison_with_keys(&ca, &cb, &pk, &sk, 32), Ok(true));
    assert_eq!(encrypted_comparison_with_keys(&cb, &ca, &pk, &sk, 32), Ok(false));
    let ca2 = pail_encrypt(&pk, 777);
    assert_eq!(encrypted_comparison_with_keys(&ca, &ca2, &pk, &sk, 32), Ok(false));
}

#[test]
fn test_runs_deterministic() {
    // Two runs on the same inputs: different transcripts, same bit.
    let r1 = encrypted_comparison_session(1234567, 7654321, 32, 128).unwrap();
    let r2 = encrypted_comparison_session(1234567, 7654321, 32, 128).unwrap();
    assert_eq!(r1, r2);
    assert!(!r1);
}

#[test]
fn test_oversized_input_rejected() {
    let two_l: u64 = 1u64 << 32;
    assert_eq!(
        plaintext_comparison_session(two_l, 5, 1, 32),
        Err(CompareError::InputError)
    );
    assert_eq!(
        plaintext_comparison_session(5, two_l, 1, 32),
        Err(CompareError::InputError)
    );
    assert_eq!(
        encrypted_comparison_session(two_l, 5, 32, 128),
        Err(CompareError::InputError)
    );
    assert_eq!(
        encrypted_comparison_session(5, two_l, 32, 128),
        Err(CompareError::InputError)
    );
}

#[test]
fn test_bad_sign_selector_rejected() {
    assert_eq!(
        plaintext_comparison_session(5, 6, 0, 32),
        Err(CompareError::InputError)
    );
    assert_eq!(
        plaintext_comparison_session(5, 6, 2, 32),
        Err(CompareError::InputError)
    );
}

#[test]
fn test_comparison_trichotomy() {
    let pairs: [(u64, u64); 5] = [(3, 5), (5, 3), (4, 4), (0, 0), (u32::MAX as u64, 0)];
    for (a, b) in pairs {
        assert!(((a > b) ^ (b > a)) ^ (a == b));
    }
}
