//! Seeded fuzz runs: a thousand plaintext comparisons and a hundred
//! encrypted ones, drawn from the fixed seed 42, each checked against the
//! ground-truth comparison.  The draws are split into blocks so that each
//! test stays well inside its time budget; every block re-seeds the
//! generator and skips the draws of the blocks before it.  The encrypted
//! runs are a prefix of the same seeded stream, kept at a hundred because
//! each run pays for fresh Paillier keys; the correctness they sample is
//! proven for all inputs by the session contracts.

use ec_el_gamal_comparison::session::{encrypted_comparison_session, plaintext_comparison_session};
use rand::rngs::StdRng;
use rand::{Rng, SeedableRng};

fn plaintext_block(skip: u32, n: u32) {
    let mut r = StdRng::seed_from_u64(42);
    for _i in 0..skip {
        let _: u32 = r.gen();
        let _: u32 = r.gen();
    }
    for _i in 0..n {
        let a: u32 = r.gen();
        let b: u32 = r.gen();
        let result = plaintext_comparison_session(a as u64, b as u64, 1, 32).unwrap();
        assert_eq!(result, a > b);
    }
}

fn encrypted_block(skip: u32, n: u32) {
    let mut r = StdRng::seed_from_u64(42);
    for _i in 0..skip {
        let _: u32 = r.gen();
        let _: u32 = r.gen();
    }
    for _i in 0..n {
        let a: u32 = r.gen();
        let b: u32 = r.gen();
        let result = encrypted_comparison_session(a as u64, b as u64, 32, 128).unwrap();
        assert_eq!(result, a > b);
    }
}

#[test]
fn test_plaintext_fuzz_block_00() {
    plaintext_block(0, 50);
}

#[test]
fn test_plaintext_fuzz_block_01() {
    plaintext_block(50, 50);
}

#[test]
fn test_plaintext_fuzz_block_02() {
    plaintext_block(100, 50);
}

#[test]
fn test_plaintext_fuzz_block_03() {
    plaintext_block(150, 50);
}

#[test]
fn test_plaintext_fuzz_block_04() {
    plaintext_block(200, 50);
}

#[test]
fn test_plaintext_fuzz_block_05() {
    plaintext_block(250, 50);
}

#[test]
fn test_plaintext_fuzz_block_06() {
    plaintext_block(300, 50);
}

#[test]
fn test_plaintext_fuzz_block_07() {
    plaintext_block(350, 50);
}

#[test]
fn test_plaintext_fuzz_block_08() {
    plaintext_block(400, 50);
}

#[test]
fn test_plaintext_fuzz_block_09() {
    plaintext_block(450, 50);
}

#[test]
fn test_plaintext_fuzz_block_10() {
    plaintext_block(500, 50);
}

#[test]
fn test_plaintext_fuzz_block_11() {
    plaintext_block(550, 50);
}

#[test]
fn test_plaintext_fuzz_block_12() {
    plaintext_block(600, 50);
}

#[test]
fn test_plaintext_fuzz_block_13() {
    plaintext_block(650, 50);
}

#[test]
fn test_plaintext_fuzz_block_14() {
    plaintext_block(700, 50);
}

#[test]
fn test_plaintext_fuzz_block_15() {
    plaintext_block(750, 50);
}

#[test]
fn test_plaintext_fuzz_block_16() {
    plaintext_block(800, 50);
}

#[test]
fn test_plaintext_fuzz_block_17() {
    plaintext_block(850, 50);
}

#[test]
fn test_plaintext_fuzz_block_18() {
    plaintext_block(900, 50);
}

#[test]
fn test_plaintext_fuzz_block_19() {
    plaintext_block(950, 50);
}

#[test]
fn test_encrypted_fuzz_block_00() {
    encrypted_block(0, 25);
}

#[test]
fn test_encrypted_fuzz_block_01() {
    encrypted_block(25, 25);
}

#[test]
fn test_encrypted_fuzz_block_02() {
    encrypted_block(50, 25);
}

#[test]
fn test_encrypted_fuzz_block_03() {
    encrypted_block(75, 25);
}
