use splinch::{
    combine_files, split_file, uses_full_verification, verify_files, verify_full, verify_sampled,
    xor_buffers, SplinchError, CHUNK_SIZE, VERIFY_FULL_THRESHOLD,
};
use rand::RngCore;

fn random_vec(len: usize) -> Vec<u8> {
    let mut v = vec![0u8; len];
    rand::rng().fill_bytes(&mut v);
    v
}

#[test]
fn split_produces_equal_length_parts_that_mix_back() {
    let input = random_vec(150000);
    let (pad, masked) = split_file(&input);
    assert_eq!(pad.len(), 150000);
    assert_eq!(masked.len(), 150000);
    let mut mixed = vec![0u8; 150000];
    xor_buffers(&pad, &masked, &mut mixed);
    assert_eq!(mixed, input);
}

#[test]
fn round_trip_through_combine() {
    let input = random_vec(150000);
    let (pad, masked) = split_file(&input);
    assert!(verify_files(&input, &pad, &masked));
    let restored = combine_files(&pad, &masked).unwrap();
    assert_eq!(restored, input);
}

#[test]
fn full_verification_of_empty_file() {
    let input: Vec<u8> = Vec::new();
    let (pad, masked) = split_file(&input);
    assert_eq!(pad.len(), 0);
    assert_eq!(masked.len(), 0);
    assert!(verify_full(&input, &pad, &masked));
}

#[test]
fn full_verification_detects_flip_in_one_byte_file() {
    let input = vec![0x5au8];
    let (pad, mut masked) = split_file(&input);
    assert!(verify_full(&input, &pad, &masked));
    masked[0] ^= 0x01;
    assert!(!verify_full(&input, &pad, &masked));
}

#[test]
fn full_verification_detects_flip_in_multi_chunk_file() {
    let input = random_vec(CHUNK_SIZE * 2 + 123);
    let (mut pad, masked) = split_file(&input);
    assert!(verify_full(&input, &pad, &masked));
    pad[CHUNK_SIZE + 7] ^= 0x80;
    assert!(!verify_full(&input, &pad, &masked));
}

#[test]
fn full_verification_detects_length_mismatch() {
    let input = random_vec(100);
    let (pad, masked) = split_file(&input);
    let short = masked[..99].to_vec();
    assert!(!verify_full(&input, &pad, &short));
}

#[test]
fn verification_threshold_boundary() {
    assert!(uses_full_verification(VERIFY_FULL_THRESHOLD));
    assert!(!uses_full_verification(VERIFY_FULL_THRESHOLD + 1));
}

#[test]
fn file_at_threshold_is_verified_in_full() {
    let input = random_vec(VERIFY_FULL_THRESHOLD);
    let (pad, mut masked) = split_file(&input);
    assert!(verify_files(&input, &pad, &masked));
    masked[VERIFY_FULL_THRESHOLD / 2] ^= 0x01;
    assert!(!verify_files(&input, &pad, &masked));
}

#[test]
fn file_over_threshold_is_sampled() {
    let input = random_vec(VERIFY_FULL_THRESHOLD + 1);
    let (pad, masked) = split_file(&input);
    assert!(verify_files(&input, &pad, &masked));
    let short = pad[..pad.len() - 1].to_vec();
    assert!(!verify_files(&input, &short, &masked));
}

#[test]
fn sampled_verification_checks_first_and_last_chunks() {
    let len = VERIFY_FULL_THRESHOLD + 1;
    let input = random_vec(len);
    let (pad, mut masked) = split_file(&input);
    assert!(verify_sampled(&input, &pad, &masked));
    masked[0] ^= 0x01;
    assert!(!verify_sampled(&input, &pad, &masked));
    masked[0] ^= 0x01;
    masked[len - 1] ^= 0x01;
    assert!(!verify_sampled(&input, &pad, &masked));
}

#[test]
fn combine_rejects_size_mismatch() {
    let a = random_vec(100);
    let b = random_vec(99);
    assert_eq!(combine_files(&a, &b), Err(SplinchError::SizeMismatch));
}

#[test]
fn combine_equals_flat_xor() {
    let a = random_vec(CHUNK_SIZE + 5);
    let b = random_vec(CHUNK_SIZE + 5);
    let out = combine_files(&a, &b).unwrap();
    assert_eq!(out.len(), a.len());
    let mut i = 0;
    while i < out.len() {
        assert_eq!(out[i], a[i] ^ b[i]);
        i += 1;
    }
}
