use baker::codec::{
    encode_signing_input, encode_vote_body, injection_hex, push_be16, push_be32_i32, push_be64,
    read_be_u64,
};
use baker::hashes::{operation_list_hash, pow_check};
use baker::machine::pow_threshold_bits;

#[test]
fn be16_and_be32_layout() {
    let mut out: Vec<u8> = Vec::new();
    push_be16(&mut out, 0x1234);
    assert_eq!(out, vec![0x12, 0x34]);

    let mut out: Vec<u8> = Vec::new();
    push_be32_i32(&mut out, 1);
    assert_eq!(out, vec![0, 0, 0, 1]);

    let mut out: Vec<u8> = Vec::new();
    push_be32_i32(&mut out, -1);
    assert_eq!(out, vec![0xff, 0xff, 0xff, 0xff]);

    let mut out: Vec<u8> = Vec::new();
    push_be64(&mut out, 0x0102_0304_0506_0708);
    assert_eq!(out, vec![1, 2, 3, 4, 5, 6, 7, 8]);
}

#[test]
fn read_be_u64_round_trips() {
    let mut out: Vec<u8> = Vec::new();
    push_be64(&mut out, 0xdead_beef_0bad_cafe);
    assert_eq!(read_be_u64(&out, 0), 0xdead_beef_0bad_cafe);

    let bytes = [0u8, 0, 0xff, 0xff, 0xff, 0xff, 0xff, 0xff, 0xff, 0xff];
    assert_eq!(read_be_u64(&bytes, 2), u64::MAX);
}

#[test]
fn pow_threshold_reinterprets_bits() {
    assert_eq!(pow_threshold_bits(-1), u64::MAX);
    assert_eq!(pow_threshold_bits(70368744177663), 70368744177663u64);
    assert_eq!(pow_threshold_bits(i64::MIN), 0x8000_0000_0000_0000u64);
}

#[test]
fn vote_body_layout() {
    let pred = [9u8; 32];
    let payload = [7u8; 32];
    let body = encode_vote_body(20, &pred, 3, 1, 0, &payload);
    assert_eq!(body.len(), 32 + 1 + 2 + 4 + 4 + 32);
    assert_eq!(&body[0..32], &pred);
    assert_eq!(body[32], 20);
    assert_eq!(&body[33..35], &[0, 3]);
    assert_eq!(&body[35..39], &[0, 0, 0, 1]);
    assert_eq!(&body[39..43], &[0, 0, 0, 0]);
    assert_eq!(&body[43..75], &payload);
}

#[test]
fn signing_input_prefixes_magic_and_chain() {
    let body = vec![0xaa, 0xbb];
    let input = encode_signing_input(0x12, &[1, 2, 3, 4], &body);
    assert_eq!(input, vec![0x12, 1, 2, 3, 4, 0xaa, 0xbb]);
}

#[test]
fn injection_hex_is_lowercase_hex_of_body_and_signature() {
    let body = vec![0x00u8, 0x0f, 0xff];
    let signature = [0xabu8, 0xcd];
    let hex = injection_hex(&body, &signature);
    assert_eq!(hex, "000fffabcd");
    // The same bytes through the hex crate itself: the wrapper's claim.
    assert_eq!(hex, hex::encode([0x00u8, 0x0f, 0xff, 0xab, 0xcd]));
}

#[test]
fn operation_list_hash_is_a_real_digest() {
    // The hash of no operations is the blake2b-256 digest of the empty
    // string, not any constant of the library's own.
    let empty_root = operation_list_hash(&vec![]);
    let known =
        hex::decode("0e5751c026e543b2e8ab2eb06099daa1d1e5df47778f7787faab45cdf12fe3a8").unwrap();
    assert_eq!(empty_root.to_vec(), known);

    // A single operation's root is that operation's digest.
    let one = operation_list_hash(&vec![vec![1, 2, 3]]);
    assert_eq!(one, cryptoxide::hashing::blake2b_256(&[1, 2, 3]));
    assert_ne!(one, empty_root);
    // Two leaves meet in one inner node, and order matters.
    let ab = operation_list_hash(&vec![vec![1], vec![2]]);
    let la = cryptoxide::hashing::blake2b_256(&[1]);
    let lb = cryptoxide::hashing::blake2b_256(&[2]);
    let mut node: Vec<u8> = la.to_vec();
    node.extend_from_slice(&lb);
    assert_eq!(ab, cryptoxide::hashing::blake2b_256(&node));
    let ba = operation_list_hash(&vec![vec![2], vec![1]]);
    assert_ne!(ab, ba);
}

#[test]
fn pow_check_matches_leading_bytes() {
    // A header whose digest is above any tiny threshold fails the check.
    let header = vec![1u8, 2, 3];
    assert!(pow_check(&header, u64::MAX));
    assert!(!pow_check(&header, 0));
}
