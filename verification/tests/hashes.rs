use utxo_chain::hashing::{digest, to_hex, bytes_lt, bytes_eq};
use utxo_chain::pow::{calc_target, PoroofOfWork};
use utxo_chain::block::new_block;
use utxo_chain::transaction::new_coinbase;

#[test]
fn digest_is_deterministic_and_32_bytes() {
    let data = vec![1u8, 2, 3, 4, 5];
    let a = digest(&data);
    let b = digest(&data);
    assert_eq!(a, b);
    assert_eq!(a.len(), 32);
}

#[test]
fn digest_changes_when_one_byte_changes() {
    let a = digest(&vec![1u8, 2, 3, 4, 5]);
    let b = digest(&vec![1u8, 2, 3, 4, 6]);
    assert_ne!(a, b);
    let c = digest(&vec![0u8, 2, 3, 4, 5]);
    assert_ne!(a, c);
    let d = digest(&Vec::new());
    let e = digest(&vec![0u8]);
    assert_ne!(d, e);
}

#[test]
fn hex_rendering_is_two_lowercase_digits_a_byte() {
    assert_eq!(to_hex(&vec![0xabu8, 0x01, 0xff]), String::from("ab01ff"));
    assert_eq!(to_hex(&Vec::new()), String::new());
    assert_eq!(to_hex(&vec![0u8]), String::from("00"));
}

#[test]
fn big_endian_comparison_orders_numerically() {
    assert!(bytes_lt(&vec![0u8, 255], &vec![1u8, 0]));
    assert!(!bytes_lt(&vec![1u8, 0], &vec![0u8, 255]));
    assert!(!bytes_lt(&vec![7u8, 7], &vec![7u8, 7]));
    assert!(bytes_lt(&vec![0u8, 0, 1], &vec![0u8, 0, 2]));
}

#[test]
fn bytes_eq_compares_contents() {
    assert!(bytes_eq(&vec![1u8, 2], &vec![1u8, 2]));
    assert!(!bytes_eq(&vec![1u8, 2], &vec![1u8, 3]));
    assert!(!bytes_eq(&vec![1u8, 2], &vec![1u8, 2, 3]));
}

#[test]
fn target_for_eight_difficulty_bits_is_one_leading_zero_byte() {
    let t = calc_target(8);
    assert_eq!(t.len(), 32);
    assert_eq!(t[0], 1);
    for i in 1..32 {
        assert_eq!(t[i], 0);
    }
}

#[test]
fn mined_block_hash_starts_below_the_target() {
    let cb = new_coinbase(50, vec![1u8, 2, 3]);
    let block = new_block(String::new(), &[cb], 0, 42).unwrap();
    // Difficulty is eight bits: the first hex digit pair must be zero.
    let hex = block.hash.clone();
    assert_eq!(hex.len(), 64);
    assert!(hex.starts_with("00"));
    let pow = PoroofOfWork::new_proof_of_work(block);
    assert!(pow.validate());
}

#[test]
fn mining_twice_over_the_same_header_finds_the_same_nonce() {
    let cb = new_coinbase(50, vec![1u8, 2, 3]);
    let a = new_block(String::new(), &[cb.duplicate()], 0, 42).unwrap();
    let b = new_block(String::new(), &[cb], 0, 42).unwrap();
    assert_eq!(a.nonce, b.nonce);
    assert_eq!(a.hash, b.hash);
}

#[test]
fn rehashing_an_unchanged_block_reproduces_its_hash() {
    let cb = new_coinbase(50, vec![1u8, 2, 3]);
    let block = new_block(String::new(), &[cb], 0, 42).unwrap();
    let hash_before = block.hash.clone();
    let pow = PoroofOfWork::new_proof_of_work(block);
    assert!(pow.validate());
    assert_eq!(pow.block.hash, hash_before);
}

#[test]
fn mutating_the_timestamp_invalidates_the_stored_hash() {
    let cb = new_coinbase(50, vec![1u8, 2, 3]);
    let mut block = new_block(String::new(), &[cb], 0, 42).unwrap();
    block.timestamp = 43;
    let pow = PoroofOfWork::new_proof_of_work(block);
    assert!(!pow.validate());
}

#[test]
fn mutating_a_transaction_invalidates_the_stored_hash() {
    let cb = new_coinbase(50, vec![1u8, 2, 3]);
    let mut block = new_block(String::new(), &[cb], 0, 42).unwrap();
    block.transactions[0].vout[0].value = 51;
    let pow = PoroofOfWork::new_proof_of_work(block);
    assert!(!pow.validate());
}
