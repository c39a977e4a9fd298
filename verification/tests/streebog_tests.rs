use cryptolabs::streebog::{add, compression, hash, hash_512, padding, parse_bytes, xor};
use streebog::{Digest, Streebog512};

fn hex(block: &[u8]) -> String {
    block.iter().map(|b| format!("{:02x}", b)).collect()
}

fn counter_512() -> [u8; 64] {
    let mut n = [0u8; 64];
    n[62] = 0x02;
    n
}

/// The reference implementation reads the message and writes the
/// digest with the opposite byte-significance convention, so both ends
/// are reversed for comparison.
fn reference_digest(message: &[u8]) -> [u8; 64] {
    let mut rev: Vec<u8> = message.to_vec();
    rev.reverse();
    let d = Streebog512::digest(&rev);
    let mut out = [0u8; 64];
    for (i, b) in d.iter().rev().enumerate() {
        out[i] = *b;
    }
    out
}

#[test]
fn matches_reference_empty() {
    assert_eq!(hash_512(&[]).to_vec(), reference_digest(&[]).to_vec());
}

#[test]
fn matches_reference_various_lengths() {
    for len in [1usize, 5, 63, 64, 65, 127, 128, 200] {
        let msg: Vec<u8> = (0..len).map(|i| (i * 7 + 3) as u8).collect();
        assert_eq!(
            hash_512(&msg).to_vec(),
            reference_digest(&msg).to_vec(),
            "length {}",
            len
        );
    }
}

#[test]
fn digest_of_empty_message() {
    assert_eq!(
        hex(&hash_512(&[])),
        "8a1a1c4cbf909f8ecb81cd1b5c713abad26a4cac2a5fda3ce86e352855712f36a7f0be98eb6cf51553b507b73a87e97946aebc29859255049f86aa09a25d948e"
    );
}

#[test]
fn digest_of_single_zero_byte() {
    assert_eq!(
        hex(&hash_512(&[0u8])),
        "e4a91b7b48653ace52621d39aab6222b621360b77fc848ed86be28c485dae23b36bdc18303ff7be1bd0a0c410d501470bf405da0bef1dd106470a93b1338b6c6"
    );
}

#[test]
fn digest_of_zero_block() {
    assert_eq!(
        hex(&hash_512(&[0u8; 64])),
        "b70dd252c5021461f26b56aee9adb4d745a112b10fb66fb28cb5359299ac14c0c64879aabbb7ffce28fb06acd62177f64d56dcb8fdf39f7641f40d1bac29fdb0"
    );
}

#[test]
fn digest_of_two_patterned_blocks() {
    let mut msg = [0u8; 128];
    for i in 0..64 {
        msg[i] = 0xA5;
        msg[64 + i] = 0x3C;
    }
    assert_eq!(
        hex(&hash_512(&msg)),
        "865cf9ecb8937199e49fe1bf93288afcf4ad2b788660e74f74864fc6cd283a9a282580889a8fc863c40ab0333a54b1258858f7d21145e0114dbb8566e8d0a698"
    );
}

#[test]
fn repeated_hash_is_identical() {
    let msg = b"the quick brown fox jumps over the lazy dog";
    assert_eq!(hash_512(msg).to_vec(), hash_512(msg).to_vec());
}

#[test]
fn digest_is_always_64_bytes() {
    for len in [0usize, 1, 63, 64, 65, 200] {
        let msg: Vec<u8> = vec![0x42; len];
        assert_eq!(hash_512(&msg).len(), 64);
    }
}

#[test]
fn avalanche_on_single_bit_flips() {
    let base: Vec<u8> = (0..32).map(|i| (i * 13 + 1) as u8).collect();
    let d0 = hash_512(&base);
    for flip in [0usize, 77, 255] {
        let mut m = base.clone();
        m[flip / 8] ^= 1 << (flip % 8);
        let d1 = hash_512(&m);
        let dist: u32 = d0
            .iter()
            .zip(d1.iter())
            .map(|(a, b)| (a ^ b).count_ones())
            .sum();
        assert!(dist > 100 && dist < 412, "distance {} for bit {}", dist, flip);
    }
}

#[test]
fn full_block_takes_synthetic_marker_path() {
    let mut msg = [0u8; 64];
    for i in 0..64 {
        msg[i] = (i as u8).wrapping_mul(3);
    }
    let zero = [0u8; 64];
    // one full block under counter zero
    let mut h = compression(zero, zero, msg);
    let n = add(zero, counter_512());
    let mut sigma = add(zero, msg);
    // the remainder is empty: a marker-only synthetic block follows,
    // contributing zero bits to the counter
    let marker = padding(&[]);
    assert_eq!(marker[63], 0x01);
    assert_eq!(&marker[..63], &[0u8; 63]);
    h = compression(n, h, marker);
    sigma = add(sigma, marker);
    h = compression(zero, h, n);
    h = compression(zero, h, sigma);
    assert_eq!(h.to_vec(), hash_512(&msg).to_vec());
}

#[test]
fn blocks_are_consumed_tail_first() {
    let mut msg = [0u8; 128];
    for i in 0..128 {
        msg[i] = (i as u8).wrapping_mul(5).wrapping_add(1);
    }
    let mut b1 = [0u8; 64];
    let mut b2 = [0u8; 64];
    b1.copy_from_slice(&msg[..64]);
    b2.copy_from_slice(&msg[64..]);
    let zero = [0u8; 64];
    // the second block is compressed first, under counter 0; the
    // first block follows under counter 512; the checksum adds them in
    // that order
    let mut h = compression(zero, zero, b2);
    let mut n = add(zero, counter_512());
    let mut sigma = add(zero, b2);
    h = compression(n, h, b1);
    n = add(n, counter_512());
    sigma = add(sigma, b1);
    // nothing remains: the synthetic marker block closes the message
    let marker = padding(&[]);
    h = compression(n, h, marker);
    sigma = add(sigma, marker);
    h = compression(zero, h, n);
    h = compression(zero, h, sigma);
    assert_eq!(h.to_vec(), hash_512(&msg).to_vec());
}

#[test]
fn boundary_lengths_give_distinct_digests() {
    let m63 = vec![0u8; 63];
    let m64 = vec![0u8; 64];
    let m65 = vec![0u8; 65];
    let d63 = hash_512(&m63);
    let d64 = hash_512(&m64);
    let d65 = hash_512(&m65);
    assert_ne!(d63.to_vec(), d64.to_vec());
    assert_ne!(d64.to_vec(), d65.to_vec());
    assert_ne!(d63.to_vec(), d65.to_vec());
}

#[test]
fn custom_initial_state_changes_digest() {
    let iv = [0x01u8; 64];
    let zero = [0u8; 64];
    let msg = b"state";
    assert_ne!(hash(iv, msg).to_vec(), hash(zero, msg).to_vec());
}

#[test]
fn add_carries_and_wraps() {
    let mut one = [0u8; 64];
    one[63] = 1;
    let mut two55 = [0u8; 64];
    two55[63] = 0xFF;
    let sum = add(one, two55);
    assert_eq!(sum[63], 0x00);
    assert_eq!(sum[62], 0x01);
    // adding one to the all-ones block wraps to zero
    let all = [0xFFu8; 64];
    assert_eq!(add(all, one).to_vec(), vec![0u8; 64]);
}

#[test]
fn padding_places_marker_left_of_data() {
    let out = padding(&[0xAB, 0xCD]);
    assert_eq!(out[63], 0xCD);
    assert_eq!(out[62], 0xAB);
    assert_eq!(out[61], 0x01);
    assert_eq!(&out[..61], &[0u8; 61]);
    // a full remainder leaves no room for the marker
    let full = [0x11u8; 64];
    assert_eq!(padding(&full).to_vec(), full.to_vec());
}

#[test]
fn xor_is_bytewise() {
    let a = [0xF0u8; 64];
    let b = [0x0Fu8; 64];
    assert_eq!(xor(a, b).to_vec(), vec![0xFFu8; 64]);
}

#[test]
fn parse_bytes_decodes_hex_pairs() {
    assert_eq!(parse_bytes(b"0aFf10"), vec![0x0A, 0xFF, 0x10]);
    assert_eq!(parse_bytes(b""), Vec::<u8>::new());
}
