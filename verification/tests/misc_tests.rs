use cryptolabs::{belt, convert, goppa, gost94, rabin, rowvec, sha1};

#[test]
fn belt_counter_mode_is_an_involution() {
    let key: Vec<u32> = vec![1, 2, 3, 4, 5, 6, 7, 8];
    let orig: Vec<u32> = vec![10, 20, 30, 40, 50, 60, 70, 80];
    let mut data = orig.clone();
    let mut sync: u128 = 42;
    belt::counter_enc(&mut sync, &mut data, &key);
    assert_eq!(sync, 44);
    assert_ne!(data, orig);
    let mut sync2: u128 = 42;
    belt::counter_enc(&mut sync2, &mut data, &key);
    assert_eq!(data, orig);
}

#[test]
fn belt_round_function_substitutes_and_rotates() {
    let mut block: u32 = 0;
    let r = belt::Gr(&mut block, 5);
    assert_eq!(block, 0xB1B1B1B1);
    assert_eq!(r, 0x36363636);
}

#[test]
fn belt_word_arithmetic_wraps() {
    assert_eq!(belt::sum_u32(0xFFFFFFFF, 1), 0);
    assert_eq!(belt::sub_u32(0, 1), 0xFFFFFFFF);
    assert_eq!(belt::get_4_bits(0xAB, 4), 0xA);
    assert_eq!(belt::get_4_bits(0xAB, 0), 0xB);
    let mut w: u32 = 0x11223344;
    belt::set_8_bits(&mut w, 0xEE, 8);
    assert_eq!(w, 0x1122EE44);
    assert_eq!(belt::get_8_bits(&w, 8), 0xEE);
}

#[test]
fn belt_decrypt_deterministic() {
    let key: Vec<u32> = vec![1, 2, 3, 4, 5, 6, 7, 8];
    let e = belt::encrypt_block(1, 2, 3, 4, &key);
    let e2 = belt::encrypt_block(1, 2, 3, 4, &key);
    assert_eq!(e, e2);
    let d = belt::decrypt_block(e.0, e.1, e.2, e.3, &key);
    let d2 = belt::decrypt_block(e.0, e.1, e.2, e.3, &key);
    assert_eq!(d, d2);
}

#[test]
fn gost94_psi_floods_with_first_half() {
    let mut data: Vec<u16> = (1..=16).collect();
    gost94::psi(&mut data);
    assert_eq!(data[0], 25);
    for i in 1..16 {
        assert_eq!(data[i], 1);
    }
}

#[test]
fn gost94_shuffle_and_permutation() {
    let words: Vec<u32> = vec![1, 2, 3, 4, 5, 6, 7, 8];
    assert_eq!(gost94::a_y(&words), vec![8 ^ 6, 7 ^ 5, 1, 2, 3, 4, 5, 6]);
    let other: Vec<u32> = vec![10, 20, 30, 40, 50, 60, 70, 80];
    assert_eq!(gost94::p_y(&other), other);
}

#[test]
fn gost94_control_sum_cancels_equal_blocks() {
    let mut data: Vec<u32> = (1..=8).collect();
    data.extend(1..=8u32);
    assert_eq!(gost94::control_sum(data), vec![0u32; 8]);
}

#[test]
fn gost94_inline_pads_to_block() {
    let mut data: Vec<u32> = vec![1, 2, 3];
    gost94::inline(&mut data, 3);
    assert_eq!(data, vec![1, 2, 3, 0, 0, 0, 0, 0]);
    let mut whole: Vec<u32> = vec![9; 8];
    gost94::inline(&mut whole, 0);
    assert_eq!(whole, vec![9; 8]);
}

#[test]
fn gost94_hash_stream_shape() {
    let data: Vec<u32> = (1..=8).collect();
    let d1 = gost94::hash_stream(data.clone(), 32);
    let d2 = gost94::hash_stream(data.clone(), 32);
    assert_eq!(d1, d2);
    assert_eq!(d1.len(), 8);
    let other = gost94::hash_stream(vec![2u32; 8], 32);
    assert_ne!(d1, other);
}

#[test]
fn gost94_keys_deterministic() {
    let h: Vec<u32> = vec![0; 8];
    let m: Vec<u32> = (1..=8).collect();
    let k1 = gost94::generate_keys(&h, &m);
    let k2 = gost94::generate_keys(&h, &m);
    assert_eq!(k1, k2);
    assert_eq!(k1.len(), 4);
    assert_eq!(k1[0], m);
}

#[test]
fn sha1_rotation() {
    assert_eq!(sha1::RotHi(1, 1), 2);
    assert_eq!(sha1::RotHi(0x80000000, 1), 1);
    assert_eq!(sha1::RotHi(0x12345678, 8), 0x34567812);
}

#[test]
fn sha1_inline_empty_stream() {
    let mut data: Vec<u32> = Vec::new();
    sha1::inline(&mut data, 32);
    assert_eq!(data, vec![0u32; 32]);
}

#[test]
fn sha1_inline_one_word() {
    let mut data: Vec<u32> = vec![0x61626364];
    sha1::inline(&mut data, 32);
    let mut expect: Vec<u32> = vec![0x61626364, 0x80000000];
    expect.extend(vec![0u32; 12]);
    expect.push(0);
    expect.push(32);
    expect.extend(vec![0u32; 14]);
    expect.push(0);
    expect.push(32);
    assert_eq!(data, expect);
}

#[test]
fn sha1_round_is_deterministic() {
    let block: Vec<u32> = (0..16).collect();
    let v1 = sha1::main_round(&block);
    let v2 = sha1::main_round(&block);
    assert_eq!(v1, v2);
    assert_eq!(v1.len(), 5);
    let other = sha1::main_round(&vec![7u32; 16]);
    assert_ne!(v1, other);
}

#[test]
fn sha1_round_concrete_block() {
    let block: Vec<u32> = (0..16).collect();
    let v = sha1::main_round(&block);
    assert_eq!(v, vec![1180046199u32, 3043935094, 1092735234, 3917669574, 2628971496]);
}

#[test]
fn gost94_hash_stream_concrete() {
    let data: Vec<u32> = (1..=8).collect();
    let d = gost94::hash_stream(data, 32);
    assert_eq!(d, vec![1504377393u32, 4197513778, 4197513779, 4197513780, 4197513781, 4197513782, 4197513783, 4197513784]);
}

#[test]
fn euclid_gives_bezout_coefficients() {
    let (x, y) = rabin::extended_euclidean(240, 46);
    assert_eq!(240i128 * x + 46i128 * y, 2);
    let (x2, y2) = rabin::extended_euclidean(367, 463);
    assert_eq!(367i128 * x2 + 463i128 * y2, 1);
    assert_eq!(rabin::extended_euclidean(7, 0), (1, 0));
}

#[test]
fn mod_pow_values() {
    assert_eq!(rabin::mod_pow(2, 10, 1000), 24);
    assert_eq!(rabin::mod_pow(5, 0, 7), 1);
    assert_eq!(rabin::mod_pow(3, 4, 1), 0);
    assert_eq!(rabin::mod_pow(10, 11, 4294967296), 1215752192);
}

#[test]
fn rabin_roundtrip() {
    let p: u32 = 367;
    let q: u32 = 463;
    let n: u32 = p * q;
    let (y_p, y_q) = rabin::extended_euclidean(p, q);
    let plain = b"AB0";
    let cipher = rabin::encrypt_data(plain, n);
    assert_eq!(cipher[0], (65 * 65) % n);
    let back = rabin::decrypt_data(&cipher, p, q, y_p, y_q);
    assert_eq!(back, plain.to_vec());
}

#[test]
fn word_conversions() {
    assert_eq!(convert::convert_to_u32(&[1, 2, 3, 4]), 0x01020304);
    assert_eq!(convert::convert_to_u32(&[0xAB]), 0xAB000000);
    assert_eq!(
        convert::transform_u32_to_array_of_u8(&[0x01020304]),
        vec![1, 2, 3, 4]
    );
    assert_eq!(
        convert::bytes_to_words(&[1, 2, 3, 4, 5]),
        vec![0x01020304, 0x05000000]
    );
    let (words, last) = convert::bytes_to_words_with_last_size(&[1, 2, 3, 4, 5, 6]);
    assert_eq!(words, vec![0x01020304, 0x05060000]);
    assert_eq!(last, 16);
    let (_, whole) = convert::bytes_to_words_with_last_size(&[1, 2, 3, 4]);
    assert_eq!(whole, 32);
    assert_eq!(
        convert::convert_64_to_32(0x0102030405060708),
        vec![0x01020304, 0x05060708]
    );
    assert_eq!(
        convert::convert_128_to_32(0x000102030405060708090A0B0C0D0E0F),
        vec![0x00010203, 0x04050607, 0x08090A0B, 0x0C0D0E0F]
    );
    assert_eq!(
        convert::convert_to_u128(&[1, 2]),
        (1u128 << 96) | (2u128 << 64)
    );
    assert_eq!(convert::convert_u32_to_u64(&[1, 2]), 0x0000000100000002);
    assert_eq!(
        convert::transform_u32_to_array_of_u16(&[0x11223344]),
        vec![0x1122, 0x3344]
    );
    assert_eq!(
        convert::transform_u16_to_array_of_u8(&[0x1122]),
        vec![0x11, 0x22]
    );
    assert_eq!(
        convert::transform_u64_to_array_of_u32(0x0102030405060708),
        vec![0x01020304, 0x05060708, 0, 0, 0, 0, 0, 0]
    );
    assert_eq!(
        convert::convert_u16_to_u32((1..=16).collect()),
        vec![
            0x00010002, 0x00030004, 0x00050006, 0x00070008, 0x0009000A, 0x000B000C, 0x000D000E,
            0x000F0010
        ]
    );
}

#[test]
fn rowvec_packing_roundtrip() {
    let v = rowvec::RowVec::from_bytes(&[0xA5, 0x3C], 16);
    assert_eq!(v.cols(), 16);
    assert_eq!(v.get(0), 1);
    assert_eq!(v.get(7), 1);
    assert_eq!(v.to_bytes(), vec![0xA5, 0x3C]);
    // a partial byte is padded with zero bits
    let w = rowvec::RowVec::from_bytes(&[0b1011_0000], 4);
    assert_eq!(w.get(0), 1);
    assert_eq!(w.get(1), 0);
    assert_eq!(w.get(2), 1);
    assert_eq!(w.get(3), 1);
    assert_eq!(w.to_bytes(), vec![0b1011_0000]);
    // reading past the byte stream gives zero bits
    let z = rowvec::RowVec::from_bytes(&[], 3);
    assert_eq!(z.to_bytes(), vec![0]);
    let zeros = rowvec::RowVec::zero(9);
    assert_eq!(zeros.to_bytes(), vec![0, 0]);
}

#[test]
fn goppa_parameter_checks() {
    assert_eq!(goppa::get_code_params(None, None), Ok((1024, 50)));
    assert!(goppa::get_code_params(Some(2), None).is_err());
    assert!(goppa::get_code_params(Some(4000), None).is_err());
    assert_eq!(goppa::get_code_params(Some(3), Some(1)), Ok((3, 1)));
    assert_eq!(goppa::get_code_params(Some(4), Some(1)), Ok((4, 1)));
    assert!(goppa::get_code_params(Some(300), Some(40)).is_err());
}
