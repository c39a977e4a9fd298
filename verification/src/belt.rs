//! A 128-bit block cipher over four 32-bit words, built from a
//! byte-wise substitution with nested nibble lookup, rotations, and
//! modular word arithmetic, together with its counter mode.

use vstd::prelude::*;

verus! {

/// The 16x16 byte substitution table, indexed by low nibble then high
/// nibble.
pub const S_BOX: [[u8; 16]; 16] = [
    [0xB1, 0x94, 0xBA, 0xC8, 0x0A, 0x08, 0xF5, 0x3B, 0x36, 0x6D, 0x00, 0x8E, 0x58, 0x4A, 0x5D, 0xE4],
    [0x85, 0x04, 0xFA, 0x9D, 0x1B, 0xB6, 0xC7, 0xAC, 0x25, 0x2E, 0x72, 0xC2, 0x02, 0xFD, 0xCE, 0x0D],
    [0x5B, 0xE3, 0xD6, 0x12, 0x17, 0xB9, 0x61, 0x81, 0xFE, 0x67, 0x86, 0xAD, 0x71, 0x6B, 0x89, 0x0B],
    [0x5C, 0xB0, 0xC0, 0xFF, 0x33, 0xC3, 0x56, 0xB8, 0x35, 0xC4, 0x05, 0xAE, 0xD8, 0xE0, 0x7F, 0x99],
    [0xE1, 0x2B, 0xDC, 0x1A, 0xE2, 0x82, 0x57, 0xEC, 0x70, 0x3F, 0xCC, 0xF0, 0x95, 0xEE, 0x8D, 0xF1],
    [0xC1, 0xAB, 0x76, 0x38, 0x9F, 0xE6, 0x78, 0xCA, 0xF7, 0xC6, 0xF8, 0x60, 0xD5, 0xBB, 0x9C, 0x4F],
    [0xF3, 0x3C, 0x65, 0x7B, 0x63, 0x7C, 0x30, 0x6A, 0xDD, 0x4E, 0xA7, 0x79, 0x9E, 0xB2, 0x3D, 0x31],
    [0x3E, 0x98, 0xB5, 0x6E, 0x27, 0xD3, 0xBC, 0xCF, 0x59, 0x1E, 0x18, 0x1F, 0x4C, 0x5A, 0xB7, 0x93],
    [0xE9, 0xDE, 0xE7, 0x2C, 0x8F, 0x0C, 0x0F, 0xA6, 0x2D, 0xDB, 0x49, 0xF4, 0x6F, 0x73, 0x96, 0x47],
    [0x06, 0x07, 0x53, 0x16, 0xED, 0x24, 0x7A, 0x37, 0x39, 0xCB, 0xA3, 0x83, 0x03, 0xA9, 0x8B, 0xF6],
    [0x92, 0xBD, 0x9B, 0x1C, 0xE5, 0xD1, 0x41, 0x01, 0x54, 0x45, 0xFB, 0xC9, 0x5E, 0x4D, 0x0E, 0xF2],
    [0x68, 0x20, 0x80, 0xAA, 0x22, 0x7D, 0x64, 0x2F, 0x26, 0x87, 0xF9, 0x34, 0x90, 0x40, 0x55, 0x11],
    [0xBE, 0x32, 0x97, 0x13, 0x43, 0xFC, 0x9A, 0x48, 0xA0, 0x2A, 0x88, 0x5F, 0x19, 0x4B, 0x09, 0xA1],
    [0x7E, 0xCD, 0xA4, 0xD0, 0x15, 0x44, 0xAF, 0x8C, 0xA5, 0x84, 0x50, 0xBF, 0x66, 0xD2, 0xE8, 0x8A],
    [0xA2, 0xD7, 0x46, 0x52, 0x42, 0xA8, 0xDF, 0xB3, 0x69, 0x74, 0xC5, 0x51, 0xEB, 0x23, 0x29, 0x21],
    [0xD4, 0xEF, 0xD9, 0xB4, 0x3A, 0x62, 0x28, 0x75, 0x91, 0x14, 0x10, 0xEA, 0x77, 0x6C, 0xDA, 0x1D],
];

/// `u` rotated left by `k` bits.
pub open spec fn rotl(u: u32, k: u32) -> u32
    recommends
        0 < k < 32,
{
    (u << k) | (u >> ((32 - k) as u32))
}

/// Rotates `u` left by `k` bits.
#[allow(non_snake_case)]
pub fn RotHi(u: u32, k: u8) -> (r: u32)
    requires
        0 < k < 32,
    ensures
        r == rotl(u, k as u32),
{
    (u << k) | (u >> (32 - k))
}

/// Addition of two words modulo 2^32.
pub fn sum_u32(u_1: u32, u_2: u32) -> (r: u32)
    ensures
        r == ((u_1 as u64 + u_2 as u64) as u32),
{
    (u_1 as u64 + u_2 as u64) as u32
}

/// Subtraction of two words modulo 2^32.
pub fn sub_u32(u_1: u32, u_2: u32) -> (r: u32)
    ensures
        r == ((u_1 as i128 - u_2 as i128) as u32),
{
    let sub = u_1 as i128 - u_2 as i128;
    sub as u32
}

/// The byte group of `u` at bit `p`.
pub open spec fn get8(u: u32, p: u32) -> u32 {
    (u & (0xFFu32 << p)) >> p
}

/// `u` with the byte group at bit `p` replaced by `v`.
pub open spec fn set8(u: u32, v: u8, p: u32) -> u32 {
    (u & !(0xFFu32 << p)) | ((v as u32) << p)
}

/// The nibble of the byte `v` at bit `p`.
pub open spec fn get4b(v: u8, p: u8) -> u8 {
    (v & (0xFu8 << p)) >> p
}

proof fn lemma_get8_bound(u: u32, p: u32)
    by (bit_vector)
    ensures
        get8(u, p) < 256,
{
}

proof fn lemma_get4b_bound(v: u8, p: u8)
    by (bit_vector)
    requires
        p < 8,
    ensures
        get4b(v, p) < 16,
{
}

/// Replaces the byte of `u32_val` at bit `position` by `u8_val`.
pub fn set_8_bits(u32_val: &mut u32, u8_val: u8, position: u8)
    requires
        position < 32,
    ensures
        *final(u32_val) == set8(*old(u32_val), u8_val, position as u32),
{
    *u32_val &= !(0b11111111u32 << position);
    *u32_val |= (u8_val as u32) << position;
}

/// Reads the byte of `u32_val` at bit `position`.
pub fn get_8_bits(u32_val: &u32, position: u8) -> (r: u32)
    requires
        position < 32,
    ensures
        r == get8(*u32_val, position as u32),
        r < 256,
{
    proof {
        lemma_get8_bound(*u32_val, position as u32);
    }
    let mask = 0b11111111u32 << position;
    (*u32_val & mask) >> position
}

/// Reads the nibble of `u32_val` at bit `position`.
pub fn get_4_bits(u32_val: u8, position: u8) -> (r: u8)
    requires
        position < 8,
    ensures
        r == get4b(u32_val, position),
        r < 16,
{
    proof {
        lemma_get4b_bound(u32_val, position);
    }
    let mask = 0b1111u8 << position;
    (u32_val & mask) >> position
}

/// `x` with its first `n` bytes replaced through the substitution
/// table, low nibble selecting the row and high nibble the column.
pub open spec fn sub_bytes(x: u32, n: int) -> u32
    decreases n,
{
    if n <= 0 {
        x
    } else {
        let p = sub_bytes(x, n - 1);
        let byte = get8(p, (8 * (n - 1)) as u32) as u8;
        set8(p, S_BOX[get4b(byte, 0) as int][get4b(byte, 4) as int], (8 * (n - 1)) as u32)
    }
}

/// The round function's value: all four bytes substituted, then the
/// word rotated by `k`.
pub open spec fn g_val(x: u32, k: u32) -> u32 {
    rotl(sub_bytes(x, 4), k)
}

/// Substitutes every byte of the block in place and returns the block
/// rotated left by `k`.
#[allow(non_snake_case)]
pub fn Gr(block: &mut u32, k: u8) -> (r: u32)
    requires
        0 < k < 32,
    ensures
        *final(block) == sub_bytes(*old(block), 4),
        r == g_val(*old(block), k as u32),
{
    let mut i: usize = 0;
    while i < 4
        invariant
            i <= 4,
            *block == sub_bytes(*old(block), i as int),
        decreases 4 - i,
    {
        let byte = get_8_bits(block, (i * 8) as u8) as u8;
        set_8_bits(
            block,
            S_BOX[get_4_bits(byte, 0) as usize][get_4_bits(byte, 4) as usize],
            (i * 8) as u8,
        );
        i += 1;
    }
    RotHi(*block, k)
}

/// One word whitened by a round key and passed through the round
/// function.
pub open spec fn gk(x: u32, key: Seq<u32>, idx: int, k: u32) -> u32 {
    g_val((x as u64 + key[idx] as u64) as u32, k)
}

/// The four words after round `i` (1-based) of encryption.
pub open spec fn enc_round(a: u32, b: u32, c: u32, d: u32, key: Seq<u32>, i: int) -> (
    u32,
    u32,
    u32,
    u32,
) {
    let b1 = b ^ gk(a, key, (7 * i - 7) % 8, 5);
    let c1 = c ^ gk(d, key, (7 * i - 6) % 8, 21);
    let a1 = ((a as i128 - gk(b1, key, (7 * i - 5) % 8, 13) as i128) as u32);
    let e = g_val(
        (((b1 as u64 + c1 as u64) as u32) as u64 + key[(7 * i - 4) % 8] as u64) as u32,
        21,
    ) ^ (i as u32);
    let b2 = ((b1 as u64 + e as u64) as u32);
    let c2 = ((c1 as i128 - e as i128) as u32);
    let d1 = ((d as u64 + gk(c2, key, (7 * i - 3) % 8, 13) as u64) as u32);
    let b3 = b2 ^ gk(a1, key, (7 * i - 2) % 8, 21);
    let c3 = c2 ^ gk(d1, key, (7 * i - 1) % 8, 5);
    (a1, b3, c3, d1)
}

/// The state after the first `n` encryption rounds.
pub open spec fn enc_rounds(a: u32, b: u32, c: u32, d: u32, key: Seq<u32>, n: int) -> (
    u32,
    u32,
    u32,
    u32,
)
    decreases n,
{
    if n <= 0 {
        (a, b, c, d)
    } else {
        let p = enc_rounds(a, b, c, d, key, n - 1);
        enc_round(p.0, p.1, p.2, p.3, key, n)
    }
}

/// Encryption of one four-word block: eight rounds, then the words
/// reversed.
pub open spec fn spec_encrypt_block(a: u32, b: u32, c: u32, d: u32, key: Seq<u32>) -> (
    u32,
    u32,
    u32,
    u32,
) {
    let p = enc_rounds(a, b, c, d, key, 8);
    (p.3, p.2, p.1, p.0)
}

/// Encrypts one four-word block under the eight-word key.
pub fn encrypt_block(a: u32, b: u32, c: u32, d: u32, key: &[u32]) -> (r: (u32, u32, u32, u32))
    requires
        key@.len() >= 8,
    ensures
        r == spec_encrypt_block(a, b, c, d, key@),
{
    let mut aa = a;
    let mut bb = b;
    let mut cc = c;
    let mut dd = d;
    let mut i: usize = 1;
    while i <= 8
        invariant
            1 <= i <= 9,
            key@.len() >= 8,
            (aa, bb, cc, dd) == enc_rounds(a, b, c, d, key@, i - 1),
        decreases 9 - i,
    {
        let mut t1 = sum_u32(aa, key[(7 * i - 7) % 8]);
        bb ^= Gr(&mut t1, 5);
        let mut t2 = sum_u32(dd, key[(7 * i - 6) % 8]);
        cc ^= Gr(&mut t2, 21);
        let mut t3 = sum_u32(bb, key[(7 * i - 5) % 8]);
        aa = sub_u32(aa, Gr(&mut t3, 13));
        let mut t4 = sum_u32(sum_u32(bb, cc), key[(7 * i - 4) % 8]);
        let e = Gr(&mut t4, 21) ^ (i as u32);
        bb = sum_u32(bb, e);
        cc = sub_u32(cc, e);
        let mut t5 = sum_u32(cc, key[(7 * i - 3) % 8]);
        dd = sum_u32(dd, Gr(&mut t5, 13));
        let mut t6 = sum_u32(aa, key[(7 * i - 2) % 8]);
        bb ^= Gr(&mut t6, 21);
        let mut t7 = sum_u32(dd, key[(7 * i - 1) % 8]);
        cc ^= Gr(&mut t7, 5);
        i += 1;
    }
    (dd, cc, bb, aa)
}

/// The four words after round `i` (counting 8 down to 1) of
/// decryption.
pub open spec fn dec_round(a: u32, b: u32, c: u32, d: u32, key: Seq<u32>, i: int) -> (
    u32,
    u32,
    u32,
    u32,
) {
    let b1 = b ^ gk(a, key, (7 * i - 1) % 8, 5);
    let c1 = c ^ gk(d, key, (7 * i - 2) % 8, 21);
    let a1 = ((a as i128 - gk(b1, key, (7 * i - 3) % 8, 13) as i128) as u32);
    let e = g_val(
        (((b1 as u64 + c1 as u64) as u32) as u64 + key[(7 * i - 4) % 8] as u64) as u32,
        21,
    ) ^ (i as u32);
    let b2 = ((b1 as u64 + e as u64) as u32);
    let c2 = ((c1 as i128 - e as i128) as u32);
    let d1 = ((d as u64 + gk(c2, key, (7 * i - 5) % 8, 13) as u64) as u32);
    let b3 = b2 ^ gk(a1, key, (7 * i - 6) % 8, 21);
    let c3 = c2 ^ gk(d1, key, (7 * i - 7) % 8, 5);
    (a1, b3, c3, d1)
}

/// The state after the first `n` decryption rounds, whose round
/// numbers run from 8 down to 1.
pub open spec fn dec_rounds(a: u32, b: u32, c: u32, d: u32, key: Seq<u32>, n: int) -> (
    u32,
    u32,
    u32,
    u32,
)
    decreases n,
{
    if n <= 0 {
        (a, b, c, d)
    } else {
        let p = dec_rounds(a, b, c, d, key, n - 1);
        dec_round(p.0, p.1, p.2, p.3, key, 9 - n)
    }
}

/// Decryption of one four-word block: eight rounds in reverse order,
/// then the words reversed.
pub open spec fn spec_decrypt_block(a: u32, b: u32, c: u32, d: u32, key: Seq<u32>) -> (
    u32,
    u32,
    u32,
    u32,
) {
    let p = dec_rounds(a, b, c, d, key, 8);
    (p.3, p.2, p.1, p.0)
}

/// Decrypts one four-word block under the eight-word key.
pub fn decrypt_block(a: u32, b: u32, c: u32, d: u32, key: &[u32]) -> (r: (u32, u32, u32, u32))
    requires
        key@.len() >= 8,
    ensures
        r == spec_decrypt_block(a, b, c, d, key@),
{
    let mut aa = a;
    let mut bb = b;
    let mut cc = c;
    let mut dd = d;
    let mut n: usize = 1;
    while n <= 8
        invariant
            1 <= n <= 9,
            key@.len() >= 8,
            (aa, bb, cc, dd) == dec_rounds(a, b, c, d, key@, n - 1),
        decreases 9 - n,
    {
        let i = 9 - n;
        let mut t1 = sum_u32(aa, key[(7 * i - 1) % 8]);
        bb ^= Gr(&mut t1, 5);
        let mut t2 = sum_u32(dd, key[(7 * i - 2) % 8]);
        cc ^= Gr(&mut t2, 21);
        let mut t3 = sum_u32(bb, key[(7 * i - 3) % 8]);
        aa = sub_u32(aa, Gr(&mut t3, 13));
        let mut t4 = sum_u32(sum_u32(bb, cc), key[(7 * i - 4) % 8]);
        let e = Gr(&mut t4, 21) ^ (i as u32);
        bb = sum_u32(bb, e);
        cc = sub_u32(cc, e);
        let mut t5 = sum_u32(cc, key[(7 * i - 5) % 8]);
        dd = sum_u32(dd, Gr(&mut t5, 13));
        let mut t6 = sum_u32(aa, key[(7 * i - 6) % 8]);
        bb ^= Gr(&mut t6, 21);
        let mut t7 = sum_u32(dd, key[(7 * i - 7) % 8]);
        cc ^= Gr(&mut t7, 5);
        n += 1;
    }
    (dd, cc, bb, aa)
}

/// The four keystream words of counter value `s`: its big-endian words
/// encrypted as one block.
pub open spec fn keystream(s: int, key: Seq<u32>) -> (u32, u32, u32, u32) {
    let v = s as u128;
    spec_encrypt_block(
        (v >> 96u128) as u32,
        (v >> 64u128) as u32,
        (v >> 32u128) as u32,
        v as u32,
        key,
    )
}

/// Encrypts the stream in place in counter mode: each four-word block
/// is XORed with the encryption of the next counter value.
pub fn counter_enc(sync_sending: &mut u128, converted_data: &mut Vec<u32>, converted_key: &Vec<u32>)
    requires
        converted_key@.len() >= 8,
        *old(sync_sending) + old(converted_data)@.len() as int / 4 <= u128::MAX,
    ensures
        *final(sync_sending) == *old(sync_sending) + old(converted_data)@.len() as int / 4,
        final(converted_data)@.len() == old(converted_data)@.len(),
        forall|j: int, t: int|
            #![trigger final(converted_data)@[4 * j + t]]
            0 <= j < old(converted_data)@.len() as int / 4 && 0 <= t < 4
                ==> final(converted_data)@[4 * j + t] == (old(converted_data)@[4 * j + t] ^ (
            if t == 0 {
                keystream(*old(sync_sending) + j + 1, converted_key@).0
            } else if t == 1 {
                keystream(*old(sync_sending) + j + 1, converted_key@).1
            } else if t == 2 {
                keystream(*old(sync_sending) + j + 1, converted_key@).2
            } else {
                keystream(*old(sync_sending) + j + 1, converted_key@).3
            })),
        forall|j: int|
            4 * (old(converted_data)@.len() as int / 4) <= j < old(converted_data)@.len()
                ==> final(converted_data)@[j] == old(converted_data)@[j],
{
    let blocks = converted_data.len() / 4;
    let mut i: usize = 0;
    while i < blocks
        invariant
            i <= blocks,
            blocks == old(converted_data)@.len() as int / 4,
            converted_key@.len() >= 8,
            converted_data@.len() == old(converted_data)@.len() <= usize::MAX,
            *old(sync_sending) + blocks <= u128::MAX,
            *sync_sending == *old(sync_sending) + i,
            forall|j: int, t: int|
                #![trigger converted_data@[4 * j + t]]
                0 <= j < i && 0 <= t < 4 ==> converted_data@[4 * j + t] == (old(
                    converted_data,
                )@[4 * j + t] ^ (if t == 0 {
                    keystream(*old(sync_sending) + j + 1, converted_key@).0
                } else if t == 1 {
                    keystream(*old(sync_sending) + j + 1, converted_key@).1
                } else if t == 2 {
                    keystream(*old(sync_sending) + j + 1, converted_key@).2
                } else {
                    keystream(*old(sync_sending) + j + 1, converted_key@).3
                })),
            forall|j: int|
                4 * (i as int) <= j < converted_data@.len() ==> converted_data@[j] == old(
                    converted_data,
                )@[j],
        decreases blocks - i,
    {
        proof {
            vstd::arithmetic::div_mod::lemma_fundamental_div_mod(
                old(converted_data)@.len() as int,
                4,
            );
            vstd::arithmetic::div_mod::lemma_mod_bound(old(converted_data)@.len() as int, 4);
            assert(4 * (i as int) + 4 <= converted_data@.len());
        }
        *sync_sending += 1;
        let sync_sending_u32 = crate::convert::convert_128_to_32(*sync_sending);
        let r = encrypt_block(
            sync_sending_u32[0],
            sync_sending_u32[1],
            sync_sending_u32[2],
            sync_sending_u32[3],
            converted_key.as_slice(),
        );
        let w0 = converted_data[4 * i] ^ r.0;
        let w1 = converted_data[4 * i + 1] ^ r.1;
        let w2 = converted_data[4 * i + 2] ^ r.2;
        let w3 = converted_data[4 * i + 3] ^ r.3;
        converted_data[4 * i] = w0;
        converted_data[4 * i + 1] = w1;
        converted_data[4 * i + 2] = w2;
        converted_data[4 * i + 3] = w3;
        i += 1;
    }
}

} // verus!
