//! A 32-round Feistel block cipher over two 32-bit halves, with a
//! nibble-wide substitution layer and an 11-bit rotation in its round
//! function, plus the byte/word conversions its callers use.

use vstd::prelude::*;

verus! {

/// The eight 16-entry nibble substitution rows of the round function.
pub const S_BOX: [[u8; 16]; 8] = [
    [0x01, 0x0B, 0x0C, 0x02, 0x09, 0x0D, 0x00, 0x0F, 0x04, 0x05, 0x08, 0x0E, 0x0A, 0x07, 0x06, 0x03],
    [0x00, 0x01, 0x07, 0x0D, 0x0B, 0x04, 0x05, 0x02, 0x08, 0x0E, 0x0F, 0x0C, 0x09, 0x0A, 0x06, 0x03],
    [0x08, 0x02, 0x05, 0x00, 0x04, 0x09, 0x0F, 0x0A, 0x03, 0x07, 0x0C, 0x0D, 0x06, 0x0E, 0x01, 0x0B],
    [0x03, 0x06, 0x00, 0x01, 0x05, 0x0D, 0x0A, 0x08, 0x0B, 0x02, 0x09, 0x07, 0x0E, 0x0F, 0x0C, 0x04],
    [0x08, 0x0D, 0x0B, 0x00, 0x04, 0x05, 0x01, 0x02, 0x09, 0x03, 0x0C, 0x0E, 0x06, 0x0F, 0x0A, 0x07],
    [0x0C, 0x09, 0x0B, 0x01, 0x08, 0x0E, 0x02, 0x04, 0x07, 0x03, 0x06, 0x05, 0x0A, 0x00, 0x0F, 0x0D],
    [0x0A, 0x09, 0x06, 0x08, 0x0D, 0x0E, 0x02, 0x00, 0x0F, 0x03, 0x05, 0x0B, 0x04, 0x01, 0x0C, 0x07],
    [0x07, 0x04, 0x00, 0x05, 0x0A, 0x02, 0x0F, 0x0E, 0x0C, 0x06, 0x01, 0x0B, 0x0D, 0x09, 0x03, 0x08],
];

/// The four bits of `u` starting at bit `p`.
pub open spec fn get4(u: u32, p: u32) -> u32 {
    (u & (0xFu32 << p)) >> p
}

/// `u` with the four bits starting at bit `p` replaced by `v`.
pub open spec fn set4(u: u32, v: u8, p: u32) -> u32 {
    (u & !(0xFu32 << p)) | ((v as u32) << p)
}

proof fn lemma_get4_bound(u: u32, p: u32)
    by (bit_vector)
    ensures
        get4(u, p) < 16,
{
}

/// Reads the 4-bit group of `u32_val` at bit `position`.
pub fn get_4_bits(u32_val: &u32, position: u8) -> (r: u32)
    requires
        position < 32,
    ensures
        r == get4(*u32_val, position as u32),
        r < 16,
{
    proof {
        lemma_get4_bound(*u32_val, position as u32);
    }
    let mask = 0b1111u32 << position;
    (*u32_val & mask) >> position
}

/// Replaces the 4-bit group of `u32_val` at bit `position` by `u4_val`.
pub fn set_4_bits(u32_val: &mut u32, u4_val: u8, position: u8)
    requires
        position < 32,
    ensures
        *final(u32_val) == set4(*old(u32_val), u4_val, position as u32),
{
    *u32_val &= !(0b1111u32 << position);
    *u32_val |= (u4_val as u32) << position;
}

/// `x` after the first `n` nibble groups have been substituted through
/// their rows of the substitution table.
pub open spec fn sbox_layer(x: u32, n: int) -> u32
    decreases n,
{
    if n <= 0 {
        x
    } else {
        let p = sbox_layer(x, n - 1);
        set4(p, S_BOX[n - 1][get4(p, (4 * (n - 1)) as u32) as int], (4 * (n - 1)) as u32)
    }
}

/// One Feistel round: the low half is whitened by the key, substituted
/// nibble-wise, rotated, and folded into the high half; the old low
/// half becomes the new high half.
pub open spec fn spec_main_round(block_low: u32, block_high: u32, key: u32) -> (u32, u32) {
    let s = sbox_layer(block_low ^ key, 8);
    let rot = ((s >> 11) | (s << (32 - 11))) & 0xFFFFFFFFu32;
    (rot ^ block_high, block_low)
}

/// One round of the cipher on the pair of halves under one round key.
pub fn main_round(block_low: u32, block_high: u32, key: u32) -> (r: (u32, u32))
    ensures
        r == spec_main_round(block_low, block_high, key),
{
    let block_low_clone = block_low;
    let mut low: u32 = block_low ^ key;
    let mut i: usize = 0;
    while i < 8
        invariant
            i <= 8,
            low == sbox_layer(block_low ^ key, i as int),
        decreases 8 - i,
    {
        let value_to_change = get_4_bits(&low, (i * 4) as u8) as usize;
        set_4_bits(&mut low, S_BOX[i][value_to_change], (i * 4) as u8);
        i += 1;
    }
    low = ((low >> 11) | (low << (32 - 11))) & 0xFFFFFFFF;
    low ^= block_high;
    (low, block_low_clone)
}

/// The halves after the first `n` of the 24 leading rounds, which take
/// their keys in cyclic order.
pub open spec fn enc_head(lo: u32, hi: u32, key: Seq<u32>, n: int) -> (u32, u32)
    decreases n,
{
    if n <= 0 {
        (lo, hi)
    } else {
        let p = enc_head(lo, hi, key, n - 1);
        spec_main_round(p.0, p.1, key[(n - 1) % 8])
    }
}

/// The halves after the first `n` of the 8 trailing rounds, which take
/// their keys in reverse order.
pub open spec fn enc_tail(lo: u32, hi: u32, key: Seq<u32>, n: int) -> (u32, u32)
    decreases n,
{
    if n <= 0 {
        (lo, hi)
    } else {
        let p = enc_tail(lo, hi, key, n - 1);
        spec_main_round(p.0, p.1, key[8 - n])
    }
}

/// Encryption of one pair of halves: 24 rounds with keys in cyclic
/// order, 8 rounds with keys reversed, and a final swap.
pub open spec fn spec_encrypt_block(lo: u32, hi: u32, key: Seq<u32>) -> (u32, u32) {
    let p = enc_head(lo, hi, key, 24);
    let q = enc_tail(p.0, p.1, key, 8);
    (q.1, q.0)
}

/// Encrypts one two-word block under the eight-word key.
pub fn encrypt_block(block_low: u32, block_high: u32, key: &[u32]) -> (r: (u32, u32))
    requires
        key@.len() >= 8,
    ensures
        r == spec_encrypt_block(block_low, block_high, key@),
{
    let mut lo = block_low;
    let mut hi = block_high;
    let mut index: usize = 0;
    while index < 24
        invariant
            index <= 24,
            key@.len() >= 8,
            (lo, hi) == enc_head(block_low, block_high, key@, index as int),
        decreases 24 - index,
    {
        let r = main_round(lo, hi, key[index % 8]);
        lo = r.0;
        hi = r.1;
        index += 1;
    }
    let head_lo = lo;
    let head_hi = hi;
    let mut n: usize = 0;
    while n < 8
        invariant
            n <= 8,
            key@.len() >= 8,
            (lo, hi) == enc_tail(head_lo, head_hi, key@, n as int),
        decreases 8 - n,
    {
        let r = main_round(lo, hi, key[7 - n]);
        lo = r.0;
        hi = r.1;
        n += 1;
    }
    (hi, lo)
}

/// The halves after the first `n` of the 24 trailing decryption rounds,
/// which walk the cyclic key order backwards.
pub open spec fn dec_tail(lo: u32, hi: u32, key: Seq<u32>, n: int) -> (u32, u32)
    decreases n,
{
    if n <= 0 {
        (lo, hi)
    } else {
        let p = dec_tail(lo, hi, key, n - 1);
        spec_main_round(p.0, p.1, key[(24 - n) % 8])
    }
}

/// Decryption of one pair of halves: 8 rounds with keys in cyclic
/// order, 24 rounds with keys walked backwards, and a final swap.
pub open spec fn spec_decrypt_block(lo: u32, hi: u32, key: Seq<u32>) -> (u32, u32) {
    let p = enc_head(lo, hi, key, 8);
    let q = dec_tail(p.0, p.1, key, 24);
    (q.1, q.0)
}

/// Decrypts one two-word block under the eight-word key.
pub fn decrypt_block(block_low: u32, block_high: u32, key: &[u32]) -> (r: (u32, u32))
    requires
        key@.len() >= 8,
    ensures
        r == spec_decrypt_block(block_low, block_high, key@),
{
    let mut lo = block_low;
    let mut hi = block_high;
    let mut index: usize = 0;
    while index < 8
        invariant
            index <= 8,
            key@.len() >= 8,
            (lo, hi) == enc_head(block_low, block_high, key@, index as int),
        decreases 8 - index,
    {
        let r = main_round(lo, hi, key[index % 8]);
        lo = r.0;
        hi = r.1;
        index += 1;
    }
    let head_lo = lo;
    let head_hi = hi;
    let mut n: usize = 0;
    while n < 24
        invariant
            n <= 24,
            key@.len() >= 8,
            (lo, hi) == dec_tail(head_lo, head_hi, key@, n as int),
        decreases 24 - n,
    {
        let r = main_round(lo, hi, key[(24 - 1 - n) % 8]);
        lo = r.0;
        hi = r.1;
        n += 1;
    }
    (hi, lo)
}

/// `n` consecutive encryptions of one pair of halves.
pub open spec fn iter_enc(lo: u32, hi: u32, key: Seq<u32>, n: int) -> (u32, u32)
    decreases n,
{
    if n <= 0 {
        (lo, hi)
    } else {
        let p = iter_enc(lo, hi, key, n - 1);
        spec_encrypt_block(p.0, p.1, key)
    }
}

/// `n` consecutive decryptions of one pair of halves.
pub open spec fn iter_dec(lo: u32, hi: u32, key: Seq<u32>, n: int) -> (u32, u32)
    decreases n,
{
    if n <= 0 {
        (lo, hi)
    } else {
        let p = iter_dec(lo, hi, key, n - 1);
        spec_decrypt_block(p.0, p.1, key)
    }
}

/// The stream and authenticator after the first `n` pairs have been
/// processed: the pair is folded into the authenticator, then both are
/// encrypted sixteen times over.
pub open spec fn enc_steps(d: Seq<u32>, key: Seq<u32>, n: int) -> (Seq<u32>, u32, u32)
    decreases n,
{
    if n <= 0 {
        (d, 0u32, 0u32)
    } else {
        let p = enc_steps(d, key, n - 1);
        let im0 = p.1 ^ d[2 * (n - 1)];
        let im1 = p.2 ^ d[2 * (n - 1) + 1];
        let e = iter_enc(d[2 * (n - 1)], d[2 * (n - 1) + 1], key, 16);
        let im = iter_enc(im0, im1, key, 16);
        (p.0.update(2 * (n - 1), e.0).update(2 * (n - 1) + 1, e.1), im.0, im.1)
    }
}

proof fn lemma_enc_steps_frame(d: Seq<u32>, key: Seq<u32>, n: int)
    requires
        2 * n <= d.len(),
    ensures
        enc_steps(d, key, n).0.len() == d.len(),
        forall|j: int| 2 * n <= j < d.len() ==> enc_steps(d, key, n).0[j] == d[j],
    decreases n,
{
    if n > 0 {
        lemma_enc_steps_frame(d, key, n - 1);
    }
}

/// Encrypts the stream pairwise in place, sixteen passes per pair, and
/// returns the running authenticator, itself encrypted after each
/// block it absorbs.
pub fn encrypt_data(converted_data: &mut Vec<u32>, converted_key: &[u32]) -> (imito: (u32, u32))
    requires
        converted_key@.len() >= 8,
        old(converted_data)@.len() % 2 == 0,
        old(converted_data)@.len() >= 2,
    ensures
        final(converted_data)@ == enc_steps(
            old(converted_data)@,
            converted_key@,
            old(converted_data)@.len() as int / 2,
        ).0,
        imito.0 == enc_steps(
            old(converted_data)@,
            converted_key@,
            old(converted_data)@.len() as int / 2,
        ).1,
        imito.1 == enc_steps(
            old(converted_data)@,
            converted_key@,
            old(converted_data)@.len() as int / 2,
        ).2,
{
    let mut im0: u32 = 0;
    let mut im1: u32 = 0;
    let pairs = converted_data.len() / 2;
    let mut i: usize = 0;
    while i < pairs
        invariant
            i <= pairs,
            pairs == old(converted_data)@.len() as int / 2,
            old(converted_data)@.len() % 2 == 0,
            converted_key@.len() >= 8,
            converted_data@.len() == old(converted_data)@.len() <= usize::MAX,
            converted_data@ == enc_steps(old(converted_data)@, converted_key@, i as int).0,
            im0 == enc_steps(old(converted_data)@, converted_key@, i as int).1,
            im1 == enc_steps(old(converted_data)@, converted_key@, i as int).2,
        decreases pairs - i,
    {
        proof {
            vstd::arithmetic::div_mod::lemma_fundamental_div_mod(
                old(converted_data)@.len() as int,
                2,
            );
            lemma_enc_steps_frame(old(converted_data)@, converted_key@, i as int);
            assert(2 * (i as int) + 2 <= converted_data@.len());
        }
        let d0 = converted_data[2 * i];
        let d1 = converted_data[2 * i + 1];
        im0 ^= d0;
        im1 ^= d1;
        let mut x = d0;
        let mut y = d1;
        let mut t: usize = 0;
        while t < 16
            invariant
                t <= 16,
                converted_key@.len() >= 8,
                (x, y) == iter_enc(d0, d1, converted_key@, t as int),
            decreases 16 - t,
        {
            let r = encrypt_block(x, y, converted_key);
            x = r.0;
            y = r.1;
            t += 1;
        }
        converted_data[2 * i] = x;
        converted_data[2 * i + 1] = y;
        let mut t2: usize = 0;
        while t2 < 16
            invariant
                t2 <= 16,
                converted_key@.len() >= 8,
                (im0, im1) == iter_enc(
                    enc_steps(old(converted_data)@, converted_key@, i as int).1 ^ d0,
                    enc_steps(old(converted_data)@, converted_key@, i as int).2 ^ d1,
                    converted_key@,
                    t2 as int,
                ),
            decreases 16 - t2,
        {
            let r = encrypt_block(im0, im1, converted_key);
            im0 = r.0;
            im1 = r.1;
            t2 += 1;
        }
        proof {
            assert(converted_data@ =~= enc_steps(
                old(converted_data)@,
                converted_key@,
                i + 1,
            ).0);
        }
        i += 1;
    }
    (im0, im1)
}

/// The stream after the first `n` pairs have been decrypted, sixteen
/// passes per pair.
pub open spec fn dec_pairs(d: Seq<u32>, key: Seq<u32>, n: int) -> Seq<u32>
    decreases n,
{
    if n <= 0 {
        d
    } else {
        let p = dec_pairs(d, key, n - 1);
        let e = iter_dec(d[2 * (n - 1)], d[2 * (n - 1) + 1], key, 16);
        p.update(2 * (n - 1), e.0).update(2 * (n - 1) + 1, e.1)
    }
}

proof fn lemma_dec_pairs_frame(d: Seq<u32>, key: Seq<u32>, n: int)
    requires
        2 * n <= d.len(),
    ensures
        dec_pairs(d, key, n).len() == d.len(),
        forall|j: int| 2 * n <= j < d.len() ==> dec_pairs(d, key, n)[j] == d[j],
    decreases n,
{
    if n > 0 {
        lemma_dec_pairs_frame(d, key, n - 1);
    }
}

/// The authenticator recomputed over the first `n` pairs of a
/// decrypted stream.
pub open spec fn imito_of(dd: Seq<u32>, key: Seq<u32>, n: int) -> (u32, u32)
    decreases n,
{
    if n <= 0 {
        (0u32, 0u32)
    } else {
        let p = imito_of(dd, key, n - 1);
        iter_enc(p.0 ^ dd[2 * (n - 1)], p.1 ^ dd[2 * (n - 1) + 1], key, 16)
    }
}

/// Decrypts the stream pairwise in place and returns the
/// authenticator recomputed over the decrypted words.
pub fn decrypt_data(converted_data: &mut Vec<u32>, converted_key: &[u32]) -> (imito: (u32, u32))
    requires
        converted_key@.len() >= 8,
        old(converted_data)@.len() % 2 == 0,
        old(converted_data)@.len() >= 2,
    ensures
        final(converted_data)@ == dec_pairs(
            old(converted_data)@,
            converted_key@,
            old(converted_data)@.len() as int / 2,
        ),
        imito == imito_of(
            final(converted_data)@,
            converted_key@,
            old(converted_data)@.len() as int / 2,
        ),
{
    let pairs = converted_data.len() / 2;
    let mut i: usize = 0;
    while i < pairs
        invariant
            i <= pairs,
            pairs == old(converted_data)@.len() as int / 2,
            old(converted_data)@.len() % 2 == 0,
            converted_key@.len() >= 8,
            converted_data@.len() == old(converted_data)@.len() <= usize::MAX,
            converted_data@ == dec_pairs(old(converted_data)@, converted_key@, i as int),
        decreases pairs - i,
    {
        proof {
            vstd::arithmetic::div_mod::lemma_fundamental_div_mod(
                old(converted_data)@.len() as int,
                2,
            );
            lemma_dec_pairs_frame(old(converted_data)@, converted_key@, i as int);
            assert(2 * (i as int) + 2 <= converted_data@.len());
        }
        let d0 = converted_data[2 * i];
        let d1 = converted_data[2 * i + 1];
        let mut x = d0;
        let mut y = d1;
        let mut t: usize = 0;
        while t < 16
            invariant
                t <= 16,
                converted_key@.len() >= 8,
                (x, y) == iter_dec(d0, d1, converted_key@, t as int),
            decreases 16 - t,
        {
            let r = decrypt_block(x, y, converted_key);
            x = r.0;
            y = r.1;
            t += 1;
        }
        converted_data[2 * i] = x;
        converted_data[2 * i + 1] = y;
        proof {
            assert(converted_data@ =~= dec_pairs(
                old(converted_data)@,
                converted_key@,
                i + 1,
            ));
        }
        i += 1;
    }
    let mut im0: u32 = 0;
    let mut im1: u32 = 0;
    let mut i2: usize = 0;
    while i2 < pairs
        invariant
            i2 <= pairs,
            pairs == old(converted_data)@.len() as int / 2,
            converted_key@.len() >= 8,
            converted_data@.len() == old(converted_data)@.len() <= usize::MAX,
            converted_data@ == dec_pairs(
                old(converted_data)@,
                converted_key@,
                old(converted_data)@.len() as int / 2,
            ),
            (im0, im1) == imito_of(converted_data@, converted_key@, i2 as int),
        decreases pairs - i2,
    {
        proof {
            vstd::arithmetic::div_mod::lemma_fundamental_div_mod(
                old(converted_data)@.len() as int,
                2,
            );
            assert(2 * (i2 as int) + 2 <= converted_data@.len());
        }
        im0 ^= converted_data[2 * i2];
        im1 ^= converted_data[2 * i2 + 1];
        let ghost s0 = im0;
        let ghost s1 = im1;
        let mut t: usize = 0;
        while t < 16
            invariant
                t <= 16,
                converted_key@.len() >= 8,
                (im0, im1) == iter_enc(s0, s1, converted_key@, t as int),
            decreases 16 - t,
        {
            let r = encrypt_block(im0, im1, converted_key);
            im0 = r.0;
            im1 = r.1;
            t += 1;
        }
        i2 += 1;
    }
    (im0, im1)
}

} // verus!
