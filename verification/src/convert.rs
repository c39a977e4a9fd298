//! Big-endian conversions between byte, 16-bit, 32-bit, 64-bit and
//! 128-bit views of data, shared by the ciphers and hashes.

use vstd::prelude::*;

use vstd::slice::slice_subrange;

verus! {

/// Byte `i` of `s`, or zero past its end.
pub open spec fn byte_at(s: Seq<u8>, i: int) -> u8 {
    if 0 <= i < s.len() {
        s[i]
    } else {
        0
    }
}

/// Word `i` of `s`, or zero past its end.
pub open spec fn word_at(s: Seq<u32>, i: int) -> u32 {
    if 0 <= i < s.len() {
        s[i]
    } else {
        0
    }
}

/// The big-endian 32-bit value of up to four bytes, zero-padded on the
/// right.
pub open spec fn be32_of(s: Seq<u8>) -> u32 {
    ((byte_at(s, 0) as u32) << 24) | ((byte_at(s, 1) as u32) << 16) | ((byte_at(s, 2) as u32) << 8)
        | (byte_at(s, 3) as u32)
}

/// The big-endian 128-bit value of up to four words, zero-padded on the
/// right.
pub open spec fn be128_of(s: Seq<u32>) -> u128 {
    ((word_at(s, 0) as u128) << 96) | ((word_at(s, 1) as u128) << 64) | ((word_at(
        s,
        2,
    ) as u128) << 32) | (word_at(s, 3) as u128)
}

/// Byte `k` (big-endian) of the 32-bit word `w`.
pub open spec fn u32_byte(w: u32, k: int) -> u8 {
    ((w >> ((24 - 8 * k) as u32)) & 0xff) as u8
}

/// Half `k` (big-endian) of the 32-bit word `w`.
pub open spec fn u32_half(w: u32, k: int) -> u16 {
    if k == 0 {
        ((w >> 16u32) & 0xffff) as u16
    } else {
        (w & 0xffff) as u16
    }
}

/// Byte `k` (big-endian) of the 16-bit value `w`.
pub open spec fn u16_byte(w: u16, k: int) -> u8 {
    if k == 0 {
        ((w >> 8u16) & 0xff) as u8
    } else {
        (w & 0xff) as u8
    }
}

/// Reads one to four bytes as a big-endian 32-bit value, zero-padded.
pub fn convert_to_u32(u8_block: &[u8]) -> (r: u32)
    requires
        1 <= u8_block@.len() <= 4,
    ensures
        r == be32_of(u8_block@),
{
    let b0 = u8_block[0] as u32;
    let b1 = if u8_block.len() > 1 { u8_block[1] as u32 } else { 0 };
    let b2 = if u8_block.len() > 2 { u8_block[2] as u32 } else { 0 };
    let b3 = if u8_block.len() > 3 { u8_block[3] as u32 } else { 0 };
    (b0 << 24) | (b1 << 16) | (b2 << 8) | b3
}

/// Serializes each 32-bit word into four big-endian bytes.
pub fn transform_u32_to_array_of_u8(x: &[u32]) -> (r: Vec<u8>)
    ensures
        r@.len() == 4 * x@.len(),
        forall|i: int| 0 <= i < r@.len() ==> r@[i] == u32_byte(x@[i / 4], i % 4),
{
    let mut x_u8: Vec<u8> = Vec::new();
    let mut i: usize = 0;
    while i < x.len()
        invariant
            i <= x@.len(),
            x_u8@.len() == 4 * i,
            forall|j: int| 0 <= j < x_u8@.len() ==> x_u8@[j] == u32_byte(x@[j / 4], j % 4),
        decreases x@.len() - i,
    {
        let w = x[i];
        let b1: u8 = ((w >> 24) & 0xff) as u8;
        let b2: u8 = ((w >> 16) & 0xff) as u8;
        let b3: u8 = ((w >> 8) & 0xff) as u8;
        let b4: u8 = (w & 0xff) as u8;
        x_u8.push(b1);
        x_u8.push(b2);
        x_u8.push(b3);
        x_u8.push(b4);
        proof {
            assert(u32_byte(w, 3) == (w & 0xff) as u8) by (bit_vector);
        }
        i += 1;
    }
    x_u8
}

/// Splits a 64-bit value into its two big-endian 32-bit words.
pub fn convert_64_to_32(u: u64) -> (r: Vec<u32>)
    ensures
        r@.len() == 2,
        r@[0] == (u >> 32) as u32,
        r@[1] == u as u32,
{
    let mut x_u32: Vec<u32> = Vec::new();
    x_u32.push((u >> 32) as u32);
    x_u32.push(u as u32);
    x_u32
}

/// Splits a 128-bit value into its four big-endian 32-bit words.
pub fn convert_128_to_32(u: u128) -> (r: Vec<u32>)
    ensures
        r@.len() == 4,
        r@[0] == (u >> 96) as u32,
        r@[1] == (u >> 64) as u32,
        r@[2] == (u >> 32) as u32,
        r@[3] == u as u32,
{
    let mut x_u32: Vec<u32> = Vec::new();
    x_u32.push((u >> 96) as u32);
    x_u32.push((u >> 64) as u32);
    x_u32.push((u >> 32) as u32);
    x_u32.push(u as u32);
    x_u32
}

/// Reads one to four 32-bit words as a big-endian 128-bit value,
/// zero-padded.
pub fn convert_to_u128(u32_block: &[u32]) -> (r: u128)
    requires
        1 <= u32_block@.len() <= 4,
    ensures
        r == be128_of(u32_block@),
{
    let w0 = u32_block[0] as u128;
    let w1 = if u32_block.len() > 1 { u32_block[1] as u128 } else { 0 };
    let w2 = if u32_block.len() > 2 { u32_block[2] as u128 } else { 0 };
    let w3 = if u32_block.len() > 3 { u32_block[3] as u128 } else { 0 };
    (w0 << 96) | (w1 << 64) | (w2 << 32) | w3
}

/// Reads the first two 32-bit words as a big-endian 64-bit value.
pub fn convert_u32_to_u64(u32_block: &[u32]) -> (r: u64)
    requires
        u32_block@.len() >= 2,
    ensures
        r == ((u32_block@[0] as u64) << 32) | (u32_block@[1] as u64),
{
    ((u32_block[0] as u64) << 32) | (u32_block[1] as u64)
}

/// Joins the first sixteen 16-bit values pairwise into eight 32-bit
/// words.
pub fn convert_u16_to_u32(data: Vec<u16>) -> (r: Vec<u32>)
    requires
        data@.len() >= 16,
    ensures
        r@.len() == 8,
        forall|i: int| 0 <= i < 8 ==> r@[i] == (((data@[2 * i] as u32) << 16) | (data@[2 * i
            + 1] as u32)),
{
    let mut return_data: Vec<u32> = Vec::new();
    let mut i: usize = 0;
    while i < 8
        invariant
            i <= 8,
            data@.len() >= 16,
            return_data@.len() == i,
            forall|j: int| 0 <= j < i ==> return_data@[j] == (((data@[2 * j] as u32) << 16) | (
            data@[2 * j + 1] as u32)),
        decreases 8 - i,
    {
        return_data.push(((data[2 * i] as u32) << 16) | (data[2 * i + 1] as u32));
        i += 1;
    }
    return_data
}

/// Splits each 32-bit word into its two big-endian 16-bit halves.
pub fn transform_u32_to_array_of_u16(x: &[u32]) -> (r: Vec<u16>)
    ensures
        r@.len() == 2 * x@.len(),
        forall|i: int| 0 <= i < r@.len() ==> r@[i] == u32_half(x@[i / 2], i % 2),
{
    let mut x_u16: Vec<u16> = Vec::new();
    let mut i: usize = 0;
    while i < x.len()
        invariant
            i <= x@.len(),
            x_u16@.len() == 2 * i,
            forall|j: int| 0 <= j < x_u16@.len() ==> x_u16@[j] == u32_half(x@[j / 2], j % 2),
        decreases x@.len() - i,
    {
        let w = x[i];
        x_u16.push(((w >> 16) & 0xffff) as u16);
        x_u16.push((w & 0xffff) as u16);
        i += 1;
    }
    x_u16
}

/// Spreads a 64-bit length over eight 32-bit words: its two big-endian
/// halves, then six zero words.
pub fn transform_u64_to_array_of_u32(x: u64) -> (r: Vec<u32>)
    ensures
        r@.len() == 8,
        r@[0] == ((x >> 32) & 0xffffffff) as u32,
        r@[1] == (x & 0xffffffff) as u32,
        forall|i: int| 2 <= i < 8 ==> r@[i] == 0,
{
    let mut x_u32: Vec<u32> = Vec::new();
    x_u32.push(((x >> 32) & 0xffffffff) as u32);
    x_u32.push((x & 0xffffffff) as u32);
    let mut i: usize = 0;
    while i < 6
        invariant
            i <= 6,
            x_u32@.len() == 2 + i,
            x_u32@[0] == ((x >> 32) & 0xffffffff) as u32,
            x_u32@[1] == (x & 0xffffffff) as u32,
            forall|j: int| 2 <= j < x_u32@.len() ==> x_u32@[j] == 0,
        decreases 6 - i,
    {
        x_u32.push(0);
        i += 1;
    }
    x_u32
}

/// Splits each 16-bit value into its two big-endian bytes.
pub fn transform_u16_to_array_of_u8(x: &[u16]) -> (r: Vec<u8>)
    ensures
        r@.len() == 2 * x@.len(),
        forall|i: int| 0 <= i < r@.len() ==> r@[i] == u16_byte(x@[i / 2], i % 2),
{
    let mut x_u8: Vec<u8> = Vec::new();
    let mut i: usize = 0;
    while i < x.len()
        invariant
            i <= x@.len(),
            x_u8@.len() == 2 * i,
            forall|j: int| 0 <= j < x_u8@.len() ==> x_u8@[j] == u16_byte(x@[j / 2], j % 2),
        decreases x@.len() - i,
    {
        let w = x[i];
        x_u8.push(((w >> 8) & 0xff) as u8);
        x_u8.push((w & 0xff) as u8);
        i += 1;
    }
    x_u8
}

/// The bytes of chunk `i` of `s`: four bytes, or what is left of the
/// last partial chunk.
pub open spec fn chunk4(s: Seq<u8>, i: int) -> Seq<u8> {
    s.subrange(4 * i, if 4 * i + 4 <= s.len() { 4 * i + 4 } else { s.len() as int })
}

/// Packs a byte stream into big-endian 32-bit words, the last partial
/// word zero-padded on the right.
pub fn bytes_to_words(data: &[u8]) -> (r: Vec<u32>)
    ensures
        r@.len() == (data@.len() + 3) / 4,
        forall|i: int| 0 <= i < r@.len() ==> r@[i] == be32_of(chunk4(data@, i)),
{
    let mut converted: Vec<u32> = Vec::new();
    let mut index: usize = 0;
    while data.len() - index * 4 >= 4
        invariant
            index * 4 <= data@.len(),
            converted@.len() == index,
            forall|j: int| 0 <= j < index ==> converted@[j] == be32_of(chunk4(data@, j)),
        decreases data@.len() - index * 4,
    {
        let chunk = slice_subrange(data, index * 4, index * 4 + 4);
        let w = convert_to_u32(chunk);
        proof {
            assert(chunk@ =~= chunk4(data@, index as int));
        }
        converted.push(w);
        index += 1;
    }
    proof {
        vstd::arithmetic::div_mod::lemma_fundamental_div_mod_converse(
            data@.len() as int,
            4,
            index as int,
            data@.len() - 4 * index,
        );
    }
    if data.len() % 4 != 0 {
        let chunk = slice_subrange(data, index * 4, data.len());
        let w = convert_to_u32(chunk);
        proof {
            assert(chunk@ =~= chunk4(data@, index as int));
        }
        converted.push(w);
    }
    converted
}

/// Packs a byte stream into words and reports the bit width of the last
/// word that the stream filled: 32 for a whole multiple of four bytes,
/// else eight times the leftover byte count.
pub fn bytes_to_words_with_last_size(data: &[u8]) -> (r: (Vec<u32>, usize))
    ensures
        r.0@.len() == (data@.len() + 3) / 4,
        forall|i: int| 0 <= i < r.0@.len() ==> r.0@[i] == be32_of(chunk4(data@, i)),
        r.1 == if data@.len() % 4 == 0 {
            32int
        } else {
            8 * (data@.len() % 4) as int
        },
{
    let words = bytes_to_words(data);
    let last_size: usize = if data.len() % 4 == 0 {
        32
    } else {
        8 * (data.len() % 4)
    };
    (words, last_size)
}

} // verus!
