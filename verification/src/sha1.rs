//! The compression round of a 160-bit hash over 16-word blocks: an
//! 80-step expansion-and-mix loop from a fixed initial state, plus the
//! padding that closes a word stream with its bit length.

use vstd::prelude::*;

verus! {

/// `u` rotated left by `k` bits.
pub open spec fn rotl(u: u32, k: u32) -> u32
    recommends
        0 < k < 32,
{
    (u << k) | (u >> ((32 - k) as u32))
}

/// Rotates `u` left by `k` bits.
#[allow(non_snake_case)]
pub fn RotHi(u: u32, k: u8) -> (r: u32)
    requires
        0 < k < 32,
    ensures
        r == rotl(u, k as u32),
{
    (u << k) | (u >> (32 - k))
}

/// The round function of step `t`: choice, parity, or majority of the
/// three middle state words.
pub open spec fn sha1_f(t: int, b: u32, c: u32, d: u32) -> u32 {
    if t < 20 {
        (b & c) | (!b & d)
    } else if t < 40 {
        b ^ c ^ d
    } else if t < 60 {
        (b & c) | (b & d) | (c & d)
    } else {
        b ^ c ^ d
    }
}

/// The additive constant of step `t`.
pub open spec fn sha1_k(t: int) -> u64 {
    if t < 20 {
        0x5A827999
    } else if t < 40 {
        0x6ED9EBA1
    } else if t < 60 {
        0x8F1BBCDC
    } else {
        0xCA62C1D6
    }
}

/// Word `i` of the 80-word expansion of a 16-word block.
pub open spec fn expanded(block: Seq<u32>, i: int) -> u32
    recommends
        block.len() >= 16,
    decreases i,
{
    if i < 16 {
        block[i]
    } else {
        rotl(
            expanded(block, i - 3) ^ expanded(block, i - 8) ^ expanded(block, i - 14) ^ expanded(
                block,
                i - 16,
            ),
            1,
        )
    }
}

/// The five state words after `t` steps of the round loop, starting
/// from the fixed initial state. Each step rotates the first word,
/// folds it with the round function, the constant, the last word and
/// the expanded message word, truncating to 32 bits.
pub open spec fn sha1_state(block: Seq<u32>, t: int) -> (u32, u32, u32, u32, u32)
    recommends
        block.len() >= 16,
    decreases t,
{
    if t <= 0 {
        (0x67452301u32, 0xEFCDAB89u32, 0x98BADCFEu32, 0x10325476u32, 0xC3D2E1F0u32)
    } else {
        let p = sha1_state(block, t - 1);
        let ar = rotl(p.0, 5);
        let temp = ((ar as u64) + (sha1_f(t - 1, p.1, p.2, p.3) as u64) + sha1_k(t - 1) + (
        p.4 as u64) + (expanded(block, t - 1) as u64)) as u32;
        (temp, ar, rotl(p.1, 30), p.2, p.3)
    }
}

/// Runs the 80-step round loop on one 16-word block and returns the
/// five resulting state words.
pub fn main_round(data_block: &[u32]) -> (values: Vec<u32>)
    requires
        data_block@.len() >= 16,
    ensures
        values@.len() == 5,
        values@[0] == sha1_state(data_block@, 80).0,
        values@[1] == sha1_state(data_block@, 80).1,
        values@[2] == sha1_state(data_block@, 80).2,
        values@[3] == sha1_state(data_block@, 80).3,
        values@[4] == sha1_state(data_block@, 80).4,
{
    let mut values: Vec<u32> = Vec::new();
    values.push(0x67452301);
    values.push(0xEFCDAB89);
    values.push(0x98BADCFE);
    values.push(0x10325476);
    values.push(0xC3D2E1F0);

    let mut new_block: Vec<u32> = Vec::new();
    let mut i: usize = 0;
    while i < 80
        invariant
            i <= 80,
            data_block@.len() >= 16,
            new_block@.len() == i,
            forall|j: int| 0 <= j < i ==> new_block@[j] == expanded(data_block@, j),
        decreases 80 - i,
    {
        if i < 16 {
            new_block.push(data_block[i]);
        } else {
            new_block.push(
                RotHi(
                    new_block[i - 3] ^ new_block[i - 8] ^ new_block[i - 14] ^ new_block[i - 16],
                    1,
                ),
            );
        }
        i += 1;
    }

    let mut t: usize = 0;
    while t < 80
        invariant
            t <= 80,
            data_block@.len() >= 16,
            new_block@.len() == 80,
            forall|j: int| 0 <= j < 80 ==> new_block@[j] == expanded(data_block@, j),
            values@.len() == 5,
            values@[0] == sha1_state(data_block@, t as int).0,
            values@[1] == sha1_state(data_block@, t as int).1,
            values@[2] == sha1_state(data_block@, t as int).2,
            values@[3] == sha1_state(data_block@, t as int).3,
            values@[4] == sha1_state(data_block@, t as int).4,
        decreases 80 - t,
    {
        values[0] = RotHi(values[0], 5);
        let temp: u32;
        if t < 20 {
            temp = (values[0] as u64 + ((values[1] & values[2]) | (!values[1] & values[3])) as u64
                + 0x5A827999 + values[4] as u64 + new_block[t] as u64) as u32;
        } else if t < 40 {
            temp = (values[0] as u64 + (values[1] ^ values[2] ^ values[3]) as u64 + 0x6ED9EBA1
                + values[4] as u64 + new_block[t] as u64) as u32;
        } else if t < 60 {
            temp = (values[0] as u64 + ((values[1] & values[2]) | (values[1] & values[3]) | (
            values[2] & values[3])) as u64 + 0x8F1BBCDC + values[4] as u64
                + new_block[t] as u64) as u32;
        } else {
            temp = (values[0] as u64 + (values[1] ^ values[2] ^ values[3]) as u64 + 0xCA62C1D6
                + values[4] as u64 + new_block[t] as u64) as u32;
        }
        values[4] = values[3];
        values[3] = values[2];
        values[2] = RotHi(values[1], 30);
        values[1] = values[0];
        values[0] = temp;
        t += 1;
    }
    values
}

/// A run of `n` zero words.
pub open spec fn zero_words(n: int) -> Seq<u32> {
    Seq::new(n as nat, |i: int| 0u32)
}

/// The last data word with its trailing unused bit replaced by the
/// padding marker bit.
pub open spec fn marked_word(w: u32, last_size: int) -> u32 {
    (w & !(1u32 << ((32 - last_size) as u32))) | (1u32 << ((32 - last_size) as u32))
}

/// The word stream after the marker stage of padding: a marker bit in
/// the last partial word, or a fresh marker word after full data.
pub open spec fn inline_marked(data: Seq<u32>, last_size: int) -> Seq<u32> {
    if last_size != 32 && last_size != 0 {
        data.update(data.len() - 1, marked_word(data[data.len() - 1], last_size))
    } else if data.len() != 0 {
        data.push(0x80000000u32)
    } else {
        data
    }
}

/// The word count after the marker stage.
pub open spec fn inline_count(count0: int, last_size: int) -> int {
    if last_size != 32 && last_size != 0 {
        count0
    } else if count0 != 0 {
        count0 + 1
    } else {
        count0
    }
}

/// The fully padded word stream: after the marker, the stream is
/// brought to a block boundary and closed with the 64-bit bit length;
/// a trailing all-zero block carrying the length again follows.
pub open spec fn spec_inline(data: Seq<u32>, last_size: int) -> Seq<u32> {
    let count0 = data.len() as int;
    let all_len = count0 * 32 - (32 - last_size);
    let hi = ((all_len as u64) >> 32u64) as u32;
    let lo = all_len as u64 as u32;
    let d1 = inline_marked(data, last_size);
    let count = inline_count(count0, last_size);
    let d2 = if all_len < 448 {
        let d = if count * 32 < 448 {
            d1 + zero_words((448 - count * 32) / 32)
        } else {
            d1
        };
        d.push(hi).push(lo)
    } else {
        if count != 16 && count != 0 {
            d1.push(0u32)
        } else {
            d1
        }
    };
    d2 + zero_words(14) + seq![hi, lo]
}

/// Pads a word stream in place: sets the marker bit, fills to a block
/// boundary, and appends the bit length.
pub fn inline(data: &mut Vec<u32>, last_size: usize)
    requires
        last_size <= 32,
        old(data)@.len() == 0 ==> last_size == 32,
        32 * old(data)@.len() + 4096 <= usize::MAX,
    ensures
        final(data)@ == spec_inline(old(data)@, last_size as int),
{
    let ghost orig = data@;
    let data_len = data.len();
    let mut count = data_len;

    let all_len = (count * 32) - (32 - last_size);
    let len_u32 = crate::convert::convert_64_to_32(all_len as u64);

    if last_size != 32 && last_size != 0 {
        let idx = data_len - 1;
        let w = data[idx];
        data[idx] = w & !(0b1 << (32 - last_size));
        let w2 = data[idx];
        data[idx] = w2 | (0b1 << (32 - last_size));
        proof {
            assert(data@ =~= inline_marked(orig, last_size as int));
        }
    } else if count != 0 {
        data.push(2147483648);
        count += 1;
        proof {
            assert(data@ =~= inline_marked(orig, last_size as int));
        }
    } else {
        proof {
            assert(data@ =~= inline_marked(orig, last_size as int));
        }
    }

    let ghost d1 = data@;

    if all_len < 448 {
        if count * 32 < 448 {
            let zcount = (448 - count * 32) / 32;
            let mut i: usize = 0;
            while i < zcount
                invariant
                    i <= zcount,
                    data@ == d1 + zero_words(i as int),
                decreases zcount - i,
            {
                data.push(0u32);
                proof {
                    assert(d1 + zero_words(i + 1) =~= (d1 + zero_words(i as int)).push(0u32));
                }
                i += 1;
            }
        }
        data.push(len_u32[0]);
        data.push(len_u32[1]);
    } else {
        if count != 16 && count != 0 {
            data.push(0u32);
        }
    }

    let ghost d2 = data@;

    let mut i: usize = 0;
    while i < 14
        invariant
            i <= 14,
            data@ == d2 + zero_words(i as int),
        decreases 14 - i,
    {
        data.push(0u32);
        proof {
            assert(d2 + zero_words(i + 1) =~= (d2 + zero_words(i as int)).push(0u32));
        }
        i += 1;
    }
    data.push(len_u32[0]);
    data.push(len_u32[1]);

    proof {
        assert(data@ =~= spec_inline(orig, last_size as int));
    }
}

} // verus!
