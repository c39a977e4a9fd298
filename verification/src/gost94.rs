//! An older 256-bit hash construction over eight-word states: a key
//! generator built from word shuffles and round constants, four block
//! encryptions per step, and a shift-register mixing pass.

use vstd::prelude::*;

verus! {

/// The three round-constant words blocks of the key generator.
pub const C: [[u32; 8]; 3] = [
    [0u32, 0u32, 0u32, 0u32, 0u32, 0u32, 0u32, 0u32],
    [
        0xff00ffffu32,
        0x000000ffu32,
        0xff0000ffu32,
        0x00ffff00u32,
        0x00ff00ffu32,
        0x00ff00ffu32,
        0xff00ff00u32,
        0xff00ff00u32,
    ],
    [0u32, 0u32, 0u32, 0u32, 0u32, 0u32, 0u32, 0u32],
];

/// The word shuffle of the key generator: two fresh XOR words, then
/// the first six words of the state.
pub open spec fn s_ay(d: Seq<u32>) -> Seq<u32>
    recommends
        d.len() >= 8,
{
    seq![d[7] ^ d[5], d[6] ^ d[4], d[0], d[1], d[2], d[3], d[4], d[5]]
}

/// Shuffles an eight-word state for the next key round.
pub fn a_y(data: &[u32]) -> (r: Vec<u32>)
    requires
        data@.len() >= 8,
    ensures
        r@ == s_ay(data@),
{
    let mut r: Vec<u32> = Vec::new();
    r.push(data[7] ^ data[5]);
    r.push(data[6] ^ data[4]);
    r.push(data[0]);
    r.push(data[1]);
    r.push(data[2]);
    r.push(data[3]);
    r.push(data[4]);
    r.push(data[5]);
    proof {
        assert(r@ =~= s_ay(data@));
    }
    r
}

/// The first eight words of a state.
pub open spec fn first8(d: Seq<u32>) -> Seq<u32> {
    Seq::new(8, |i: int| d[i])
}

proof fn lemma_u32_byte_roundtrip(w: u32)
    by (bit_vector)
    ensures
        ((((w >> 24) & 0xff) as u8 as u32) << 24) | ((((w >> 16) & 0xff) as u8 as u32) << 16) | ((((
        w >> 8) & 0xff) as u8 as u32) << 8) | ((((w >> 0) & 0xff) as u8) as u32) == w,
{
}

/// The byte permutation of the key generator; its index arithmetic
/// maps every byte to its own position, so the first eight words pass
/// through unchanged.
pub fn p_y(data: &[u32]) -> (r: Vec<u32>)
    requires
        data@.len() >= 8,
    ensures
        r@ == first8(data@),
{
    let mut new_data: Vec<u8> = Vec::new();
    let mut i: usize = 0;
    while i < 32
        invariant
            i <= 32,
            new_data@.len() == i,
        decreases 32 - i,
    {
        new_data.push(0);
        i += 1;
    }
    let data_u8 = crate::convert::transform_u32_to_array_of_u8(data);

    let mut temp: usize = 1;
    while temp <= 32
        invariant
            1 <= temp <= 33,
            new_data@.len() == 32,
            data@.len() >= 8,
            data_u8@.len() == 4 * data@.len(),
            forall|j: int| 0 <= j < data_u8@.len() ==> data_u8@[j] == crate::convert::u32_byte(
                data@[j / 4],
                j % 4,
            ),
            forall|j: int| 0 <= j < temp - 1 ==> new_data@[j] == data_u8@[j],
        decreases 33 - temp,
    {
        let k = temp % 8;
        new_data[temp - 1] = data_u8[(temp - k) + k - 1];
        temp += 1;
    }
    let mut data_return: Vec<u32> = Vec::new();
    let mut w: usize = 0;
    while w < 8
        invariant
            w <= 8,
            data@.len() >= 8,
            new_data@.len() == 32,
            forall|j: int| 0 <= j < 32 ==> new_data@[j] == crate::convert::u32_byte(
                data@[j / 4],
                j % 4,
            ),
            data_return@.len() == w,
            forall|j: int| 0 <= j < w ==> data_return@[j] == data@[j],
        decreases 8 - w,
    {
        let b0 = new_data[w * 4];
        let b1 = new_data[w * 4 + 1];
        let b2 = new_data[w * 4 + 2];
        let b3 = new_data[w * 4 + 3];
        let v = ((b0 as u32) << 24) | ((b1 as u32) << 16) | ((b2 as u32) << 8) | (b3 as u32);
        proof {
            lemma_u32_byte_roundtrip(data@[w as int]);
        }
        data_return.push(v);
        w += 1;
    }
    proof {
        assert(data_return@ =~= first8(data@));
    }
    data_return
}

/// Word-wise XOR of the first eight words of two states.
pub open spec fn s_xor8(h: Seq<u32>, m: Seq<u32>) -> Seq<u32>
    recommends
        h.len() >= 8,
        m.len() >= 8,
{
    Seq::new(8, |i: int| h[i] ^ m[i])
}

/// XORs the first eight words of two states.
pub fn xor_u32(h_in: &[u32], m: &[u32]) -> (r: Vec<u32>)
    requires
        h_in@.len() >= 8,
        m@.len() >= 8,
    ensures
        r@ == s_xor8(h_in@, m@),
{
    let mut return_value: Vec<u32> = Vec::new();
    let mut i: usize = 0;
    while i < 8
        invariant
            i <= 8,
            h_in@.len() >= 8,
            m@.len() >= 8,
            return_value@.len() == i,
            forall|j: int| 0 <= j < i ==> return_value@[j] == (h_in@[j] ^ m@[j]),
        decreases 8 - i,
    {
        return_value.push(h_in[i] ^ m[i]);
        i += 1;
    }
    proof {
        assert(return_value@ =~= s_xor8(h_in@, m@));
    }
    return_value
}

/// XORs the first sixteen halves of `m` into `h_in` in place.
pub fn xor_u16(h_in: &mut Vec<u16>, m: &[u16])
    requires
        old(h_in)@.len() >= 16,
        m@.len() >= 16,
    ensures
        final(h_in)@.len() == old(h_in)@.len(),
        forall|j: int| 0 <= j < 16 ==> final(h_in)@[j] == (old(h_in)@[j] ^ m@[j]),
        forall|j: int| 16 <= j < old(h_in)@.len() ==> final(h_in)@[j] == old(h_in)@[j],
{
    let mut i: usize = 0;
    while i < 16
        invariant
            i <= 16,
            h_in@.len() == old(h_in)@.len() >= 16,
            m@.len() >= 16,
            forall|j: int| 0 <= j < i ==> h_in@[j] == (old(h_in)@[j] ^ m@[j]),
            forall|j: int| i <= j < h_in@.len() ==> h_in@[j] == old(h_in)@[j],
        decreases 16 - i,
    {
        let v = h_in[i] ^ m[i];
        h_in[i] = v;
        i += 1;
    }
}

/// One pass of the shift register: a feedback half from six taps, and
/// every later position flooded with the old first half.
pub open spec fn spec_psi(d: Seq<u16>) -> Seq<u16>
    recommends
        d.len() == 16,
{
    let temp = d[15] ^ d[14] ^ d[13] ^ d[12] ^ d[3] ^ d[0];
    Seq::new(16, |i: int| if i == 0 { temp } else { d[0] })
}

/// Advances the sixteen-half state by one shift-register pass.
pub fn psi(data: &mut Vec<u16>)
    requires
        old(data)@.len() == 16,
    ensures
        final(data)@ == spec_psi(old(data)@),
{
    let temp = data[15] ^ data[14] ^ data[13] ^ data[12] ^ data[3] ^ data[0];
    let mut i: usize = 1;
    while i <= 15
        invariant
            1 <= i <= 16,
            data@.len() == 16,
            forall|j: int| 1 <= j < i ==> data@[j] == old(data)@[0],
            data@[0] == old(data)@[0],
            forall|j: int| i <= j < 16 ==> data@[j] == old(data)@[j],
        decreases 16 - i,
    {
        let v = data[i - 1];
        data[i] = v;
        i += 1;
    }
    data[0] = temp;
    proof {
        assert(data@ =~= spec_psi(old(data)@));
    }
}

/// Row `i` of the round-constant table, as a word sequence.
pub open spec fn c_words(i: int) -> Seq<u32> {
    Seq::new(8, |j: int| C[i][j])
}

/// Row `i` of the round-constant table.
pub fn c_row(i: usize) -> (r: Vec<u32>)
    requires
        i < 3,
    ensures
        r@ == c_words(i as int),
{
    let mut r: Vec<u32> = Vec::new();
    let mut j: usize = 0;
    while j < 8
        invariant
            j <= 8,
            i < 3,
            r@.len() == j,
            forall|t: int| 0 <= t < j ==> r@[t] == C[i as int][t],
        decreases 8 - j,
    {
        r.push(C[i][j]);
        j += 1;
    }
    proof {
        assert(r@ =~= c_words(i as int));
    }
    r
}

/// The `i`-th key-generator state derived from the chaining state.
pub open spec fn g_u(h: Seq<u32>, i: int) -> Seq<u32>
    decreases i,
{
    if i <= 0 {
        first8(h)
    } else {
        s_xor8(s_ay(g_u(h, i - 1)), c_words(i - 1))
    }
}

/// The `i`-th key-generator state derived from the message block.
pub open spec fn g_v(m: Seq<u32>, i: int) -> Seq<u32>
    decreases i,
{
    if i <= 0 {
        first8(m)
    } else {
        s_ay(s_ay(g_v(m, i - 1)))
    }
}

/// The four round keys: at each stage the two generator states are
/// XORed together.
pub open spec fn spec_gen_keys(h: Seq<u32>, m: Seq<u32>) -> Seq<Seq<u32>> {
    seq![
        s_xor8(g_u(h, 0), g_v(m, 0)),
        s_xor8(g_u(h, 1), g_v(m, 1)),
        s_xor8(g_u(h, 2), g_v(m, 2)),
        s_xor8(g_u(h, 3), g_v(m, 3)),
    ]
}

/// The views of a list of word vectors.
pub open spec fn key_views(ks: Seq<Vec<u32>>) -> Seq<Seq<u32>> {
    ks.map_values(|k: Vec<u32>| k@)
}

/// Derives the four block-cipher keys from the chaining state and the
/// message block.
pub fn generate_keys(h_in: &[u32], m: &[u32]) -> (keys: Vec<Vec<u32>>)
    requires
        h_in@.len() >= 8,
        m@.len() >= 8,
    ensures
        key_views(keys@) == spec_gen_keys(h_in@, m@),
{
    let mut keys: Vec<Vec<u32>> = Vec::new();
    let mut u: Vec<u32> = vstd::slice::slice_to_vec(h_in);
    let mut v: Vec<u32> = vstd::slice::slice_to_vec(m);
    let k0 = p_y(&xor_u32(&u, &v));
    proof {
        assert(k0@ =~= s_xor8(g_u(h_in@, 0), g_v(m@, 0)));
    }
    keys.push(k0);
    let mut i: usize = 1;
    while i <= 3
        invariant
            1 <= i <= 4,
            h_in@.len() >= 8,
            m@.len() >= 8,
            keys@.len() == i,
            u@ == (if i == 1 {
                h_in@
            } else {
                g_u(h_in@, i - 1)
            }),
            v@ == (if i == 1 {
                m@
            } else {
                g_v(m@, i - 1)
            }),
            forall|j: int| 0 <= j < i ==> #[trigger] keys@[j]@ == s_xor8(g_u(h_in@, j), g_v(m@, j)),
        decreases 4 - i,
    {
        let ghost uprev = u@;
        let ghost vprev = v@;
        let au = a_y(&u);
        let cr = c_row(i - 1);
        let u2 = xor_u32(&au, &cr);
        proof {
            if i == 1 {
                assert(s_ay(h_in@) =~= s_ay(first8(h_in@)));
                assert(s_ay(m@) =~= s_ay(first8(m@)));
            }
            assert(s_ay(uprev) == s_ay(g_u(h_in@, i - 1)));
            assert(u2@ == g_u(h_in@, i as int));
        }
        u = u2;
        let av = a_y(&v);
        let v2 = a_y(&av);
        proof {
            if i == 1 {
                assert(s_ay(vprev) =~= s_ay(first8(m@)));
                assert(s_ay(vprev) == s_ay(g_v(m@, 0)));
            }
            assert(g_v(m@, i as int) == s_ay(s_ay(g_v(m@, i - 1))));
            assert(v2@ == g_v(m@, i as int));
        }
        v = v2;
        let k = p_y(&xor_u32(&u, &v));
        proof {
            assert(k@ =~= s_xor8(g_u(h_in@, i as int), g_v(m@, i as int)));
        }
        keys.push(k);
        i += 1;
    }
    proof {
        assert(key_views(keys@) =~~= spec_gen_keys(h_in@, m@));
    }
    keys
}

/// The big-endian 16-bit halves of a word sequence.
pub open spec fn halves_of(s: Seq<u32>) -> Seq<u16> {
    Seq::new(2 * s.len(), |i: int| crate::convert::u32_half(s[i / 2], i % 2))
}

/// Eight words rejoined from sixteen big-endian halves.
pub open spec fn words_of_halves(d: Seq<u16>) -> Seq<u32> {
    Seq::new(8, |i: int| ((d[2 * i] as u32) << 16u32) | (d[2 * i + 1] as u32))
}

/// `n` passes of the shift register.
pub open spec fn psi_iter(d: Seq<u16>, n: int) -> Seq<u16>
    decreases n,
{
    if n <= 0 {
        d
    } else {
        spec_psi(psi_iter(d, n - 1))
    }
}

/// XOR of the first sixteen halves of two sequences.
pub open spec fn x16(a: Seq<u16>, b: Seq<u16>) -> Seq<u16> {
    Seq::new(16, |i: int| a[i] ^ b[i])
}

/// The eight cipher output words: the four pairs of the chaining
/// state, each encrypted under its round key.
pub open spec fn spec_s_words(h: Seq<u32>, keys: Seq<Seq<u32>>) -> Seq<u32> {
    let e0 = crate::magma::spec_encrypt_block(h[0], h[1], keys[0]);
    let e1 = crate::magma::spec_encrypt_block(h[2], h[3], keys[1]);
    let e2 = crate::magma::spec_encrypt_block(h[4], h[5], keys[2]);
    let e3 = crate::magma::spec_encrypt_block(h[6], h[7], keys[3]);
    seq![e0.0, e0.1, e1.0, e1.1, e2.0, e2.1, e3.0, e3.1]
}

/// One compression step: encrypt the state pairwise, then mix with the
/// shift register, folding in the message block and the old state.
pub open spec fn spec_hash_f(h: Seq<u32>, m: Seq<u32>, keys: Seq<Seq<u32>>) -> Seq<u32> {
    let d0 = halves_of(spec_s_words(h, keys));
    let d1 = psi_iter(d0, 12);
    let d2 = x16(d1, halves_of(m));
    let d3 = x16(d2, halves_of(h));
    let d4 = psi_iter(d3, 61);
    words_of_halves(d4)
}

/// Advances the chaining state by one message block under the four
/// round keys.
pub fn hash_f(h_in: Vec<u32>, m: Vec<u32>, keys: Vec<Vec<u32>>) -> (r: Vec<u32>)
    requires
        h_in@.len() >= 8,
        m@.len() >= 8,
        keys@.len() >= 4,
        forall|j: int| 0 <= j < 4 ==> #[trigger] keys@[j]@.len() >= 8,
    ensures
        r@ == spec_hash_f(h_in@, m@, key_views(keys@)),
{
    let save_h = crate::convert::transform_u32_to_array_of_u16(h_in.as_slice());
    let mut s: Vec<u32> = Vec::new();
    let mut z: usize = 0;
    while z < 8
        invariant
            z <= 8,
            s@.len() == z,
        decreases 8 - z,
    {
        s.push(0);
        z += 1;
    }
    let r0 = crate::magma::encrypt_block(h_in[0], h_in[1], keys[0].as_slice());
    s[0] = r0.0;
    s[1] = r0.1;
    let r1 = crate::magma::encrypt_block(h_in[2], h_in[3], keys[1].as_slice());
    s[2] = r1.0;
    s[3] = r1.1;
    let r2 = crate::magma::encrypt_block(h_in[4], h_in[5], keys[2].as_slice());
    s[4] = r2.0;
    s[5] = r2.1;
    let r3 = crate::magma::encrypt_block(h_in[6], h_in[7], keys[3].as_slice());
    s[6] = r3.0;
    s[7] = r3.1;
    proof {
        assert(s@ =~= spec_s_words(h_in@, key_views(keys@)));
    }

    let mut data_u16 = crate::convert::transform_u32_to_array_of_u16(s.as_slice());
    let m_u16 = crate::convert::transform_u32_to_array_of_u16(m.as_slice());
    proof {
        assert(data_u16@ =~= halves_of(s@));
        assert(m_u16@ =~= halves_of(m@));
        assert(save_h@ =~= halves_of(h_in@));
    }

    let ghost d0 = data_u16@;
    let mut i: usize = 0;
    while i < 12
        invariant
            i <= 12,
            data_u16@.len() == 16,
            data_u16@ == psi_iter(d0, i as int),
        decreases 12 - i,
    {
        psi(&mut data_u16);
        i += 1;
    }
    xor_u16(&mut data_u16, m_u16.as_slice());
    proof {
        assert(data_u16@ =~= x16(psi_iter(d0, 12), halves_of(m@)));
    }
    xor_u16(&mut data_u16, save_h.as_slice());
    proof {
        assert(data_u16@ =~= x16(
            x16(psi_iter(d0, 12), halves_of(m@)),
            halves_of(h_in@),
        ));
    }
    let ghost d3 = data_u16@;
    let mut i2: usize = 0;
    while i2 < 61
        invariant
            i2 <= 61,
            data_u16@.len() == 16,
            data_u16@ == psi_iter(d3, i2 as int),
        decreases 61 - i2,
    {
        psi(&mut data_u16);
        i2 += 1;
    }

    let r = crate::convert::convert_u16_to_u32(data_u16);
    proof {
        assert(r@ =~= words_of_halves(psi_iter(d3, 61)));
    }
    r
}

/// The running XOR checksum of the eight-word blocks of a stream.
pub open spec fn spec_control(d: Seq<u32>, n: int) -> Seq<u32>
    decreases n,
{
    if n <= 0 {
        Seq::new(8, |i: int| 0u32)
    } else {
        s_xor8(spec_control(d, n - 1), d.subrange(8 * (n - 1), 8 * n))
    }
}

/// XORs together the eight-word blocks of the stream.
pub fn control_sum(data: Vec<u32>) -> (r: Vec<u32>)
    ensures
        r@ == spec_control(data@, data@.len() as int / 8),
{
    let mut return_value: Vec<u32> = Vec::new();
    let mut z: usize = 0;
    while z < 8
        invariant
            z <= 8,
            return_value@.len() == z,
            forall|j: int| 0 <= j < z ==> return_value@[j] == 0,
        decreases 8 - z,
    {
        return_value.push(0);
        z += 1;
    }
    proof {
        assert(return_value@ =~= spec_control(data@, 0));
    }
    let blocks = data.len() / 8;
    let mut i: usize = 0;
    while i < blocks
        invariant
            i <= blocks,
            blocks == data@.len() / 8,
            data@.len() <= usize::MAX,
            return_value@.len() == 8,
            return_value@ == spec_control(data@, i as int),
        decreases blocks - i,
    {
        proof {
            vstd::arithmetic::div_mod::lemma_fundamental_div_mod(data@.len() as int, 8);
            vstd::arithmetic::div_mod::lemma_mod_bound(data@.len() as int, 8);
            assert(8 * (blocks as int) <= data@.len());
            assert(8 * (i as int) + 8 <= data@.len());
        }
        let mut m: Vec<u32> = Vec::new();
        let mut j: usize = 0;
        while j < 8
            invariant
                j <= 8,
                i < blocks,
                blocks == data@.len() / 8,
                8 * blocks <= data@.len(),
                8 * i + 8 <= data@.len(),
                data@.len() <= usize::MAX,
                m@.len() == j,
                forall|t: int| 0 <= t < j ==> m@[t] == data@[8 * i + t],
            decreases 8 - j,
        {
            m.push(data[8 * i + j]);
            j += 1;
        }
        let rv = xor_u32(return_value.as_slice(), m.as_slice());
        proof {
            assert(m@ =~= data@.subrange(8 * (i as int), 8 * (i + 1) as int));
            assert(rv@ == spec_control(data@, i + 1));
        }
        return_value = rv;
        i += 1;
    }
    return_value
}

/// Pads a word stream with zeros up to the next eight-word boundary.
pub fn inline(data: &mut Vec<u32>, count: usize)
    requires
        count <= 8,
    ensures
        final(data)@ == old(data)@ + Seq::new(
            if count == 0 {
                0nat
            } else {
                (8 - count) as nat
            },
            |i: int| 0u32,
        ),
{
    if count == 0 {
        proof {
            assert(data@ =~= old(data)@ + Seq::new(0nat, |i: int| 0u32));
        }
    } else {
        let mut i: usize = 0;
        while i < 8 - count
            invariant
                i <= 8 - count,
                count <= 8,
                data@ == old(data)@ + Seq::new(i as nat, |t: int| 0u32),
            decreases 8 - count - i,
        {
            data.push(0);
            proof {
                assert(data@ =~= old(data)@ + Seq::new((i + 1) as nat, |t: int| 0u32));
            }
            i += 1;
        }
    }
}

proof fn lemma_keys_shape(keys: Seq<Vec<u32>>, h: Seq<u32>, m: Seq<u32>)
    requires
        key_views(keys) == spec_gen_keys(h, m),
    ensures
        keys.len() == 4,
        forall|t: int| 0 <= t < 4 ==> #[trigger] keys[t]@.len() >= 8,
{
    assert(key_views(keys).len() == keys.len());
    assert(spec_gen_keys(h, m).len() == 4);
    assert forall|t: int| 0 <= t < 4 implies #[trigger] keys[t]@.len() >= 8 by {
        assert(key_views(keys)[t] == keys[t]@);
        assert(spec_gen_keys(h, m)[t].len() == 8);
    }
}

/// The chaining state after the first `n` eight-word blocks of the
/// stream, each compressed under keys derived from the state and the
/// block.
pub open spec fn sdrive(d: Seq<u32>, n: int) -> Seq<u32>
    decreases n,
{
    if n <= 0 {
        Seq::new(8, |i: int| 0u32)
    } else {
        let h = sdrive(d, n - 1);
        let m = d.subrange(8 * (n - 1), 8 * n);
        spec_hash_f(h, m, spec_gen_keys(h, m))
    }
}

/// The bit length of the stream spread over eight words.
pub open spec fn len_words(x: u64) -> Seq<u32> {
    Seq::new(
        8,
        |i: int|
            if i == 0 {
                ((x >> 32u64) & 0xffffffffu64) as u32
            } else if i == 1 {
                (x & 0xffffffff) as u32
            } else {
                0u32
            },
    )
}

/// The digest of a whole word stream: every block is compressed in
/// order, a block holding the bit length follows, and the XOR checksum
/// of the zero-padded stream is folded into the result.
pub open spec fn spec_hash_stream(d: Seq<u32>, last_size: int) -> Seq<u32> {
    let data_len = d.len() * 32 - (32 - last_size);
    let padded = d + Seq::new(
        if d.len() % 8 == 0 {
            0nat
        } else {
            (8 - d.len() % 8) as nat
        },
        |i: int| 0u32,
    );
    let h1 = sdrive(d, d.len() as int / 8);
    let lw = len_words(data_len as u64);
    let h2 = spec_hash_f(h1, lw, spec_gen_keys(h1, lw));
    s_xor8(h2, spec_control(padded, padded.len() as int / 8))
}

/// Hashes a word stream of which the last word carries `last_size`
/// significant bits.
#[verifier::rlimit(80)]
pub fn hash_stream(data: Vec<u32>, last_size: usize) -> (r: Vec<u32>)
    requires
        last_size <= 32,
        data@.len() == 0 ==> last_size == 32,
        32 * data@.len() + 32 <= usize::MAX,
    ensures
        r@ == spec_hash_stream(data@, last_size as int),
{
    let ghost orig = data@;
    let mut data = data;
    let data_len = data.len() * 32 - (32 - last_size);
    let temp_len = data.len();
    inline(&mut data, temp_len % 8);
    proof {
        if temp_len % 8 == 0 {
            assert(data@ =~= orig);
        }
    }

    let mut h: Vec<u32> = Vec::new();
    let mut z: usize = 0;
    while z < 8
        invariant
            z <= 8,
            h@.len() == z,
            forall|j: int| 0 <= j < z ==> h@[j] == 0,
        decreases 8 - z,
    {
        h.push(0);
        z += 1;
    }
    proof {
        assert(h@ =~= sdrive(orig, 0));
    }

    let blocks = temp_len / 8;
    let mut i: usize = 0;
    while i < blocks
        invariant
            i <= blocks,
            blocks == temp_len / 8,
            temp_len == orig.len(),
            temp_len <= data@.len() <= usize::MAX,
            orig =~= data@.subrange(0, temp_len as int),
            h@.len() == 8,
            h@ == sdrive(orig, i as int),
        decreases blocks - i,
    {
        proof {
            vstd::arithmetic::div_mod::lemma_fundamental_div_mod(temp_len as int, 8);
            vstd::arithmetic::div_mod::lemma_mod_bound(temp_len as int, 8);
            assert(8 * (i as int) + 8 <= temp_len);
        }
        let mut m: Vec<u32> = Vec::new();
        let mut j: usize = 0;
        while j < 8
            invariant
                j <= 8,
                i < blocks,
                blocks == temp_len / 8,
                8 * i + 8 <= temp_len <= data@.len(),
                data@.len() <= usize::MAX,
                m@.len() == j,
                forall|t: int| 0 <= t < j ==> m@[t] == data@[8 * i + t],
            decreases 8 - j,
        {
            m.push(data[8 * i + j]);
            j += 1;
        }
        let keys = generate_keys(h.as_slice(), m.as_slice());
        proof {
            assert(m@ =~= orig.subrange(8 * (i as int), 8 * (i + 1) as int));
            lemma_keys_shape(keys@, h@, m@);
        }
        let h2 = hash_f(h, m, keys);
        h = h2;
        i += 1;
    }

    let l = crate::convert::transform_u64_to_array_of_u32(data_len as u64);
    proof {
        assert(l@ =~= len_words(data_len as u64));
    }
    let keys = generate_keys(h.as_slice(), l.as_slice());
    proof {
        lemma_keys_shape(keys@, h@, l@);
    }
    let ghost h1 = h@;
    let h2 = hash_f(h, l, keys);

    let ghost padded = data@;
    let cs = control_sum(data);
    let r = xor_u32(h2.as_slice(), cs.as_slice());
    proof {
        assert(padded =~= orig + Seq::new(
            if orig.len() % 8 == 0 {
                0nat
            } else {
                (8 - orig.len() % 8) as nat
            },
            |t: int| 0u32,
        ));
        assert(r@ == spec_hash_stream(orig, last_size as int));
    }
    r
}

} // verus!
