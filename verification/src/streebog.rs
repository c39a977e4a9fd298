//! A 512-bit Merkle–Damgård-style hash built around a 12-round
//! substitution-permutation-linear block cipher, with a running block
//! counter and modulo-2^512 checksum folded in by two finishing
//! compressions.
//!
//! Blocks are 64 bytes wide and are read as big-endian 512-bit integers:
//! index 0 is the most significant byte. The message is consumed from its
//! tail toward its head, one 64-byte block per compression.

use vstd::prelude::*;

use vstd::arithmetic::div_mod::{
    lemma_basic_div, lemma_fundamental_div_mod, lemma_fundamental_div_mod_converse,
    lemma_mod_breakdown, lemma_small_mod,
};
use vstd::arithmetic::power2::{lemma2_to64, lemma_pow2_adds, pow2};
use vstd::slice::slice_subrange;

use crate::tables::{A, C, PI, TAU};

verus! {

/// The fixed 64-byte unit of state and processing.
pub type Block = [u8; 64];

/// Byte-wise XOR of two blocks.
pub open spec fn sxor(k: Seq<u8>, a: Seq<u8>) -> Seq<u8> {
    Seq::new(64, |i: int| k[i] ^ a[i])
}

/// Byte-wise application of the substitution table.
pub open spec fn sub_bytes(a: Seq<u8>) -> Seq<u8> {
    Seq::new(64, |i: int| PI[a[i] as int])
}

/// Reordering of the 64 bytes by the fixed position permutation.
pub open spec fn perm_bytes(a: Seq<u8>) -> Seq<u8> {
    Seq::new(64, |i: int| a[TAU[i] as int])
}

/// Bit `j` (most significant first, `0 <= j < 64`) of the 8-byte segment
/// `s` of block `a`.
pub open spec fn seg_bit(a: Seq<u8>, s: int, j: int) -> bool {
    ((a[8 * s + j / 8] as u32) >> ((7 - (j % 8)) as u32)) & 1 == 1
}

/// XOR of the basis rows selected by the first `j` bits of segment `s`.
pub open spec fn lin_acc(a: Seq<u8>, s: int, j: int) -> u64
    decreases j,
{
    if j <= 0 {
        0u64
    } else {
        if seg_bit(a, s, j - 1) {
            lin_acc(a, s, j - 1) ^ A[j - 1]
        } else {
            lin_acc(a, s, j - 1)
        }
    }
}

/// The linear-diffusion layer: each 8-byte segment is replaced by the
/// GF(2) matrix-vector product of itself with the basis rows, serialized
/// big-endian.
pub open spec fn lin_bytes(a: Seq<u8>) -> Seq<u8> {
    Seq::new(64, |i: int| ((lin_acc(a, i / 8, 64) >> ((56 - 8 * (i % 8)) as u64)) & 0xff) as u8)
}

/// The full substitution-permutation-linear transform of one block.
pub open spec fn slps(a: Seq<u8>) -> Seq<u8> {
    lin_bytes(perm_bytes(sub_bytes(a)))
}

/// XORs two blocks byte by byte.
pub fn xor(k: Block, a: Block) -> (r: Block)
    ensures
        r@ == sxor(k@, a@),
{
    let mut output: Block = [0u8; 64];
    let mut i: usize = 0;
    while i < 64
        invariant
            i <= 64,
            forall|j: int| 0 <= j < i ==> output[j] == (k@[j] ^ a@[j]),
        decreases 64 - i,
    {
        output[i] = k[i] ^ a[i];
        i += 1;
    }
    assert(output@ =~= sxor(k@, a@));
    output
}

/// Replaces each byte of the block through the fixed substitution table.
pub fn bijective(a: Block) -> (r: Block)
    ensures
        r@ == sub_bytes(a@),
{
    let mut output: Block = [0u8; 64];
    let mut i: usize = 0;
    while i < 64
        invariant
            i <= 64,
            forall|j: int| 0 <= j < i ==> output[j] == PI[a@[j] as int],
        decreases 64 - i,
    {
        output[i] = PI[a[i] as usize];
        i += 1;
    }
    assert(output@ =~= sub_bytes(a@));
    output
}

/// Reorders the bytes of the block by the fixed position permutation.
pub fn permutation(a: Block) -> (r: Block)
    ensures
        r@ == perm_bytes(a@),
{
    let mut output: Block = [0u8; 64];
    let mut i: usize = 0;
    while i < 64
        invariant
            i <= 64,
            forall|j: int| 0 <= j < i ==> output[j] == a@[TAU[j] as int],
        decreases 64 - i,
    {
        let t: u8 = TAU[i];
        assert(TAU[i as int] < 64);
        output[i] = a[t as usize];
        i += 1;
    }
    assert(output@ =~= perm_bytes(a@));
    output
}

/// Applies the linear-diffusion layer to each 8-byte segment of the block.
pub fn linear(a: Block) -> (r: Block)
    ensures
        r@ == lin_bytes(a@),
{
    let mut output: Block = [0u8; 64];
    let mut i: usize = 0;
    while i < 8
        invariant
            i <= 8,
            forall|m: int| 0 <= m < 8 * i ==> output[m] == ((lin_acc(a@, m / 8, 64) >> ((56 - 8
                * (m % 8)) as u64)) & 0xff) as u8,
        decreases 8 - i,
    {
        let mut t: u64 = 0;
        let mut j: usize = 0;
        while j < 64
            invariant
                j <= 64,
                i < 8,
                t == lin_acc(a@, i as int, j as int),
            decreases 64 - j,
        {
            let byte: u8 = a[i * 8 + j / 8];
            let sh: u32 = 7 - (j % 8) as u32;
            if ((byte as u32) >> sh) & 1 == 1 {
                t = t ^ A[j];
            }
            j += 1;
        }
        let mut k: usize = 0;
        while k < 8
            invariant
                k <= 8,
                i < 8,
                t == lin_acc(a@, i as int, 64),
                forall|m: int| 0 <= m < 8 * i + k ==> output[m] == ((lin_acc(a@, m / 8, 64) >> ((
                56 - 8 * (m % 8)) as u64)) & 0xff) as u8,
            decreases 8 - k,
        {
            output[i * 8 + k] = ((t >> ((56 - 8 * k) as u64)) & 0xff) as u8;
            k += 1;
        }
        i += 1;
    }
    assert(output@ =~= lin_bytes(a@));
    output
}

/// Substitution, then permutation, then linear diffusion: one application
/// of the cipher's fixed nonlinear-plus-linear layer.
pub fn linear_permutation_bijective(a: Block) -> (r: Block)
    ensures
        r@ == slps(a@),
{
    linear(permutation(bijective(a)))
}

/// Row `i` of the round-constant table, as a byte sequence.
pub open spec fn c_row(i: int) -> Seq<u8> {
    Seq::new(64, |j: int| C[i][j])
}

/// One key-schedule step: the running key is whitened by round constant
/// `i` and passed through the SPL transform.
pub open spec fn skey(k: Seq<u8>, i: int) -> Seq<u8> {
    slps(sxor(k, c_row(i)))
}

/// Derives the next round key from `k` and round constant `i`.
pub fn key_schedule(k: Block, i: usize) -> (r: Block)
    requires
        i < 12,
    ensures
        r@ == skey(k@, i as int),
{
    let c: Block = C[i];
    assert(c@ =~= c_row(i as int));
    linear_permutation_bijective(xor(k, c))
}

/// Key and cipher state after `n` rounds of the cipher, starting from
/// running key `k` and whitened state `s`.
pub open spec fn e_rounds(k: Seq<u8>, s: Seq<u8>, n: int) -> (Seq<u8>, Seq<u8>)
    decreases n,
{
    if n <= 0 {
        (k, s)
    } else {
        let prev = e_rounds(k, s, n - 1);
        let s1 = slps(prev.1);
        let k1 = skey(prev.0, n - 1);
        (k1, sxor(k1, s1))
    }
}

/// The 12-round block cipher: encryption of `m` under key `k`.
#[verifier::opaque]
pub open spec fn se(k: Seq<u8>, m: Seq<u8>) -> Seq<u8> {
    e_rounds(k, sxor(k, m), 12).1
}

/// Encrypts one block under one key with the 12-round
/// substitution-permutation cipher, deriving each round key in lock-step.
pub fn e_transformation(k: Block, m: Block) -> (r: Block)
    ensures
        r@ == se(k@, m@),
{
    let mut s: Block = xor(k, m);
    let mut kk: Block = k;
    let mut i: usize = 0;
    while i < 12
        invariant
            i <= 12,
            kk@ == e_rounds(k@, sxor(k@, m@), i as int).0,
            s@ == e_rounds(k@, sxor(k@, m@), i as int).1,
        decreases 12 - i,
    {
        s = linear_permutation_bijective(s);
        kk = key_schedule(kk, i);
        s = xor(kk, s);
        i += 1;
    }
    proof {
        reveal(se);
    }
    s
}

/// The compression function: the chaining state whitened by the counter
/// keys the cipher, and the cipher output is folded back with both the
/// state and the message block.
pub open spec fn scompress(n: Seq<u8>, h: Seq<u8>, m: Seq<u8>) -> Seq<u8> {
    sxor(sxor(se(slps(sxor(h, n)), m), h), m)
}

/// Advances the chaining state `h` by one message block `m` under block
/// counter `n`.
pub fn compression(n: Block, h: Block, m: Block) -> (r: Block)
    ensures
        r@ == scompress(n@, h@, m@),
{
    let k = xor(h, n);
    let k = linear_permutation_bijective(k);
    let t = e_transformation(k, m);
    let t = xor(t, h);
    xor(t, m)
}

/// 256 raised to the power `l`: the number of byte sequences of length `l`.
pub open spec fn p256(l: nat) -> nat
    decreases l,
{
    if l == 0 {
        1
    } else {
        256 * p256((l - 1) as nat)
    }
}

/// The big-endian integer value of a byte sequence: index 0 is the most
/// significant byte.
pub open spec fn be_val(s: Seq<u8>) -> nat
    decreases s.len(),
{
    if s.len() == 0 {
        0
    } else {
        (be_val(s.drop_last()) * 256 + s.last()) as nat
    }
}

/// The `l`-byte big-endian encoding of `n` (truncated to `l` bytes).
pub open spec fn nat_to_be(n: nat, l: nat) -> Seq<u8>
    decreases l,
{
    if l == 0 {
        Seq::empty()
    } else {
        nat_to_be(n / 256, (l - 1) as nat).push((n % 256) as u8)
    }
}

/// Modulo-2^512 sum of two blocks, as a block.
pub open spec fn sadd(l: Seq<u8>, r: Seq<u8>) -> Seq<u8> {
    nat_to_be((((be_val(l) + be_val(r)) as int) % (p256(64) as int)) as nat, 64)
}

pub proof fn lemma_nat_to_be_len(n: nat, l: nat)
    ensures
        nat_to_be(n, l).len() == l,
    decreases l,
{
    if l > 0 {
        lemma_nat_to_be_len(n / 256, (l - 1) as nat);
    }
}

pub proof fn lemma_be_val_bound(s: Seq<u8>)
    ensures
        be_val(s) < p256(s.len()),
    decreases s.len(),
{
    if s.len() > 0 {
        lemma_be_val_bound(s.drop_last());
        assert(be_val(s.drop_last()) * 256 <= (p256((s.len() - 1) as nat) - 1) * 256)
            by (nonlinear_arith)
            requires
                be_val(s.drop_last()) <= p256((s.len() - 1) as nat) - 1,
        ;
    }
}

/// Encoding the value of a byte sequence at its own length gives the
/// sequence back.
pub proof fn lemma_be_val_round_trip(s: Seq<u8>)
    ensures
        nat_to_be(be_val(s), s.len()) == s,
    decreases s.len(),
{
    if s.len() > 0 {
        let dl = s.drop_last();
        lemma_be_val_round_trip(dl);
        lemma_fundamental_div_mod_converse(
            be_val(s) as int,
            256,
            be_val(dl) as int,
            s.last() as int,
        );
        assert(nat_to_be(be_val(s), s.len()) =~= s);
    }
}

/// Peeling the most significant byte off a nonempty sequence.
pub proof fn lemma_be_val_first(s: Seq<u8>)
    requires
        s.len() >= 1,
    ensures
        be_val(s) == s[0] * p256((s.len() - 1) as nat) + be_val(s.drop_first()),
    decreases s.len(),
{
    if s.len() == 1 {
        assert(s.drop_last().len() == 0);
        assert(s.drop_first().len() == 0);
        assert(be_val(s.drop_last()) == 0);
        assert(be_val(s.drop_first()) == 0);
        assert(s[0] == s.last());
        assert(be_val(s) == s.last());
        assert(p256((s.len() - 1) as nat) == 1);
        assert(be_val(s) == s[0] * p256((s.len() - 1) as nat) + be_val(s.drop_first()));
    } else {
        let dl = s.drop_last();
        let df = s.drop_first();
        lemma_be_val_first(dl);
        assert(dl.drop_first() =~= df.drop_last());
        assert(df.len() >= 1);
        assert(df.last() == s.last());
        assert(dl[0] == s[0]);
        let p = p256((s.len() - 2) as nat);
        assert(p256((s.len() - 1) as nat) == 256 * p);
        assert(be_val(s) == be_val(dl) * 256 + s.last());
        assert(be_val(dl) == s[0] * p + be_val(df.drop_last()));
        assert((s[0] * p + be_val(df.drop_last())) * 256 == s[0] * (256 * p) + be_val(
            df.drop_last(),
        ) * 256) by (nonlinear_arith);
        assert(be_val(df) == be_val(df.drop_last()) * 256 + s.last());
        assert(be_val(s) == s[0] * (256 * p) + be_val(df));
        assert(be_val(s) == s[0] * p256((s.len() - 1) as nat) + be_val(s.drop_first()));
    }
}

proof fn lemma_byte_split(t: i32)
    by (bit_vector)
    requires
        t >= 0i32,
        t < 512i32,
    ensures
        t == (t >> 8i32) * 256i32 + (t & 0xFFi32),
        (t >> 8i32) >= 0i32,
        (t >> 8i32) <= 1i32,
        (t & 0xFFi32) >= 0i32,
        (t & 0xFFi32) < 256i32,
{
}

proof fn lemma_add_algebra(va: int, vb: int, vr: int, p: int, c: int, ll: int, rr: int, tt: int, hi: int, lo: int)
    by (nonlinear_arith)
    requires
        va + vb == c * p + vr,
        tt == ll + rr + c,
        tt == hi * 256 + lo,
    ensures
        (ll * p + va) + (rr * p + vb) == hi * (256 * p) + (lo * p + vr),
{
}

/// 512-bit addition with carry, least significant byte last; the sum
/// wraps modulo 2^512.
pub fn add(l: Block, r: Block) -> (result: Block)
    ensures
        result@ == sadd(l@, r@),
        be_val(result@) == ((be_val(l@) + be_val(r@)) as int) % (p256(64) as int),
{
    let mut result: Block = [0u8; 64];
    let mut t: i32 = 0;
    let mut i: usize = 64;
    proof {
        lemma_byte_split(t);
        assert((t >> 8i32) == 0);
        assert(l@.subrange(64, 64).len() == 0);
        assert(be_val(l@.subrange(64, 64)) == 0);
        assert(be_val(r@.subrange(64, 64)) == 0);
        assert(be_val(result@.subrange(64, 64)) == 0);
    }
    while i > 0
        invariant
            i <= 64,
            0 <= t < 512,
            be_val(l@.subrange(i as int, 64)) + be_val(r@.subrange(i as int, 64)) == (t >> 8)
                * p256((64 - i) as nat) + be_val(result@.subrange(i as int, 64)),
        decreases i,
    {
        proof {
            lemma_byte_split(t);
        }
        let ghost old_res = result@;
        let ghost c = (t >> 8) as int;
        i -= 1;
        t = l[i] as i32 + r[i] as i32 + (t >> 8);
        result[i] = (t & 0xFF) as u8;
        proof {
            lemma_byte_split(t);
            let li = l@.subrange(i as int, 64);
            let ri = r@.subrange(i as int, 64);
            let resi = result@.subrange(i as int, 64);
            assert(li.drop_first() =~= l@.subrange(i + 1, 64));
            assert(ri.drop_first() =~= r@.subrange(i + 1, 64));
            assert(resi.drop_first() =~= old_res.subrange(i + 1, 64));
            lemma_be_val_first(li);
            lemma_be_val_first(ri);
            lemma_be_val_first(resi);
            lemma_add_algebra(
                be_val(li.drop_first()) as int,
                be_val(ri.drop_first()) as int,
                be_val(resi.drop_first()) as int,
                p256((64 - i - 1) as nat) as int,
                c,
                l@[i as int] as int,
                r@[i as int] as int,
                t as int,
                (t >> 8) as int,
                (t & 0xFF) as int,
            );
        }
    }
    proof {
        lemma_byte_split(t);
        assert(l@.subrange(0, 64) =~= l@);
        assert(r@.subrange(0, 64) =~= r@);
        assert(result@.subrange(0, 64) =~= result@);
        lemma_be_val_bound(result@);
        lemma_fundamental_div_mod_converse(
            (be_val(l@) + be_val(r@)) as int,
            p256(64) as int,
            (t >> 8) as int,
            be_val(result@) as int,
        );
        lemma_be_val_round_trip(result@);
    }
    result
}

/// The padded final block: the remainder right-justified in a zero
/// block, with a single 1 marker byte immediately to its left when the
/// remainder is shorter than a full block.
pub open spec fn spad(m: Seq<u8>) -> Seq<u8> {
    Seq::new(
        64,
        |i: int|
            if 64 - m.len() <= i {
                m[i - (64 - m.len())]
            } else if m.len() < 64 && i == 63 - m.len() {
                1u8
            } else {
                0u8
            },
    )
}

/// Right-justifies a remainder of at most 64 bytes into a zero block,
/// writing the terminal marker byte when there is room for it.
pub fn padding(m: &[u8]) -> (output: Block)
    requires
        m@.len() <= 64,
    ensures
        output@ == spad(m@),
{
    let mut output: Block = [0u8; 64];
    let mut i: usize = 0;
    let mlen: usize = m.len();
    while i < mlen
        invariant
            i <= mlen,
            mlen == m@.len() <= 64,
            forall|j: int| 0 <= j < 64 - mlen ==> output[j] == 0,
            forall|j: int| 64 - mlen <= j < 64 - mlen + i ==> output[j] == m@[j - (64 - mlen)],
            forall|j: int| 64 - mlen + i <= j < 64 ==> output[j] == 0,
        decreases mlen - i,
    {
        output[64 - mlen + i] = m[i];
        i += 1;
    }
    if mlen < 64 {
        output[64 - mlen - 1] = 0x01;
    }
    assert(output@ =~= spad(m@));
    output
}

/// The all-zero block.
pub open spec fn zb() -> Seq<u8> {
    Seq::new(64, |i: int| 0u8)
}

pub proof fn lemma_nat_to_be_zero(l: nat)
    ensures
        nat_to_be(0, l) == Seq::new(l, |i: int| 0u8),
    decreases l,
{
    if l > 0 {
        lemma_nat_to_be_zero((l - 1) as nat);
        assert(nat_to_be(0, l) =~= Seq::new(l, |i: int| 0u8));
    } else {
        assert(nat_to_be(0, l) =~= Seq::new(l, |i: int| 0u8));
    }
}

/// The 64-byte big-endian encoding of a value below 2^16: zeros, then
/// the high byte, then the low byte.
#[verifier::rlimit(50)]
pub proof fn lemma_nat_to_be_small(n: nat, l: nat)
    requires
        n < 65536,
        l >= 2,
    ensures
        nat_to_be(n, l).len() == l,
        forall|i: int| 0 <= i < l - 2 ==> nat_to_be(n, l)[i] == 0,
        nat_to_be(n, l)[l - 2] == n / 256,
        nat_to_be(n, l)[l - 1] == n % 256,
{
    lemma_nat_to_be_len(n, l);
    assert(n / 256 < 256) by (nonlinear_arith)
        requires
            n < 65536,
    ;
    lemma_small_mod(n / 256, 256);
    lemma_basic_div((n / 256) as int, 256);
    lemma_nat_to_be_zero((l - 2) as nat);
    assert(nat_to_be(n, l) == nat_to_be(n / 256, (l - 1) as nat).push((n % 256) as u8));
    assert(nat_to_be(n / 256, (l - 1) as nat) == nat_to_be(0, (l - 2) as nat).push(
        ((n / 256) % 256) as u8,
    ));
}

/// Consumption of the full 64-byte blocks of `m`, tail first: each step
/// compresses the last block into the state, adds 512 to the bit
/// counter, and adds the block into the checksum; what is left is the
/// prefix shorter than one block.
pub open spec fn sconsume(h: Seq<u8>, n: Seq<u8>, sig: Seq<u8>, m: Seq<u8>) -> (Seq<u8>, Seq<u8>, Seq<u8>, Seq<u8>)
    decreases m.len(),
{
    if m.len() < 64 {
        (h, n, sig, m)
    } else {
        let blk = m.subrange(m.len() - 64, m.len() as int);
        sconsume(
            scompress(n, h, blk),
            sadd(n, nat_to_be(512, 64)),
            sadd(sig, blk),
            m.subrange(0, m.len() - 64),
        )
    }
}

/// The digest of `message` from initial state `iv`: all full blocks are
/// consumed tail first, the remaining prefix is padded and consumed, the
/// bit counter takes the remainder's bit length, and two finishing
/// compressions under a zero counter fold in the counter and the
/// checksum.
pub open spec fn spec_hash(iv: Seq<u8>, message: Seq<u8>) -> Seq<u8> {
    let t = sconsume(iv, zb(), zb(), message);
    let rest = t.3;
    let mb = spad(rest);
    let h1 = scompress(t.1, t.0, mb);
    let n1 = sadd(t.1, nat_to_be(8 * rest.len(), 64));
    let sig1 = sadd(t.2, mb);
    scompress(zb(), scompress(zb(), h1, n1), sig1)
}

/// Hashes `message` starting from chaining state `iv`, consuming the
/// byte stream from its tail toward its head.
pub fn hash(iv: Block, message: &[u8]) -> (r: Block)
    ensures
        r@ == spec_hash(iv@, message@),
{
    let mut h: Block = iv;
    let mut n: Block = [0u8; 64];
    let mut sigma: Block = [0u8; 64];

    let mut len: usize = message.len();

    let mut n_512: Block = [0u8; 64];
    n_512[62] = 0x02;

    proof {
        lemma_nat_to_be_small(512, 64);
        assert(n_512@ =~= nat_to_be(512, 64));
        assert(n@ =~= zb());
        assert(sigma@ =~= zb());
        assert(message@.subrange(0, len as int) =~= message@);
    }

    while len >= 64
        invariant
            len <= message@.len(),
            n_512@ == nat_to_be(512, 64),
            sconsume(h@, n@, sigma@, message@.subrange(0, len as int)) == sconsume(
                iv@,
                zb(),
                zb(),
                message@,
            ),
        decreases len,
    {
        let ghost mcur = message@.subrange(0, len as int);
        let mut section: Block = [0u8; 64];
        let mut i: usize = 0;
        while i < 64
            invariant
                i <= 64,
                64 <= len <= message@.len(),
                forall|j: int| 0 <= j < i ==> section[j] == message@[len - 64 + j],
            decreases 64 - i,
        {
            section[i] = message[len - 64 + i];
            i += 1;
        }
        proof {
            assert(section@ =~= mcur.subrange(mcur.len() - 64, mcur.len() as int));
            assert(mcur.subrange(0, mcur.len() - 64) =~= message@.subrange(0, (len - 64) as int));
        }
        h = compression(n, h, section);
        n = crate::streebog::add(n, n_512);
        sigma = crate::streebog::add(sigma, section);

        len -= 64;
    }

    let rest = slice_subrange(message, 0, len);
    let section = padding(rest);

    let bits: usize = len * 8;
    let mut v: Block = [0u8; 64];
    let v0: Block = [0u8; 64];
    v[63] = (bits & 0xFF) as u8;
    v[62] = (bits >> 8) as u8;

    proof {
        assert(bits & 0xFF == bits % 256 && bits >> 8 == bits / 256 && bits % 256 < 256 && bits
            / 256 < 256) by (bit_vector)
            requires
                bits < 65536,
        ;
        lemma_nat_to_be_small(bits as nat, 64);
        assert(v@ =~= nat_to_be(bits as nat, 64));
        assert(v0@ =~= zb());
    }

    h = compression(n, h, section);

    n = crate::streebog::add(n, v);
    sigma = crate::streebog::add(sigma, section);

    h = compression(v0, h, n);
    h = compression(v0, h, sigma);

    h
}

/// The 512-bit digest of `message`: the hash from the all-zero initial
/// state.
pub fn hash_512(message: &[u8]) -> (r: Block)
    ensures
        r@ == spec_hash(zb(), message@),
{
    let iv: Block = [0u8; 64];
    proof {
        assert(iv@ =~= zb());
    }
    hash(iv, message)
}

pub proof fn lemma_p256_pos(l: nat)
    ensures
        p256(l) >= 1,
    decreases l,
{
    if l > 0 {
        lemma_p256_pos((l - 1) as nat);
        assert(256 * p256((l - 1) as nat) >= 256 * 1) by (nonlinear_arith)
            requires
                p256((l - 1) as nat) >= 1,
        ;
    }
}

/// `p256(l)` is 2 to the power `8 * l`; in particular blocks are added
/// modulo 2^512.
pub proof fn lemma_p256_is_pow2(l: nat)
    ensures
        p256(l) == pow2(8 * l),
    decreases l,
{
    lemma2_to64();
    if l == 0 {
    } else {
        lemma_p256_is_pow2((l - 1) as nat);
        lemma_pow2_adds(8, 8 * (l - 1) as nat);
    }
}

/// The value encoded by `nat_to_be` is the value it was given, modulo
/// the range of the encoding.
pub proof fn lemma_nat_to_be_val(n: nat, l: nat)
    ensures
        be_val(nat_to_be(n, l)) == (n as int) % (p256(l) as int),
    decreases l,
{
    if l == 0 {
        assert(p256(0) == 1);
        assert(n as int % 1int == 0);
    } else {
        lemma_nat_to_be_val(n / 256, (l - 1) as nat);
        lemma_nat_to_be_len(n / 256, (l - 1) as nat);
        let s = nat_to_be(n, l);
        let p = p256((l - 1) as nat);
        lemma_p256_pos((l - 1) as nat);
        assert(s.drop_last() =~= nat_to_be(n / 256, (l - 1) as nat));
        assert(be_val(s) == ((n / 256) as int % (p as int)) * 256 + n % 256);
        lemma_mod_breakdown(n as int, 256, p as int);
        assert(256 * (((n as int) / 256) % (p as int)) == (((n / 256) as int) % (p as int)) * 256);
    }
}

/// The value of a sum block is the sum of the values, modulo 2^512.
pub proof fn lemma_sadd_val(a: Seq<u8>, b: Seq<u8>)
    ensures
        be_val(sadd(a, b)) == ((be_val(a) + be_val(b)) as int) % (p256(64) as int),
{
    let s = (be_val(a) + be_val(b)) as int;
    let m = p256(64) as int;
    lemma_p256_pos(64);
    vstd::arithmetic::div_mod::lemma_mod_bound(s, m);
    lemma_nat_to_be_val(((s % m) as nat), 64);
    lemma_small_mod((s % m) as nat, p256(64));
}

/// The sum of the big-endian values of the 64-byte blocks of `m`, taken
/// tail first.
pub open spec fn sum_vals(m: Seq<u8>) -> nat
    decreases m.len(),
{
    if m.len() < 64 {
        0
    } else {
        sum_vals(m.subrange(0, m.len() - 64)) + be_val(m.subrange(m.len() - 64, m.len() as int))
    }
}

/// Law: the digest is a pure function of the initial state and the
/// message — two digests of the same message are equal.
pub proof fn lemma_hash_deterministic(iv: Seq<u8>, m: Seq<u8>, d1: Seq<u8>, d2: Seq<u8>)
    requires
        d1 == spec_hash(iv, m),
        d2 == spec_hash(iv, m),
    ensures
        d1 == d2,
{
}

/// Law: every digest is exactly 64 bytes wide, whatever the message
/// length.
pub proof fn lemma_digest_len(iv: Seq<u8>, m: Seq<u8>)
    ensures
        spec_hash(iv, m).len() == 64,
{
}

/// Law: a message of exactly one full block is followed by the padded
/// empty remainder — a synthetic block that is all zeros except for the
/// marker byte at its end — before the two finishing compressions; the
/// remainder contributes zero bits to the counter.
pub proof fn lemma_full_block_synthetic_path(iv: Seq<u8>, m: Seq<u8>)
    requires
        m.len() == 64,
    ensures
        spad(Seq::<u8>::empty()) == Seq::new(64, |i: int| if i == 63 { 1u8 } else { 0u8 }),
        sconsume(iv, zb(), zb(), m) == (
            scompress(zb(), iv, m),
            sadd(zb(), nat_to_be(512, 64)),
            sadd(zb(), m),
            Seq::<u8>::empty(),
        ),
        spec_hash(iv, m) == scompress(
            zb(),
            scompress(
                zb(),
                scompress(sadd(zb(), nat_to_be(512, 64)), scompress(zb(), iv, m), spad(Seq::<u8>::empty())),
                sadd(sadd(zb(), nat_to_be(512, 64)), nat_to_be(0, 64)),
            ),
            sadd(sadd(zb(), m), spad(Seq::<u8>::empty())),
        ),
{
    assert(spad(Seq::<u8>::empty()) =~= Seq::new(64, |i: int| if i == 63 { 1u8 } else { 0u8 }));
    assert(m.subrange(m.len() - 64, m.len() as int) =~= m);
    let e = m.subrange(0, m.len() - 64);
    assert(e =~= Seq::<u8>::empty());
    let h1 = scompress(zb(), iv, m);
    let n1 = sadd(zb(), nat_to_be(512, 64));
    let sig1 = sadd(zb(), m);
    assert(sconsume(iv, zb(), zb(), m) == sconsume(h1, n1, sig1, Seq::<u8>::empty()));
    assert(sconsume(h1, n1, sig1, Seq::<u8>::empty()) == (h1, n1, sig1, Seq::<u8>::empty()));
    let t = sconsume(iv, zb(), zb(), m);
    assert(8 * t.3.len() == 0);
}

/// Law: the blocks of a two-block message are consumed tail first — the
/// state after consumption compresses the second block under counter
/// zero, then the first block under counter 512.
pub proof fn lemma_reverse_block_order(iv: Seq<u8>, m: Seq<u8>)
    requires
        m.len() == 128,
    ensures
        sconsume(iv, zb(), zb(), m).0 == scompress(
            sadd(zb(), nat_to_be(512, 64)),
            scompress(zb(), iv, m.subrange(64, 128)),
            m.subrange(0, 64),
        ),
{
    let b1 = m.subrange(0, 64);
    let b2 = m.subrange(64, 128);
    assert(m.subrange(m.len() - 64, m.len() as int) =~= b2);
    let m1 = m.subrange(0, m.len() - 64);
    let h1 = scompress(zb(), iv, b2);
    let n1 = sadd(zb(), nat_to_be(512, 64));
    let sig1 = sadd(zb(), b2);
    assert(sconsume(iv, zb(), zb(), m) == sconsume(h1, n1, sig1, m1));
    assert(m1.subrange(m1.len() - 64, m1.len() as int) =~= b1);
    let e = m1.subrange(0, m1.len() - 64);
    assert(e =~= Seq::<u8>::empty());
    let h2 = scompress(n1, h1, b1);
    let n2 = sadd(n1, nat_to_be(512, 64));
    let sig2 = sadd(sig1, b1);
    assert(sconsume(h1, n1, sig1, m1) == sconsume(h2, n2, sig2, Seq::<u8>::empty()));
    assert(sconsume(h2, n2, sig2, Seq::<u8>::empty()).0 == h2);
}

proof fn lemma_sconsume_counter(h: Seq<u8>, n: Seq<u8>, sig: Seq<u8>, m: Seq<u8>, k: nat)
    requires
        m.len() == 64 * k,
        n.len() == 64,
        sig.len() == 64,
    ensures
        be_val(sconsume(h, n, sig, m).1) == ((be_val(n) + 512 * k) as int) % (p256(64) as int),
        be_val(sconsume(h, n, sig, m).2) == ((be_val(sig) + sum_vals(m)) as int) % (p256(
            64,
        ) as int),
        sconsume(h, n, sig, m).3 == Seq::<u8>::empty(),
    decreases k,
{
    lemma_p256_pos(64);
    let mp = p256(64) as int;
    if k == 0 {
        assert(m =~= Seq::<u8>::empty());
        lemma_be_val_bound(n);
        lemma_small_mod(be_val(n), p256(64));
        lemma_be_val_bound(sig);
        lemma_small_mod(be_val(sig), p256(64));
    } else {
        let blk = m.subrange(m.len() - 64, m.len() as int);
        let mrest = m.subrange(0, m.len() - 64);
        let n1 = sadd(n, nat_to_be(512, 64));
        let sig1 = sadd(sig, blk);
        lemma_nat_to_be_len(
            ((((be_val(n) + be_val(nat_to_be(512, 64))) as int) % mp) as nat),
            64,
        );
        lemma_nat_to_be_len(((((be_val(sig) + be_val(blk)) as int) % mp) as nat), 64);
        assert(mrest.len() == 64 * (k - 1)) by (nonlinear_arith)
            requires
                m.len() == 64 * k,
                mrest.len() == m.len() - 64,
                k >= 1,
        ;
        lemma_sconsume_counter(scompress(n, h, blk), n1, sig1, mrest, (k - 1) as nat);
        // counter part
        lemma_sadd_val(n, nat_to_be(512, 64));
        lemma_nat_to_be_val(512, 64);
        lemma_p256_is_pow2(64);
        lemma2_to64();
        lemma_pow2_adds(10, 502);
        vstd::arithmetic::power2::lemma_pow2_pos(502);
        assert(pow2(512) >= 1024) by (nonlinear_arith)
            requires
                pow2(512) == 1024 * pow2(502),
                pow2(502) >= 1,
        ;
        lemma_small_mod(512, p256(64));
        assert(be_val(n1) == ((be_val(n) + 512) as int) % mp);
        vstd::arithmetic::div_mod::lemma_add_mod_noop_right(
            512 * ((k - 1) as int),
            (be_val(n) + 512) as int,
            mp,
        );
        assert(512 * ((k - 1) as int) + (be_val(n) + 512) == be_val(n) + 512 * k)
            by (nonlinear_arith);
        // checksum part
        lemma_sadd_val(sig, blk);
        assert(be_val(sig1) == ((be_val(sig) + be_val(blk)) as int) % mp);
        vstd::arithmetic::div_mod::lemma_add_mod_noop_right(
            sum_vals(mrest) as int,
            (be_val(sig) + be_val(blk)) as int,
            mp,
        );
        assert(sum_vals(m) == sum_vals(mrest) + be_val(blk));
    }
}

/// Law: after a message of exactly `k` full blocks is consumed, the bit
/// counter holds `512 * k` and the checksum holds the modulo-2^512 sum
/// of the `k` blocks.
pub proof fn lemma_counter_checksum(iv: Seq<u8>, m: Seq<u8>, k: nat)
    requires
        m.len() == 64 * k,
        512 * k < p256(64),
    ensures
        be_val(sconsume(iv, zb(), zb(), m).1) == 512 * k,
        be_val(sconsume(iv, zb(), zb(), m).2) == (sum_vals(m) as int) % (p256(64) as int),
{
    lemma_sconsume_counter(iv, zb(), zb(), m, k);
    lemma_p256_pos(64);
    assert(zb() =~= nat_to_be(0, 64)) by {
        lemma_nat_to_be_zero(64);
        lemma_nat_to_be_len(0, 64);
    }
    lemma_nat_to_be_val(0, 64);
    lemma_small_mod(0, p256(64));
    assert(be_val(zb()) == 0);
    lemma_small_mod((512 * k) as nat, p256(64));
}

/// Whether a byte is an ASCII hexadecimal digit.
pub open spec fn is_hex(c: u8) -> bool {
    (48 <= c <= 57) || (97 <= c <= 102) || (65 <= c <= 70)
}

/// The value of an ASCII hexadecimal digit.
pub open spec fn hex_val(c: u8) -> u8 {
    if 48 <= c <= 57 {
        (c - 48) as u8
    } else if 97 <= c <= 102 {
        (c - 87) as u8
    } else if 65 <= c <= 70 {
        (c - 55) as u8
    } else {
        0u8
    }
}

fn hex_digit(c: u8) -> (r: u8)
    requires
        is_hex(c),
    ensures
        r == hex_val(c),
        r < 16,
{
    if 48 <= c && c <= 57 {
        c - 48
    } else if 97 <= c && c <= 102 {
        c - 87
    } else {
        c - 55
    }
}

/// Decodes an even-length ASCII hexadecimal string into its bytes,
/// two digits per byte, most significant nibble first.
pub fn parse_bytes(s: &[u8]) -> (r: Vec<u8>)
    requires
        s@.len() % 2 == 0,
        forall|i: int| 0 <= i < s@.len() ==> is_hex(s@[i]),
    ensures
        r@.len() == s@.len() / 2,
        forall|i: int| 0 <= i < r@.len() ==> r@[i] == hex_val(s@[2 * i]) * 16 + hex_val(
            s@[2 * i + 1],
        ),
{
    let mut vec: Vec<u8> = Vec::new();
    let mut i: usize = 0;
    while i + 1 < s.len()
        invariant
            i % 2 == 0,
            i <= s@.len(),
            s@.len() % 2 == 0,
            forall|j: int| 0 <= j < s@.len() ==> is_hex(s@[j]),
            vec@.len() == i / 2,
            forall|j: int| 0 <= j < vec@.len() ==> vec@[j] == hex_val(s@[2 * j]) * 16 + hex_val(
                s@[2 * j + 1],
            ),
        decreases s@.len() - i,
    {
        proof {
            lemma_fundamental_div_mod(i as int, 2);
            lemma_fundamental_div_mod(i + 2, 2);
        }
        let hi = hex_digit(s[i]);
        let lo = hex_digit(s[i + 1]);
        vec.push(hi * 16 + lo);
        i += 2;
    }
    proof {
        lemma_fundamental_div_mod(s@.len() as int, 2);
        lemma_fundamental_div_mod(i as int, 2);
    }
    vec
}

} // verus!
