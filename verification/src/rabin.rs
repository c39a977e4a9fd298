//! A quadratic-residue cipher over a two-prime modulus: encryption
//! squares each byte, decryption recovers the four square roots
//! through the Chinese remainder theorem and keeps the one that fits a
//! byte; with the extended Euclidean algorithm and modular
//! exponentiation underneath.

use vstd::prelude::*;

use vstd::arithmetic::div_mod::{
    lemma_fundamental_div_mod, lemma_mod_bound, lemma_mod_multiples_basic,
};
use vstd::arithmetic::power::{
    lemma_pow1, lemma_pow_adds, lemma_pow_mod_noop, lemma_pow_multiplies, pow,
};

verus! {

/// The greatest common divisor, by Euclid's recursion.
pub open spec fn gcd(p: int, q: int) -> int
    recommends
        p >= 0,
        q >= 0,
    decreases q,
{
    if q <= 0 {
        p
    } else {
        gcd(q, p % q)
    }
}

/// Computes Bezout coefficients `(x, y)` with
/// `p * x + q * y == gcd(p, q)`; their sizes stay within the inputs.
pub fn extended_euclidean(p: u32, q: u32) -> (r: (i128, i128))
    ensures
        p * r.0 + q * r.1 == gcd(p as int, q as int),
        q == 0 ==> r == (1i128, 0i128),
        q > 0 ==> -(q as int) <= r.0 <= q as int,
        q > 0 ==> -(if p == 0 {
            1int
        } else {
            p as int
        }) <= r.1 <= (if p == 0 {
            1int
        } else {
            p as int
        }),
    decreases q,
{
    if q == 0 {
        return (1, 0);
    }
    let (x1, y1) = extended_euclidean(q, p % q);
    proof {
        lemma_fundamental_div_mod(p as int, q as int);
        lemma_mod_bound(p as int, q as int);
        if p % q == 0 {
            assert(x1 == 1 && y1 == 0);
        } else {
            assert(-(q as int) <= y1 <= q as int);
            assert(((p / q) as int) * y1 <= ((p / q) as int) * (q as int) && -(((p / q) as int) * (
            q as int)) <= ((p / q) as int) * y1) by (nonlinear_arith)
                requires
                    -(q as int) <= y1 <= q as int,
                    (p / q) as int >= 0,
            ;
            assert((q as int) * ((p / q) as int) == ((p / q) as int) * (q as int))
                by (nonlinear_arith);
            assert(((p / q) as int) * (q as int) <= p as int);
        }
    }
    let x = y1;
    let y = x1 - ((p / q) as i128 * y1);
    proof {
        assert((q as int) * x1 + ((p % q) as int) * y1 == gcd(q as int, (p % q) as int));
        assert((p as int) * y1 + (q as int) * (x1 - ((p / q) as int) * y1) == (q as int) * x1 + ((
        p as int) - (q as int) * ((p / q) as int)) * y1) by (nonlinear_arith);
        assert(gcd(p as int, q as int) == gcd(q as int, (p % q) as int));
    }
    (x, y)
}

/// Computes `base ^ exp` modulo `modulus` by binary exponentiation.
pub fn mod_pow(base: u64, exp: u64, modulus: u64) -> (r: u64)
    requires
        1 <= modulus <= 0x1_0000_0000,
    ensures
        r == pow(base as int, exp as nat) % (modulus as int),
{
    let ghost m = modulus as int;
    if modulus == 1 {
        proof {
            vstd::arithmetic::div_mod::lemma_small_mod(0, 1);
            lemma_pow_mod_noop(base as int, exp as nat, 1);
            assert(pow(base as int, exp as nat) % 1int == 0);
        }
        return 0;
    }
    let mut result: u64 = 1;
    let mut b: u64 = base % modulus;
    let mut e: u64 = exp;
    proof {
        lemma_pow_mod_noop(base as int, exp as nat, m);
    }
    while e > 0
        invariant
            2 <= modulus <= 0x1_0000_0000,
            m == modulus as int,
            result < modulus,
            b < modulus,
            (result * pow(b as int, e as nat)) % m == pow(base as int, exp as nat) % m,
        decreases e,
    {
        let ghost r0 = result as int;
        let ghost b0 = b as int;
        let ghost e0 = e as nat;
        if e % 2 == 1 {
            proof {
                lemma_pow_adds(b0, 1, (e0 - 1) as nat);
                lemma_pow1(b0);
                vstd::arithmetic::div_mod::lemma_mul_mod_noop_left(
                    r0 * b0,
                    pow(b0, (e0 - 1) as nat),
                    m,
                );
                assert((r0 * b0) * pow(b0, (e0 - 1) as nat) == r0 * (b0 * pow(b0, (e0 - 1) as nat)))
                    by (nonlinear_arith);
                lemma_mod_bound(r0 * b0, m);
                assert(r0 * b0 < 0x1_0000_0000_0000_0000) by (nonlinear_arith)
                    requires
                        0 <= r0 < m,
                        0 <= b0 < m,
                        m <= 0x1_0000_0000,
                ;
            }
            result = result * b % modulus;
            proof {
                assert(((r0 * b0) % m) * pow(b0, (e0 - 1) as nat) % m == (r0 * pow(b0, e0)) % m);
            }
        }
        let ghost r1 = result as int;
        let ghost erem: nat = if e0 % 2 == 1 {
            (e0 - 1) as nat
        } else {
            e0
        };
        proof {
            assert((r1 * pow(b0, erem)) % m == pow(base as int, exp as nat) % m);
            let eh = (e0 / 2) as nat;
            lemma_pow_multiplies(b0, 2, eh);
            lemma_pow_adds(b0, 1, 1);
            lemma_pow1(b0);
            assert(pow(b0, 2) == b0 * b0);
            assert(2 * eh == erem) by {
                lemma_fundamental_div_mod(e0 as int, 2);
            }
            lemma_pow_mod_noop(b0 * b0, eh, m);
            vstd::arithmetic::div_mod::lemma_mul_mod_noop_right(r1, pow(b0 * b0, eh), m);
            vstd::arithmetic::div_mod::lemma_mul_mod_noop_right(r1, pow((b0 * b0) % m, eh), m);
            lemma_mod_bound(b0 * b0, m);
            assert((r1 * pow((b0 * b0) % m, eh)) % m == pow(base as int, exp as nat) % m);
            assert(b0 * b0 < 0x1_0000_0000_0000_0000) by (nonlinear_arith)
                requires
                    0 <= b0 < m,
                    m <= 0x1_0000_0000,
            ;
        }
        let ghost eu: u64 = e;
        e = e >> 1;
        proof {
            assert(e == eu / 2u64) by (bit_vector)
                requires
                    e == eu >> 1u64,
            ;
        }
        b = b * b % modulus;
    }
    proof {
        vstd::arithmetic::power::lemma_pow0(b as int);
        lemma_mod_bound(result as int, m);
        vstd::arithmetic::div_mod::lemma_small_mod(result as nat, modulus as nat);
    }
    result
}

/// Squares of the input bytes modulo `n`.
pub fn encrypt_data(data: &[u8], n: u32) -> (r: Vec<u32>)
    requires
        n >= 1,
    ensures
        r@.len() == data@.len(),
        forall|i: int| 0 <= i < r@.len() ==> r@[i] == ((data@[i] as int) * (data@[i] as int)) % (
        n as int),
{
    let mut converted: Vec<u32> = Vec::new();
    let mut i: usize = 0;
    while i < data.len()
        invariant
            i <= data@.len(),
            n >= 1,
            converted@.len() == i,
            forall|j: int| 0 <= j < i ==> converted@[j] == ((data@[j] as int) * (data@[j] as int))
                % (n as int),
        decreases data@.len() - i,
    {
        let v = data[i] as u32;
        proof {
            assert(v * v <= 255 * 255) by (nonlinear_arith)
                requires
                    v <= 255,
            ;
        }
        converted.push((v * v) % n);
        i += 1;
    }
    converted
}

/// The four candidate roots of `c` and the byte the decryption keeps:
/// the first of them that fits in a byte.
pub open spec fn spec_decrypt(c: u32, p: u32, q: u32, y_p: int, y_q: int) -> Option<u8> {
    let n = (p as int) * (q as int);
    let m_p = pow(c as int, (((p + 1) / 4) as u64) as nat) % (p as int);
    let m_q = pow(c as int, (((q + 1) / 4) as u64) as nat) % (q as int);
    let r_1 = (y_p * p * m_q + y_q * q * m_p) % n;
    let r_2 = n - r_1;
    let r_3 = (y_p * p * m_q - y_q * q * m_p) % n;
    let r_4 = n - r_3;
    if r_1 <= 255 {
        Some(r_1 as u8)
    } else if r_2 <= 255 {
        Some(r_2 as u8)
    } else if r_3 <= 255 {
        Some(r_3 as u8)
    } else if r_4 <= 255 {
        Some(r_4 as u8)
    } else {
        None
    }
}

proof fn lemma_shift_mod(v: int, n: int, k: int)
    requires
        n > 0,
    ensures
        (v + n * k) % n == v % n,
{
    lemma_mod_multiples_basic(k, n);
    assert(k * n == n * k) by (nonlinear_arith);
    vstd::arithmetic::div_mod::lemma_add_mod_noop(n * k, v, n);
    lemma_mod_bound(v, n);
    vstd::arithmetic::div_mod::lemma_small_mod((v % n) as nat, n as nat);
}

/// Recovers the byte hidden in one ciphertext value from the two
/// primes and their Bezout coefficients.
pub fn decrypt_value(c: u32, p: u32, q: u32, y_p: i128, y_q: i128) -> (r: Option<u8>)
    requires
        2 <= p < 0xFFFF_FFFF,
        2 <= q < 0xFFFF_FFFF,
        (p as int) * (q as int) <= 0xFFFF_FFFF,
        -(q as int) <= y_p <= q as int,
        -(p as int) <= y_q <= p as int,
    ensures
        r == spec_decrypt(c, p, q, y_p as int, y_q as int),
{
    let n: u64 = (p as u64) * (q as u64);
    let m_p = mod_pow(c as u64, ((p + 1) / 4) as u64, p as u64);
    let m_q = mod_pow(c as u64, ((q + 1) / 4) as u64, q as u64);
    proof {
        assert(n >= 4) by (nonlinear_arith)
            requires
                n == (p as int) * (q as int),
                p >= 2,
                q >= 2,
        ;
        lemma_mod_bound(pow(c as int, (((p + 1) / 4) as u64) as nat), p as int);
        lemma_mod_bound(pow(c as int, (((q + 1) / 4) as u64) as nat), q as int);
        assert(y_p * (p as int) <= n && -(n as int) <= y_p * (p as int) && y_q * (q as int) <= n
            && -(n as int) <= y_q * (q as int)) by (nonlinear_arith)
            requires
                -(q as int) <= y_p <= q as int,
                -(p as int) <= y_q <= p as int,
                n == (p as int) * (q as int),
                p >= 2,
                q >= 2,
        ;
        assert((y_p * (p as int)) * (m_q as int) <= (n as int) * 0x1_0000_0000 && -((
        n as int) * 0x1_0000_0000) <= (y_p * (p as int)) * (m_q as int) && (y_q * (q as int)) * (
        m_p as int) <= (n as int) * 0x1_0000_0000 && -((n as int) * 0x1_0000_0000) <= (y_q * (
        q as int)) * (m_p as int)) by (nonlinear_arith)
            requires
                -(n as int) <= y_p * (p as int) <= n as int,
                -(n as int) <= y_q * (q as int) <= n as int,
                0 <= m_q < 0x1_0000_0000,
                0 <= m_p < 0x1_0000_0000,
                n >= 4,
        ;
        assert((n as int) * 0x1_0000_0000 + (n as int) * 0x1_0000_0000 == (n as int)
            * 0x2_0000_0000) by (nonlinear_arith);
        assert((n as int) * 0x2_0000_0000 <= 0xFFFF_FFFFi128 * 0x2_0000_0000) by (nonlinear_arith)
            requires
                n <= 0xFFFF_FFFF,
        ;
    }
    let shift: i128 = (n as i128) * 0x2_0000_0000;
    let v_1: i128 = y_p * (p as i128) * (m_q as i128) + y_q * (q as i128) * (m_p as i128);
    let pos_1: u128 = (v_1 + shift) as u128;
    let r_1: u64 = (pos_1 % (n as u128)) as u64;
    proof {
        lemma_shift_mod(v_1 as int, n as int, 0x2_0000_0000);
        lemma_mod_bound((v_1 + shift) as int, n as int);
    }
    let r_2: u64 = n - r_1;
    let v_3: i128 = y_p * (p as i128) * (m_q as i128) - y_q * (q as i128) * (m_p as i128);
    let pos_3: u128 = (v_3 + shift) as u128;
    let r_3: u64 = (pos_3 % (n as u128)) as u64;
    proof {
        lemma_shift_mod(v_3 as int, n as int, 0x2_0000_0000);
        lemma_mod_bound((v_3 + shift) as int, n as int);
    }
    let r_4: u64 = n - r_3;
    if r_1 <= u8::MAX as u64 {
        Some(r_1 as u8)
    } else if r_2 <= u8::MAX as u64 {
        Some(r_2 as u8)
    } else if r_3 <= u8::MAX as u64 {
        Some(r_3 as u8)
    } else if r_4 <= u8::MAX as u64 {
        Some(r_4 as u8)
    } else {
        None
    }
}

/// The decrypted bytes of a ciphertext stream; a value none of whose
/// roots fits a byte contributes nothing.
pub open spec fn spec_decrypt_seq(data: Seq<u32>, p: u32, q: u32, y_p: int, y_q: int) -> Seq<u8>
    decreases data.len(),
{
    if data.len() == 0 {
        Seq::empty()
    } else {
        spec_decrypt_seq(data.drop_last(), p, q, y_p, y_q) + (match spec_decrypt(
            data.last(),
            p,
            q,
            y_p,
            y_q,
        ) {
            Some(v) => seq![v],
            None => Seq::empty(),
        })
    }
}

/// Decrypts a whole ciphertext stream.
pub fn decrypt_data(data: &[u32], p: u32, q: u32, y_p: i128, y_q: i128) -> (r: Vec<u8>)
    requires
        2 <= p < 0xFFFF_FFFF,
        2 <= q < 0xFFFF_FFFF,
        (p as int) * (q as int) <= 0xFFFF_FFFF,
        -(q as int) <= y_p <= q as int,
        -(p as int) <= y_q <= p as int,
    ensures
        r@ == spec_decrypt_seq(data@, p, q, y_p as int, y_q as int),
{
    let mut out: Vec<u8> = Vec::new();
    let mut i: usize = 0;
    proof {
        assert(data@.subrange(0, 0) =~= Seq::<u32>::empty());
    }
    while i < data.len()
        invariant
            i <= data@.len(),
            2 <= p < 0xFFFF_FFFF,
            2 <= q < 0xFFFF_FFFF,
            (p as int) * (q as int) <= 0xFFFF_FFFF,
            -(q as int) <= y_p <= q as int,
            -(p as int) <= y_q <= p as int,
            out@ == spec_decrypt_seq(data@.subrange(0, i as int), p, q, y_p as int, y_q as int),
        decreases data@.len() - i,
    {
        let v = decrypt_value(data[i], p, q, y_p, y_q);
        proof {
            let cur = data@.subrange(0, i + 1);
            assert(cur.drop_last() =~= data@.subrange(0, i as int));
            assert(cur.last() == data@[i as int]);
        }
        match v {
            Some(b) => {
                out.push(b);
                proof {
                    assert(out@ =~= spec_decrypt_seq(
                        data@.subrange(0, i + 1),
                        p,
                        q,
                        y_p as int,
                        y_q as int,
                    ));
                }
            },
            None => {
                proof {
                    assert(out@ =~= spec_decrypt_seq(
                        data@.subrange(0, i + 1),
                        p,
                        q,
                        y_p as int,
                        y_q as int,
                    ));
                }
            },
        }
        i += 1;
    }
    proof {
        assert(data@.subrange(0, data@.len() as int) =~= data@);
    }
    out
}

} // verus!
