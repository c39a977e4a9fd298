//! Finite fields of characteristic 2, generated from a table of
//! primitive polynomials, together with the prime-power test and trial
//! division that validate a requested field order.

use vstd::prelude::*;

use vstd::arithmetic::div_mod::{
    lemma_fundamental_div_mod, lemma_mod_multiples_basic, lemma_small_mod,
};
use vstd::arithmetic::power::pow;
use vstd::arithmetic::power2::{lemma2_to64, lemma_pow2, lemma_pow2_strictly_increases, pow2};
use vstd::bits::lemma_u32_shl_is_mul;

use rand::Rng;

verus! {

/// `p` has no divisor strictly between 1 and itself.
pub open spec fn is_prime(p: int) -> bool {
    p >= 2 && forall|d: int| 2 <= d < p ==> #[trigger] (p % d) != 0
}

/// The product of the entries of `s`.
pub open spec fn seq_product(s: Seq<u32>) -> int
    decreases s.len(),
{
    if s.len() == 0 {
        1
    } else {
        seq_product(s.drop_last()) * s.last()
    }
}

proof fn lemma_div_exact(n: int, d: int)
    requires
        d > 0,
        n % d == 0,
    ensures
        n == d * (n / d),
{
    lemma_fundamental_div_mod(n, d);
}

proof fn lemma_mul_divides(k: int, d: int, n: int)
    requires
        d > 0,
        n == d * k,
    ensures
        n % d == 0,
{
    lemma_mod_multiples_basic(k, d);
    assert(k * d == d * k) by (nonlinear_arith);
}

proof fn lemma_product_pos(s: Seq<u32>)
    requires
        forall|i: int| 0 <= i < s.len() ==> s[i] >= 1,
    ensures
        seq_product(s) >= 1,
    decreases s.len(),
{
    if s.len() > 0 {
        lemma_product_pos(s.drop_last());
        assert(seq_product(s.drop_last()) * s.last() >= 1) by (nonlinear_arith)
            requires
                seq_product(s.drop_last()) >= 1,
                s.last() >= 1,
        ;
    }
}

/// Every entry of a sequence of positive numbers divides their product.
proof fn lemma_product_all_divide(s: Seq<u32>, n: int)
    requires
        seq_product(s) == n,
        forall|i: int| 0 <= i < s.len() ==> s[i] >= 1,
    ensures
        forall|i: int| 0 <= i < s.len() ==> n % (s[i] as int) == 0,
    decreases s.len(),
{
    if s.len() > 0 {
        let dl = s.drop_last();
        let p = seq_product(dl);
        lemma_product_all_divide(dl, p);
        lemma_mul_divides(p, s.last() as int, n);
        assert(p * s.last() == (s.last() as int) * p) by (nonlinear_arith);
        assert forall|i: int| 0 <= i < s.len() implies n % (s[i] as int) == 0 by {
            if i < s.len() - 1 {
                let v = dl[i] as int;
                assert(p % v == 0);
                lemma_div_exact(p, v);
                assert((v * (p / v)) * (s.last() as int) == v * ((p / v) * (s.last() as int)))
                    by (nonlinear_arith);
                lemma_mul_divides((p / v) * (s.last() as int), v, n);
            }
        }
    }
}

/// A sequence of entries all at least 2 has a product of at least 2 to
/// its length.
proof fn lemma_product_min(s: Seq<u32>)
    requires
        forall|i: int| 0 <= i < s.len() ==> s[i] >= 2,
    ensures
        seq_product(s) >= pow2(s.len()),
    decreases s.len(),
{
    if s.len() == 0 {
        lemma2_to64();
    } else {
        lemma_product_min(s.drop_last());
        vstd::arithmetic::power2::lemma_pow2_adds((s.len() - 1) as nat, 1);
        lemma2_to64();
        vstd::arithmetic::power2::lemma_pow2_pos((s.len() - 1) as nat);
        assert(seq_product(s.drop_last()) * s.last() >= pow2((s.len() - 1) as nat) * 2)
            by (nonlinear_arith)
            requires
                seq_product(s.drop_last()) >= pow2((s.len() - 1) as nat),
                s.last() >= 2,
                pow2((s.len() - 1) as nat) >= 1,
        ;
    }
}

/// A product of equal entries is a power of that entry.
proof fn lemma_product_uniform(s: Seq<u32>, p: u32)
    requires
        forall|i: int| 0 <= i < s.len() ==> s[i] == p,
    ensures
        seq_product(s) == pow(p as int, s.len() as nat),
    decreases s.len(),
{
    if s.len() == 0 {
        vstd::arithmetic::power::lemma_pow0(p as int);
    } else {
        lemma_product_uniform(s.drop_last(), p);
        vstd::arithmetic::power::lemma_pow_adds(p as int, (s.len() - 1) as nat, 1);
        vstd::arithmetic::power::lemma_pow1(p as int);
        assert(pow(p as int, s.len() as nat) == pow(p as int, (s.len() - 1) as nat) * p);
    }
}

proof fn lemma_div_ge_iff(n: int, f: int)
    requires
        f >= 1,
        n >= 0,
    ensures
        (n / f >= f) <==> (f * f <= n),
{
    lemma_fundamental_div_mod(n, f);
    vstd::arithmetic::div_mod::lemma_mod_bound(n, f);
    if n / f >= f {
        vstd::arithmetic::mul::lemma_mul_inequality(f, n / f, f);
        assert((n / f) * f == f * (n / f)) by (nonlinear_arith);
    }
    if f * f <= n {
        vstd::arithmetic::div_mod::lemma_div_is_ordered(f * f, n, f);
        vstd::arithmetic::div_mod::lemma_div_multiples_vanish(f, f);
    }
}

/// The only odd divisor of a power of two is 1.
proof fn lemma_odd_divisor_of_pow2(v: int, k: nat)
    requires
        v >= 1,
        v % 2 == 1,
        (pow2(k) as int) % v == 0,
    ensures
        v == 1,
    decreases k,
{
    if k == 0 {
        lemma2_to64();
        if v >= 2 {
            lemma_small_mod(1, v as nat);
        }
    } else {
        let p = pow2((k - 1) as nat) as int;
        vstd::arithmetic::power2::lemma_pow2_adds((k - 1) as nat, 1);
        lemma2_to64();
        assert(pow2(k) == p * 2);
        let w = (2 * p) / v;
        lemma_div_exact(2 * p, v);
        if w % 2 == 1 {
            lemma_fundamental_div_mod(v, 2);
            lemma_fundamental_div_mod(w, 2);
            assert((2 * (v / 2) + 1) * (2 * (w / 2) + 1) == 2 * (2 * (v / 2) * (w / 2) + (v / 2) + (
            w / 2)) + 1) by (nonlinear_arith);
            assert(v * w == 2 * p);
            assert(false);
        } else {
            lemma_div_exact(w, 2);
            assert(v * (2 * (w / 2)) == 2 * (v * (w / 2))) by (nonlinear_arith);
            assert(2 * p == 2 * (v * (w / 2)));
            assert(p == v * (w / 2));
            lemma_mul_divides(w / 2, v, p);
            lemma_odd_divisor_of_pow2(v, (k - 1) as nat);
        }
    }
}

/// Computes the prime factors of a nonzero integer, in nondecreasing
/// order, by trial division.
pub fn trial_division(n: u32) -> (prime_factors: Vec<u32>)
    requires
        n >= 1,
    ensures
        seq_product(prime_factors@) == n,
        forall|i: int| 0 <= i < prime_factors@.len() ==> is_prime(prime_factors@[i] as int),
        forall|i: int, j: int|
            0 <= i <= j < prime_factors@.len() ==> prime_factors@[i] <= prime_factors@[j],
{
    let ghost n0 = n;
    let mut n = n;
    let mut prime_factors: Vec<u32> = Vec::new();
    while n % 2 == 0
        invariant
            1 <= n <= n0,
            seq_product(prime_factors@) * n == n0,
            forall|i: int| 0 <= i < prime_factors@.len() ==> prime_factors@[i] == 2,
        decreases n,
    {
        let ghost pf = prime_factors@;
        prime_factors.push(2);
        proof {
            assert(prime_factors@.drop_last() =~= pf);
            lemma_div_exact(n as int, 2);
            assert((seq_product(pf) * 2) * (n as int / 2) == seq_product(pf) * (2 * (n as int
                / 2))) by (nonlinear_arith);
        }
        n /= 2;
    }
    proof {
        assert(is_prime(2));
    }
    let mut f: u32 = 3;
    while n / f >= f
        invariant
            1 <= n <= n0,
            n % 2 != 0,
            3 <= f <= 65537,
            f % 2 == 1,
            seq_product(prime_factors@) * n == n0,
            forall|d: int| 2 <= d < f ==> #[trigger] ((n as int) % d) != 0,
            forall|i: int| 0 <= i < prime_factors@.len() ==> is_prime(prime_factors@[i] as int),
            forall|i: int, j: int|
                0 <= i <= j < prime_factors@.len() ==> prime_factors@[i] <= prime_factors@[j],
            forall|i: int| 0 <= i < prime_factors@.len() ==> prime_factors@[i] <= f,
            n == 1 || forall|i: int| 0 <= i < prime_factors@.len() ==> prime_factors@[i] <= n,
        decreases n, 65538 - f,
    {
        proof {
            lemma_div_ge_iff(n as int, f as int);
        }
        if n % f == 0 {
            let ghost pf = prime_factors@;
            proof {
                // f is prime: a smaller divisor of f would divide n.
                assert forall|d: int| 2 <= d < f implies #[trigger] ((f as int) % d) != 0 by {
                    if (f as int) % d == 0 {
                        lemma_div_exact(f as int, d);
                        lemma_div_exact(n as int, f as int);
                        assert((d * ((f as int) / d)) * ((n as int) / (f as int)) == d * (((
                        f as int) / d) * ((n as int) / (f as int)))) by (nonlinear_arith);
                        lemma_mul_divides(((f as int) / d) * ((n as int) / (f as int)), d, n as int);
                    }
                }
                assert(is_prime(f as int));
            }
            prime_factors.push(f);
            proof {
                assert(prime_factors@.drop_last() =~= pf);
                lemma_div_exact(n as int, f as int);
                assert((seq_product(pf) * f) * (n as int / f as int) == seq_product(pf) * ((
                f as int) * (n as int / f as int))) by (nonlinear_arith);
                // the quotient keeps every invariant: it is odd, at least f,
                // and free of divisors below f
                let q = (n as int) / (f as int);
                assert(q * f >= f * f ==> q >= f) by (nonlinear_arith)
                    requires
                        f >= 3,
                ;
                assert(f * q == q * f) by (nonlinear_arith);
                assert(q >= f);
                if q % 2 == 0 {
                    lemma_div_exact(q, 2);
                    assert((f as int) * (2 * (q / 2)) == 2 * ((f as int) * (q / 2)))
                        by (nonlinear_arith);
                    lemma_mul_divides((f as int) * (q / 2), 2, n as int);
                    assert(false);
                }
                assert forall|d: int| 2 <= d < f implies #[trigger] (q % d) != 0 by {
                    if q % d == 0 {
                        lemma_div_exact(q, d);
                        assert((f as int) * (d * (q / d)) == d * ((f as int) * (q / d)))
                            by (nonlinear_arith);
                        lemma_mul_divides((f as int) * (q / d), d, n as int);
                    }
                }
                vstd::arithmetic::div_mod::lemma_div_decreases(n as int, f as int);
            }
            n /= f;
        } else {
            proof {
                // f + 1 is even, so it cannot divide the odd remainder
                let e = f as int + 1;
                if (n as int) % e == 0 {
                    lemma_div_exact(n as int, e);
                    lemma_div_exact(e, 2);
                    assert((2 * (e / 2)) * ((n as int) / e) == 2 * ((e / 2) * ((n as int) / e)))
                        by (nonlinear_arith);
                    lemma_mul_divides((e / 2) * ((n as int) / e), 2, n as int);
                    assert(false);
                }
                assert(f < 65536) by (nonlinear_arith)
                    requires
                        (f as int) * (f as int) <= n as int,
                        n as int <= 4294967295int,
                        f >= 3,
                ;
            }
            f += 2;
        }
    }
    if n != 1 {
        let ghost pf = prime_factors@;
        proof {
            lemma_div_ge_iff(n as int, f as int);
            assert forall|d: int| 2 <= d < n implies #[trigger] ((n as int) % d) != 0 by {
                if (n as int) % d == 0 {
                    let k = (n as int) / d;
                    lemma_div_exact(n as int, d);
                    assert(k >= 2 && k * d == n as int) by (nonlinear_arith)
                        requires
                            n as int == d * k,
                            2 <= d < n,
                            n >= 2,
                    ;
                    if d < f {
                        assert((n as int) % d != 0);
                    } else {
                        assert(k < f) by (nonlinear_arith)
                            requires
                                k * d == n as int,
                                d >= f,
                                (f as int) * (f as int) > n as int,
                                k >= 2,
                                f >= 3,
                        ;
                        lemma_mul_divides(d, k, n as int);
                    }
                }
            }
            assert(is_prime(n as int));
        }
        prime_factors.push(n);
        proof {
            assert(prime_factors@.drop_last() =~= pf);
        }
    }
    prime_factors
}

/// Determines whether a number is a power of a single prime, returning
/// that prime and its exponent.
pub fn prime_power(q: u32) -> (r: Result<(u32, u32), &'static str>)
    requires
        q >= 1,
    ensures
        r.is_ok() ==> is_prime(r.unwrap().0 as int) && r.unwrap().1 >= 1 && pow(
            r.unwrap().0 as int,
            r.unwrap().1 as nat,
        ) == q,
        r.is_err() ==> q == 1 || exists|a: int, b: int|
            is_prime(a) && is_prime(b) && a != b && #[trigger] ((q as int) % a) == 0 && #[trigger] (
            (q as int) % b) == 0,
        (exists|k: nat| k >= 1 && q == pow2(k)) ==> r.is_ok() && r.unwrap().0 == 2,
{
    let prime_factors = trial_division(q);
    proof {
        lemma_product_min(prime_factors@);
        lemma2_to64();
        if prime_factors@.len() > 32 {
            lemma_pow2_strictly_increases(32, prime_factors@.len() as nat);
            assert(false);
        }
        lemma_product_all_divide(prime_factors@, q as int);
        if exists|k: nat| k >= 1 && q == pow2(k) {
            let k = choose|k: nat| k >= 1 && q == pow2(k);
            assert forall|i: int| 0 <= i < prime_factors@.len() implies prime_factors@[i] == 2 by {
                let v = prime_factors@[i] as int;
                if v != 2 {
                    assert(v % 2 != 0);
                    lemma_odd_divisor_of_pow2(v, k);
                }
            }
            vstd::arithmetic::power2::lemma_pow2_pos(k);
            if prime_factors@.len() == 0 {
                lemma_pow2_strictly_increases(0, k);
                assert(false);
            }
        }
    }
    let m = prime_factors.len() as u32;
    if prime_factors.len() == 0 {
        return Err("Number is not prime");
    }
    let p = prime_factors[0];
    let mut i: usize = 1;
    while i < prime_factors.len()
        invariant
            1 <= i <= prime_factors@.len(),
            p == prime_factors@[0],
            forall|j: int| 0 <= j < i ==> prime_factors@[j] == p,
            forall|j: int| 0 <= j < prime_factors@.len() ==> is_prime(prime_factors@[j] as int),
            forall|j: int| 0 <= j < prime_factors@.len() ==> #[trigger] ((q as int) % (
            prime_factors@[j] as int)) == 0,
        decreases prime_factors@.len() - i,
    {
        if prime_factors[i] != p {
            proof {
                let a = p as int;
                let b = prime_factors@[i as int] as int;
                assert(is_prime(a) && is_prime(b) && a != b && (q as int) % a == 0 && (q as int)
                    % b == 0);
                if exists|k: nat| k >= 1 && q == pow2(k) {
                    let k = choose|k: nat| k >= 1 && q == pow2(k);
                    if a != 2 {
                        lemma_odd_divisor_of_pow2(a, k);
                    }
                    if b != 2 {
                        lemma_odd_divisor_of_pow2(b, k);
                    }
                    assert(false);
                }
            }
            return Err("Number is not prime");
        }
        i += 1;
    }
    proof {
        lemma_product_uniform(prime_factors@, p);
    }
    Ok((p, m))
}

/// The primitive polynomial used to generate the field of order
/// 2^`m`, as a bit pattern over its coefficients.
pub open spec fn spec_poly(m: int) -> u32 {
    if m == 2 {
        0x7
    } else if m == 3 {
        0xB
    } else if m == 4 {
        0x13
    } else if m == 5 {
        0x25
    } else if m == 6 {
        0x43
    } else if m == 7 {
        0x83
    } else if m == 8 {
        0x11D
    } else if m == 9 {
        0x211
    } else if m == 10 {
        0x409
    } else if m == 11 {
        0x805
    } else if m == 12 {
        0x1053
    } else if m == 13 {
        0x201B
    } else if m == 14 {
        0x4143
    } else if m == 15 {
        0x8003
    } else {
        0x110B
    }
}

/// Returns a primitive polynomial which can be used to generate the
/// finite field of the given order, a power of 2 between 2^2 and 2^16.
pub fn primitive_poly(order: usize) -> (r: u32)
    requires
        exists|m: nat| 2 <= m <= 16 && order == pow2(m),
    ensures
        forall|m: nat| 2 <= m <= 16 && order == pow2(m) ==> r == spec_poly(m as int),
{
    proof {
        let m = choose|m: nat| 2 <= m <= 16 && order == pow2(m);
        lemma2_to64();
        vstd::arithmetic::power2::lemma2_to64_rest();
        assert(pow2(16) == 65536);
        if m < 16 {
            lemma_pow2_strictly_increases(m, 16);
        }
        assert(order <= 65536);
        assert(order >= 4) by {
            if m > 2 {
                lemma_pow2_strictly_increases(2, m);
            }
        }
        assert((order as u32) == pow2(m) && m >= 1);
        assert(exists|k: nat| k >= 1 && (order as u32) == pow2(k));
    }
    let r = prime_power(order as u32);
    match r {
        Ok((_, m)) => {
            proof {
                let mr = choose|mr: nat| 2 <= mr <= 16 && order == pow2(mr);
                lemma_pow2(m as nat);
                assert(pow(2, m as nat) == pow2(m as nat));
                assert(pow2(m as nat) == pow2(mr));
                if (m as nat) < mr {
                    lemma_pow2_strictly_increases(m as nat, mr);
                }
                if mr < (m as nat) {
                    lemma_pow2_strictly_increases(mr, m as nat);
                }
                assert(m == mr);
            }
            match m {
                2 => 0x7,
                3 => 0xB,
                4 => 0x13,
                5 => 0x25,
                6 => 0x43,
                7 => 0x83,
                8 => 0x11D,
                9 => 0x211,
                10 => 0x409,
                11 => 0x805,
                12 => 0x1053,
                13 => 0x201B,
                14 => 0x4143,
                15 => 0x8003,
                16 => 0x110B,
                _ => {
                    proof {
                        assert(false);
                    }
                    0
                },
            }
        },
        Err(_) => {
            proof {
                assert(false);
            }
            0
        },
    }
}

/// Declares rand's thread-local generator type, so that drawing a
/// random field element can take the caller's generator.
#[verifier::external_type_specification]
#[verifier::external_body]
pub struct ExThreadRng(rand::rngs::ThreadRng);

/// Relies on rand's `Rng::gen_range`: returns a value in `[low, high)`
/// and panics unless `low < high`.
#[verifier::external_body]
fn gen_range_u32(rng: &mut rand::rngs::ThreadRng, low: u32, high: u32) -> (r: u32)
    requires
        low < high,
    ensures
        low <= r < high,
{
    rng.gen_range(low, high)
}

/// Element `i` of the exponent table: the running element is doubled
/// each step and reduced by the primitive polynomial whenever it
/// leaves the field.
pub open spec fn gen_elt(order: int, poly: u32, i: int) -> u32
    decreases i,
{
    if i <= 0 {
        1u32
    } else {
        let d = (2 * gen_elt(order, poly, i - 1)) as u32;
        if d >= order {
            d ^ poly
        } else {
            d
        }
    }
}

/// Entry `v` of the logarithm table after `i` generation steps: the
/// largest step at which the running element equalled `v`, or 0.
pub open spec fn gen_log(order: int, poly: u32, v: int, i: int) -> u32
    decreases i,
{
    if i <= 0 {
        0u32
    } else if gen_elt(order, poly, i) == v {
        i as u32
    } else {
        gen_log(order, poly, v, i - 1)
    }
}

/// Finite field of order 2<sup>m</sup>, backed by exponent and
/// logarithm tables over a primitive element.
#[derive(Eq)]
pub struct F2m {
    order: usize,
    m: u32,
    exp: Vec<u32>,
    log: Vec<u32>,
}

impl PartialEq for F2m {
    fn eq(&self, other: &Self) -> (r: bool) {
        self.order == other.order
    }
}

impl vstd::std_specs::cmp::PartialEqSpecImpl for F2m {
    open spec fn obeys_eq_spec() -> bool {
        true
    }

    open spec fn eq_spec(&self, other: &Self) -> bool {
        self.spec_order() == other.spec_order()
    }
}

proof fn lemma_poly_bounds(m: nat)
    requires
        2 <= m <= 15,
    ensures
        pow2(m) <= spec_poly(m as int) < pow2(m + 1),
{
    lemma2_to64();
}

proof fn lemma_xor_reduce(e: u32, p: u32, m: u32)
    by (bit_vector)
    requires
        2 <= m,
        m <= 15,
        (1u32 << m) <= e,
        e < (1u32 << m) * 2,
        (1u32 << m) <= p,
        p < (1u32 << m) * 2,
    ensures
        (e ^ p) < (1u32 << m),
{
}

impl F2m {
    /// The number of elements of the field.
    pub closed spec fn spec_order(&self) -> int {
        self.order as int
    }

    /// The exponent of the field order as a power of the
    /// characteristic.
    pub closed spec fn spec_m(&self) -> u32 {
        self.m
    }

    /// The exponent table: entry `i` is the `i`-th power of the
    /// primitive element.
    pub closed spec fn exp_table(&self) -> Seq<u32> {
        self.exp@
    }

    /// The logarithm table, inverse to the exponent table.
    pub closed spec fn log_table(&self) -> Seq<u32> {
        self.log@
    }

    /// The tables have the field's size and all entries index back
    /// into the field.
    pub open spec fn wf(&self) -> bool {
        &&& 4 <= self.spec_order() <= 32768
        &&& self.exp_table().len() == self.spec_order()
        &&& self.log_table().len() == self.spec_order()
        &&& forall|i: int| 0 <= i < self.spec_order() ==> self.exp_table()[i] < self.spec_order()
        &&& forall|i: int| 0 <= i < self.spec_order() ==> self.log_table()[i] < self.spec_order()
    }

    /// Generates the finite field of the given order, a power of 2
    /// between 2^2 and 2^15.
    pub fn generate(order: usize) -> (f: F2m)
        requires
            exists|m: nat| 2 <= m <= 15 && order == pow2(m),
        ensures
            f.wf(),
            f.spec_order() == order,
            forall|mm: nat| 2 <= mm <= 15 && order == pow2(mm) ==> {
                &&& f.spec_m() == mm
                &&& (forall|i: int|
                    0 <= i < order ==> f.exp_table()[i] == gen_elt(
                        order as int,
                        spec_poly(mm as int),
                        i,
                    ))
                &&& (forall|v: int|
                    0 <= v < order ==> f.log_table()[v] == gen_log(
                        order as int,
                        spec_poly(mm as int),
                        v,
                        order - 1,
                    ))
            },
    {
        let ghost mg = choose|m: nat| 2 <= m <= 15 && order == pow2(m);
        proof {
            lemma2_to64();
            if mg < 15 {
                lemma_pow2_strictly_increases(mg, 15);
            }
            if mg > 2 {
                lemma_pow2_strictly_increases(2, mg);
            }
            assert(4 <= order <= 32768);
            assert((order as u32) == pow2(mg) && mg >= 1);
            assert(exists|k: nat| k >= 1 && (order as u32) == pow2(k));
            assert(exists|k: nat| 2 <= k <= 16 && order == pow2(k));
        }
        let m: u32 = match prime_power(order as u32) {
            Ok(r) => {
                proof {
                    lemma_pow2(r.1 as nat);
                    if (r.1 as nat) < mg {
                        lemma_pow2_strictly_increases(r.1 as nat, mg);
                    }
                    if mg < (r.1 as nat) {
                        lemma_pow2_strictly_increases(mg, r.1 as nat);
                    }
                }
                r.1
            },
            Err(s) => {
                proof {
                    assert(false);
                }
                0
            },
        };
        let poly = primitive_poly(order);
        proof {
            lemma_poly_bounds(mg);
            lemma_u32_shl_is_mul(1u32, mg as u32);
            lemma_pow2((mg + 1) as nat);
            vstd::arithmetic::power::lemma_pow_adds(2, mg, 1);
            vstd::arithmetic::power::lemma_pow1(2);
            lemma_pow2(mg);
            assert(pow2(mg + 1) == pow2(mg) * 2);
        }
        let mut exp: Vec<u32> = Vec::new();
        let mut log: Vec<u32> = Vec::new();
        let mut z: usize = 0;
        while z < order
            invariant
                z <= order,
                exp@.len() == z,
                log@.len() == z,
                forall|j: int| 0 <= j < z ==> exp@[j] == 0,
                forall|j: int| 0 <= j < z ==> log@[j] == 0,
            decreases order - z,
        {
            exp.push(0);
            log.push(0);
            z += 1;
        }
        exp[0] = 1;
        log[1] = 0;
        let mut elt: u32 = 1;
        let mut i: usize = 1;
        proof {
            assert(forall|v: int|
                0 <= v < order ==> log@[v] == gen_log(order as int, spec_poly(mg as int), v, 0));
        }
        while i < order
            invariant
                1 <= i <= order,
                4 <= order <= 32768,
                order == pow2(mg),
                2 <= mg <= 15,
                (1u32 << (mg as u32)) == order,
                pow2(mg) <= spec_poly(mg as int) < pow2(mg + 1),
                pow2(mg + 1) == pow2(mg) * 2,
                poly == spec_poly(mg as int),
                exp@.len() == order,
                log@.len() == order,
                elt == gen_elt(order as int, poly, i - 1),
                elt < order,
                exp@[0] == 1,
                forall|j: int| 0 <= j < i ==> exp@[j] == gen_elt(order as int, poly, j),
                forall|j: int| 0 <= j < order ==> exp@[j] < order,
                forall|j: int| 0 <= j < order ==> log@[j] < order,
                forall|v: int|
                    0 <= v < order ==> log@[v] == gen_log(order as int, poly, v, i - 1),
            decreases order - i,
        {
            elt = elt * 2;
            if elt >= order as u32 {
                proof {
                    lemma_xor_reduce(elt, poly, mg as u32);
                }
                elt = elt ^ poly;
            }
            exp[i] = elt;
            log[elt as usize] = i as u32;
            i += 1;
        }
        F2m { order, m, exp, log }
    }

    /// The number of elements of the field.
    pub fn order(&self) -> (r: usize)
        ensures
            r == self.spec_order(),
    {
        self.order
    }

    /// Returns identity element of field addition.
    pub fn zero(&self) -> (r: u32)
        ensures
            r == 0,
    {
        0
    }

    /// Returns identity element of field multiplication.
    pub fn one(&self) -> (r: u32)
        ensures
            r == 1,
    {
        1
    }

    /// Returns field characteristic.
    pub fn characteristic(&self) -> (r: usize)
        ensures
            r == 2,
    {
        2
    }

    /// Field addition: XOR of the coefficient vectors.
    pub fn add(&self, a: u32, b: u32) -> (r: u32)
        ensures
            r == a ^ b,
    {
        a ^ b
    }

    /// Adds element `b` to element `a` in place.
    pub fn add_assign(&self, a: &mut u32, b: &u32)
        ensures
            *final(a) == *old(a) ^ *b,
    {
        *a = self.add(*a, *b);
    }

    /// Field subtraction coincides with addition in characteristic 2.
    pub fn sub(&self, a: u32, b: u32) -> (r: u32)
        ensures
            r == a ^ b,
    {
        self.add(a, b)
    }

    /// The product of two field elements through the logarithm and
    /// exponent tables.
    pub open spec fn spec_mul(&self, a: u32, b: u32) -> u32 {
        if a == 0 || b == 0 {
            0u32
        } else {
            let s = self.log_table()[a as int] + self.log_table()[b as int];
            let t = if s >= self.spec_order() {
                s - (self.spec_order() - 1)
            } else {
                s
            };
            self.exp_table()[t]
        }
    }

    /// Multiplies two field elements.
    pub fn mul(&self, a: u32, b: u32) -> (r: u32)
        requires
            self.wf(),
            a < self.spec_order(),
            b < self.spec_order(),
        ensures
            r == self.spec_mul(a, b),
    {
        let q = self.order as u32;
        if a == 0 || b == 0 {
            0
        } else {
            let s = self.log[a as usize] + self.log[b as usize];
            let t = if s >= q {
                s - (q - 1)
            } else {
                s
            };
            self.exp[t as usize]
        }
    }

    /// Returns additive inverse of an element: itself.
    pub fn neg(&self, a: u32) -> (r: u32)
        ensures
            r == a,
    {
        a
    }

    /// Returns the multiplicative inverse of a nonzero element through
    /// the tables, and nothing for zero.
    pub fn inv(&self, a: u32) -> (r: Option<u32>)
        requires
            self.wf(),
            a < self.spec_order(),
        ensures
            a == 0 ==> r.is_none(),
            a != 0 ==> r == Some(
                self.exp_table()[self.spec_order() - 1 - self.log_table()[a as int]],
            ),
    {
        let q = self.order as u32;
        if a == 0 {
            None
        } else {
            Some(self.exp[(q - 1 - self.log[a as usize]) as usize])
        }
    }

    /// Draws a uniformly random field element.
    pub fn random_element(&self, rng: &mut rand::rngs::ThreadRng) -> (r: u32)
        requires
            self.wf(),
        ensures
            r < self.spec_order(),
    {
        gen_range_u32(rng, 0, self.order as u32)
    }

    /// Returns m where the field order is 2^m.
    pub fn characteristic_exponent(&self) -> (r: u32)
        ensures
            r == self.spec_m(),
    {
        self.m
    }

    /// The `n`-th power of the primitive element.
    pub fn exp(&self, n: u32) -> (r: u32)
        requires
            self.wf(),
            n < self.spec_order(),
        ensures
            r == self.exp_table()[n as int],
    {
        self.exp[n as usize]
    }

    /// The logarithm of a nonzero element, and nothing for zero.
    pub fn log(&self, a: u32) -> (r: Option<u32>)
        requires
            self.wf(),
            a < self.spec_order(),
        ensures
            a == 0 ==> r.is_none(),
            a != 0 ==> r == Some(self.log_table()[a as int]),
    {
        if a == 0 {
            None
        } else {
            Some(self.log[a as usize])
        }
    }

    /// A field element as a plain number.
    pub fn elt_to_u32(&self, a: u32) -> (r: u32)
        ensures
            r == a,
    {
        a
    }

    /// A plain number below the field order as a field element.
    pub fn u32_to_elt(&self, n: u32) -> (r: u32)
        requires
            n < self.spec_order(),
        ensures
            r == n,
    {
        n
    }
}

} // verus!
