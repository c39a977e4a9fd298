//! Validation of Goppa code parameters: the code length and
//! correction capacity a key generator may use, with their defaults.

use vstd::prelude::*;

use vstd::arithmetic::power2::{lemma2_to64, lemma_pow2_adds, lemma_pow2_strictly_increases, pow2};

verus! {

/// `k` is the exponent of the smallest power of two at least `n`.
pub open spec fn ceil_exp(n: int, k: nat) -> bool {
    pow2(k) >= n && (k == 0 || pow2((k - 1) as nat) < n)
}

/// The smallest power of two at least `n`, with its exponent.
fn next_power_of_two_exp(n: u32) -> (r: (u32, u32))
    requires
        1 <= n <= 2048,
    ensures
        r.0 == pow2(r.1 as nat),
        r.0 >= n,
        ceil_exp(n as int, r.1 as nat),
        r.1 <= 11,
{
    let mut p: u32 = 1;
    let mut k: u32 = 0;
    proof {
        lemma2_to64();
    }
    while p < n
        invariant
            1 <= n <= 2048,
            p == pow2(k as nat),
            p <= 2048,
            k <= 11,
            k == 0 || pow2((k - 1) as nat) < n,
        decreases 12 - k,
    {
        proof {
            lemma_pow2_adds(k as nat, 1);
            lemma2_to64();
            if k >= 11 {
                // p == pow2(k) >= 2048 >= n, so the loop would have ended
                if (k as nat) > 11 {
                    lemma_pow2_strictly_increases(11, k as nat);
                }
                assert(p >= 2048);
                assert(false);
            }
        }
        p = p * 2;
        k = k + 1;
    }
    (p, k)
}

/// The requested code length, or its default of 1024.
pub open spec fn n_of(n_opt: Option<u32>) -> int {
    if n_opt.is_some() {
        n_opt.unwrap() as int
    } else {
        1024
    }
}

/// The requested correction capacity, or its default of 50.
pub open spec fn t_of(t_opt: Option<u32>) -> int {
    if t_opt.is_some() {
        t_opt.unwrap() as int
    } else {
        50
    }
}

/// The field exponent belonging to length `n` and capacity `t`: one
/// more than the exponent of `n`'s enclosing power of two when `t` is
/// 1 and `n` is itself a power of two.
pub open spec fn field_exp(n: int, t: int, k: nat) -> int {
    if t == 1 && pow2(k) == n {
        k as int + 1
    } else {
        k as int
    }
}

/// Checks a requested code length and correction capacity, filling in
/// the defaults of 1024 and 50: the length must lie between 3 and
/// 2048, and must exceed the capacity times the field exponent of the
/// enclosing power of two.
pub fn get_code_params(n_opt: Option<u32>, t_opt: Option<u32>) -> (r: Result<
    (usize, usize),
    &'static str,
>)
    ensures
        (n_of(n_opt) < 3 || n_of(n_opt) > 2048) ==> r.is_err(),
        (3 <= n_of(n_opt) <= 2048) ==> forall|k: nat|
            ceil_exp(n_of(n_opt), k) ==> (((n_of(n_opt) > field_exp(n_of(n_opt), t_of(t_opt), k)
                * t_of(t_opt)) <==> (r.is_ok() && r.unwrap() == (
            n_of(n_opt) as usize,
            t_of(t_opt) as usize,
            ))) && ((n_of(n_opt) <= field_exp(n_of(n_opt), t_of(t_opt), k) * t_of(t_opt))
                ==> r.is_err())),
{
    let n: u32 = match n_opt {
        None => 1024,
        Some(length) => length,
    };
    if n < 3 || 2048 < n {
        return Err("Code length n must be at least 3 and at most 2048");
    }
    let t: u32 = match t_opt {
        None => 50,
        Some(correction) => correction,
    };
    let pk = next_power_of_two_exp(n);
    let m: u32 = if t == 1 && pk.0 == n {
        pk.1 + 1
    } else {
        pk.1
    };
    proof {
        assert forall|k: nat| ceil_exp(n as int, k) implies k == pk.1 as nat by {
            if k < pk.1 as nat {
                if k == 0 {
                    if (pk.1 as nat) > 1 {
                        lemma_pow2_strictly_increases(0, (pk.1 - 1) as nat);
                    }
                    lemma2_to64();
                } else {
                    if k < (pk.1 - 1) as nat {
                        lemma_pow2_strictly_increases(k, (pk.1 - 1) as nat);
                    }
                }
            }
            if k > pk.1 as nat {
                if (pk.1 as nat) < (k - 1) as nat {
                    lemma_pow2_strictly_increases(pk.1 as nat, (k - 1) as nat);
                }
            }
        }
        assert((m as int) * (t as int) <= 12 * 0x1_0000_0000int) by (nonlinear_arith)
            requires
                m <= 12,
                t <= 0xFFFF_FFFF,
        ;
    }
    if (n as u64) <= (m as u64) * (t as u64) {
        return Err("The ratio n/t is not large enough. Pick a larger n or a smaller t.");
    }
    Ok((n as usize, t as usize))
}

} // verus!
