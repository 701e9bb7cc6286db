//! Fixed-point arithmetic for the search engine's expectation score.
//!
//! The UCT expectation of a node is `wins / visits + sqrt(2 ln(parent_visits)
//! / visits)`.  The engine evaluates it in `Q.16` fixed point (sixteen
//! fractional bits): the natural logarithm is interpolated linearly between
//! consecutive powers of two, and the square root is an integer square root.
//! Every step is exactly specified, so the score of a node is a deterministic
//! function of its statistics.

use vstd::prelude::*;

verus! {

/// The fixed-point scale: scores carry sixteen fractional bits.
pub const FP_ONE: u64 = 65536;

/// `ln(2)` in `Q.16` fixed point.
pub const LN2_FP: u64 = 45426;

/// Number of binary digits of `n`: zero for zero, otherwise the position of
/// the highest set bit plus one.
pub open spec fn spec_bitlen(n: int) -> int
    decreases n,
{
    if n <= 0 {
        0
    } else {
        1 + spec_bitlen(n / 2)
    }
}

proof fn lemma_bitlen_pow(n: int, k: nat)
    requires
        0 <= n,
        n < vstd::arithmetic::power2::pow2(k),
    ensures
        spec_bitlen(n) <= k,
    decreases n,
{
    if n > 0 {
        if k == 0 {
            assert(vstd::arithmetic::power2::pow2(0) == 1) by {
                vstd::arithmetic::power2::lemma2_to64();
            }
        }
        vstd::arithmetic::power2::lemma_pow2_unfold(k);
        lemma_bitlen_pow(n / 2, (k - 1) as nat);
    }
}

proof fn lemma_bitlen_le_64(n: u64)
    ensures
        0 <= spec_bitlen(n as int) <= 64,
{
    vstd::arithmetic::power2::lemma2_to64_rest();
    assert((n as int) < vstd::arithmetic::power2::pow2(64));
    lemma_bitlen_pow(n as int, 64);
    lemma_bitlen_nonneg(n as int);
}

proof fn lemma_bitlen_nonneg(n: int)
    ensures
        0 <= spec_bitlen(n),
    decreases n,
{
    if n > 0 {
        lemma_bitlen_nonneg(n / 2);
    }
}

fn bitlen(n: u64) -> (r: u64)
    ensures
        r == spec_bitlen(n as int),
        r <= 64,
{
    proof {
        lemma_bitlen_le_64(n);
    }
    let mut m = n;
    let mut c: u64 = 0;
    while m > 0
        invariant
            c + spec_bitlen(m as int) == spec_bitlen(n as int),
            0 <= spec_bitlen(n as int) <= 64,
            0 <= spec_bitlen(m as int),
        decreases m,
    {
        proof {
            lemma_bitlen_nonneg(m as int / 2);
        }
        m = m / 2;
        c = c + 1;
    }
    c
}

/// The largest power of two that is not above `n` (and `1` for `n <= 1`).
pub open spec fn spec_msb(n: int) -> int
    decreases n,
{
    if n <= 1 {
        1
    } else {
        2 * spec_msb(n / 2)
    }
}

proof fn lemma_msb_bounds(n: int)
    requires
        n >= 1,
    ensures
        1 <= spec_msb(n) <= n < 2 * spec_msb(n),
    decreases n,
{
    if n > 1 {
        lemma_msb_bounds(n / 2);
    }
}

fn msb(n: u64) -> (r: u64)
    requires
        n >= 1,
    ensures
        r == spec_msb(n as int),
        r <= n < 2 * r,
{
    proof {
        lemma_msb_bounds(n as int);
    }
    let mut m = n;
    let mut p: u64 = 1;
    while m > 1
        invariant
            m >= 1,
            n >= 1,
            p >= 1,
            p * spec_msb(m as int) == spec_msb(n as int),
            1 <= spec_msb(n as int) <= n,
        decreases m,
    {
        proof {
            lemma_msb_bounds(m as int);
            lemma_msb_bounds(m as int / 2);
            assert(spec_msb(m as int) == 2 * spec_msb(m as int / 2));
            assert((p * 2) * spec_msb(m as int / 2) == p * spec_msb(m as int)) by (nonlinear_arith)
                requires
                    spec_msb(m as int) == 2 * spec_msb(m as int / 2),
            ;
            assert(p * 2 <= p * spec_msb(m as int)) by (nonlinear_arith)
                requires
                    p >= 1,
                    spec_msb(m as int) == 2 * spec_msb(m as int / 2),
                    spec_msb(m as int / 2) >= 1,
            ;
        }
        m = m / 2;
        p = p * 2;
    }
    proof {
        assert(spec_msb(m as int) == 1);
        lemma_msb_bounds(n as int);
    }
    p
}

/// The natural logarithm of `n` in `Q.16` fixed point, interpolated linearly
/// between consecutive powers of two: for `p <= n < 2p` with `p` the largest
/// power of two in `n`, `ln n` is rendered as `ln p + ((n - p) / p) ln 2`.
pub open spec fn spec_ln_fp(n: int) -> int
    recommends
        n >= 1,
{
    (spec_bitlen(n) - 1) * LN2_FP + ((n - spec_msb(n)) * LN2_FP) / spec_msb(n)
}

pub fn ln_fp(n: u64) -> (r: u64)
    requires
        1 <= n < 0x1_0000_0000_0000,
    ensures
        r == spec_ln_fp(n as int),
        r < 64 * LN2_FP,
{
    let b = bitlen(n);
    let p = msb(n);
    proof {
        assert(b >= 1) by {
            lemma_bitlen_nonneg(n as int / 2);
        }
        assert(n - p < p);
        assert((n - p) * (LN2_FP as int) < p * (LN2_FP as int)) by (nonlinear_arith)
            requires
                0 <= n - p < p,
        ;
        assert(p * (LN2_FP as int) <= n * (LN2_FP as int)) by (nonlinear_arith)
            requires
                0 <= p <= n,
        ;
        assert(0 <= ((n - p) * (LN2_FP as int)) / (p as int)) by {
            vstd::arithmetic::div_mod::lemma_div_pos_is_pos((n - p) * (LN2_FP as int), p as int);
        }
        assert(((n - p) * (LN2_FP as int)) / (p as int) < LN2_FP as int) by {
            vstd::arithmetic::div_mod::lemma_multiply_divide_lt(
                (n - p) * (LN2_FP as int),
                p as int,
                LN2_FP as int,
            );
        }
        assert((b - 1) * (LN2_FP as int) <= 63 * (LN2_FP as int)) by (nonlinear_arith)
            requires
                1 <= b <= 64,
        ;
        assert(0 <= (b - 1) * (LN2_FP as int)) by (nonlinear_arith)
            requires
                1 <= b,
        ;
    }
    (b - 1) * LN2_FP + ((n - p) * LN2_FP) / p
}

/// The integer square root: the largest `r` with `r * r <= x`.
pub open spec fn spec_isqrt(x: int) -> int
    decreases x,
{
    if x <= 0 {
        0
    } else {
        let r = spec_isqrt(x - 1);
        if (r + 1) * (r + 1) <= x {
            r + 1
        } else {
            r
        }
    }
}

pub proof fn lemma_isqrt_bounds(x: int)
    requires
        x >= 0,
    ensures
        0 <= spec_isqrt(x),
        spec_isqrt(x) * spec_isqrt(x) <= x,
        x < (spec_isqrt(x) + 1) * (spec_isqrt(x) + 1),
    decreases x,
{
    if x > 0 {
        lemma_isqrt_bounds(x - 1);
        let r0 = spec_isqrt(x - 1);
        assert(r0 * r0 <= x - 1);
        assert(x - 1 < (r0 + 1) * (r0 + 1));
        if (r0 + 1) * (r0 + 1) <= x {
            assert(spec_isqrt(x) == r0 + 1);
            assert(x == (r0 + 1) * (r0 + 1));
            assert((r0 + 1) * (r0 + 1) < (r0 + 2) * (r0 + 2)) by (nonlinear_arith)
                requires
                    r0 >= 0,
            ;
        } else {
            assert(spec_isqrt(x) == r0);
        }
    }
}

/// The bounds `r * r <= x < (r + 1) * (r + 1)` determine `r` uniquely.
pub proof fn lemma_isqrt_unique(x: int, r: int)
    requires
        0 <= r,
        r * r <= x,
        x < (r + 1) * (r + 1),
    ensures
        r == spec_isqrt(x),
{
    lemma_isqrt_bounds(x);
    let s = spec_isqrt(x);
    if r < s {
        assert((r + 1) * (r + 1) <= s * s) by (nonlinear_arith)
            requires
                0 <= r,
                r + 1 <= s,
        ;
    } else if s < r {
        assert((s + 1) * (s + 1) <= r * r) by (nonlinear_arith)
            requires
                0 <= s,
                s + 1 <= r,
        ;
    }
}

pub fn isqrt(x: u64) -> (r: u64)
    ensures
        r == spec_isqrt(x as int),
        r * r <= x,
{
    let mut lo: u64 = 0;
    let mut hi: u64 = 0x1_0000_0000;
    proof {
        assert((x as int) < 0x1_0000_0000 * 0x1_0000_0000);
    }
    while lo + 1 < hi
        invariant
            lo < hi <= 0x1_0000_0000,
            (lo as int) * (lo as int) <= x as int,
            (x as int) < (hi as int) * (hi as int),
        decreases hi - lo,
    {
        let mid = lo + (hi - lo) / 2;
        proof {
            assert(mid * mid <= 0xFFFF_FFFFu64 * 0xFFFF_FFFFu64) by (nonlinear_arith)
                requires
                    mid <= 0xFFFF_FFFFu64,
            ;
        }
        if mid * mid <= x {
            lo = mid;
        } else {
            hi = mid;
        }
    }
    proof {
        assert(hi == lo + 1);
        lemma_isqrt_unique(x as int, lo as int);
    }
    lo
}

} // verus!
