//! Fixed-point arithmetic: a value `v` stands for the real number `v / ONE`.

use vstd::prelude::*;
use vstd::arithmetic::div_mod::{lemma_fundamental_div_mod, lemma_fundamental_div_mod_converse};

verus! {

/// The fixed-point representation of 1.0.
pub const ONE: i64 = 1048576;

/// Largest value of an `i32`, as a mathematical integer.
pub open spec fn i32_max() -> int {
    0x7fff_ffff
}

/// `x` limited to the interval `[lo, hi]`.
pub open spec fn clamp(x: int, lo: int, hi: int) -> int {
    if x < lo {
        lo
    } else if x > hi {
        hi
    } else {
        x
    }
}

/// Floor of the square root of `n`.
pub open spec fn is_isqrt(n: int, r: int) -> bool {
    0 <= r && r * r <= n < (r + 1) * (r + 1)
}

/// The floor of the square root of a non-negative `n`.
pub open spec fn sqrt_floor(n: int) -> int {
    choose|r: int| is_isqrt(n, r)
}

pub proof fn lemma_isqrt_unique(n: int, r: int)
    requires
        is_isqrt(n, r),
    ensures
        sqrt_floor(n) == r,
{
    let q = sqrt_floor(n);
    assert(is_isqrt(n, q));
    if q < r {
        assert((q + 1) * (q + 1) <= r * r) by (nonlinear_arith)
            requires
                0 <= q < r,
        ;
    } else if r < q {
        assert((r + 1) * (r + 1) <= q * q) by (nonlinear_arith)
            requires
                0 <= r < q,
        ;
    }
}

/// The floor of the square root of `n`, by bisection.
pub fn isqrt(n: u128) -> (r: u128)
    ensures
        is_isqrt(n as int, r as int),
        r == sqrt_floor(n as int),
        r < 0x1_0000_0000_0000_0000,
{
    // Invariant: lo * lo <= n < hi * hi.
    let mut lo: u128 = 0;
    let mut hi: u128 = 0x1_0000_0000_0000_0000;
    assert(n < hi * hi) by (nonlinear_arith)
        requires
            hi == 0x1_0000_0000_0000_0000u128,
            n <= u128::MAX,
    ;
    while hi - lo > 1
        invariant
            lo < hi <= 0x1_0000_0000_0000_0000,
            lo * lo <= n,
            n < hi * hi,
        decreases hi - lo,
    {
        let mid: u128 = lo + (hi - lo) / 2;
        assert(mid * mid < 0x1_0000_0000_0000_0000 * 0x1_0000_0000_0000_0000) by (nonlinear_arith)
            requires
                mid < 0x1_0000_0000_0000_0000,
        ;
        if mid * mid <= n {
            lo = mid;
        } else {
            hi = mid;
        }
    }
    assert(hi == lo + 1);
    proof {
        lemma_isqrt_unique(n as int, lo as int);
    }
    lo
}

/// `a / b` rounded towards negative infinity.
pub fn div_floor(a: i128, b: i128) -> (r: i128)
    requires
        b > 0,
        -0x1000_0000_0000_0000_0000_0000_0000 <= a <= 0x1000_0000_0000_0000_0000_0000_0000,
        b <= 0x1000_0000_0000_0000_0000_0000_0000,
    ensures
        r == a / b,
{
    if a >= 0 {
        a / b
    } else {
        let q = (-a + b - 1) / b;
        assert(-q == a / b) by (nonlinear_arith)
            requires
                a < 0,
                b > 0,
                q as int == (-(a as int) + b - 1) / (b as int),
        ;
        -q
    }
}

/// `a` reduced into `[0, m)`.
pub fn mod_floor(a: i128, m: i128) -> (r: i128)
    requires
        m > 0,
        a > i128::MIN,
    ensures
        r == a % m,
        0 <= r < m,
{
    if a >= 0 {
        a % m
    } else {
        let t = (-a) % m;
        let r = if t == 0 { 0 } else { m - t };
        proof {
            let na = -(a as int);
            let k = na / (m as int);
            lemma_fundamental_div_mod(na, m as int);
            let q = if t == 0 { -k } else { -k - 1 };
            assert(a == q * m + r) by (nonlinear_arith)
                requires
                    na == -(a as int),
                    na == m * k + t,
                    q == if t == 0 { -k } else { -k - 1 },
                    r == if t == 0 { 0 } else { m - t },
            ;
            lemma_fundamental_div_mod_converse(a as int, m as int, q, r as int);
        }
        r
    }
}

} // verus!
