//! Fixed-point reals: a value `v` of type `i64` stands for the real number
//! `v / ONE`. Every quantity of the renderer (coordinates, distances,
//! intensities, colour channels) is held this way, saturated to
//! `[-LIMIT, LIMIT]` so that products always fit in `i128`.
use vstd::prelude::*;
use vstd::arithmetic::div_mod::{lemma_fundamental_div_mod, lemma_fundamental_div_mod_converse};

verus! {

/// The fixed-point representation of 1.
pub const ONE: i64 = 65536;

/// Below this magnitude a divisor or a length counts as zero (about 0.001).
pub const EPSILON: i64 = 64;

/// Largest magnitude a fixed-point quantity may take (2^40, about 1.6e7 units).
pub const LIMIT: i64 = 1099511627776;

/// Saturates an integer to the representable range.
pub open spec fn clamp(v: int) -> int {
    if v > LIMIT {
        LIMIT as int
    } else if v < -LIMIT {
        -LIMIT
    } else {
        v
    }
}

pub open spec fn in_range(v: int) -> bool {
    -LIMIT <= v <= LIMIT
}

/// Fixed-point product: the exact product, rounded down to the grid and saturated.
pub open spec fn mul_spec(a: int, b: int) -> int {
    clamp((a * b) / (ONE as int))
}

/// Fixed-point quotient (b != 0): the exact quotient, rounded down and saturated.
pub open spec fn div_spec(a: int, b: int) -> int {
    if b > 0 {
        clamp((a * ONE) / b)
    } else {
        clamp((-a * ONE) / (-b))
    }
}

/// `r` is the integer square root of `n`.
pub open spec fn is_root(r: int, n: int) -> bool {
    0 <= r && r * r <= n < (r + 1) * (r + 1)
}

pub proof fn lemma_mul_bound(a: int, b: int, la: int, lb: int)
    requires
        -la <= a <= la,
        -lb <= b <= lb,
    ensures
        -(la * lb) <= a * b <= la * lb,
{
    assert(-(la * lb) <= a * b <= la * lb) by (nonlinear_arith)
        requires
            -la <= a <= la,
            -lb <= b <= lb,
    ;
}

/// The integer square root of `n`, as a spec function.
pub open spec fn root(n: int) -> int
    decreases n,
{
    if n <= 0 {
        0
    } else {
        let r = root(n - 1);
        if (r + 1) * (r + 1) <= n {
            r + 1
        } else {
            r
        }
    }
}

pub proof fn lemma_root(n: int)
    requires
        n >= 0,
    ensures
        is_root(root(n), n),
    decreases n,
{
    if n > 0 {
        lemma_root(n - 1);
        let r = root(n - 1);
        if (r + 1) * (r + 1) <= n {
            assert((r + 1) * (r + 1) <= n < (r + 2) * (r + 2)) by (nonlinear_arith)
                requires
                    0 <= r,
                    (r + 1) * (r + 1) <= n,
                    n - 1 < (r + 1) * (r + 1),
            ;
        }
    }
}

pub proof fn lemma_root_unique(r: int, n: int)
    requires
        is_root(r, n),
    ensures
        r == root(n),
{
    lemma_root(n);
    let s = root(n);
    if r < s {
        assert((r + 1) * (r + 1) <= s * s) by (nonlinear_arith)
            requires
                0 <= r < s,
        ;
    } else if s < r {
        assert((s + 1) * (s + 1) <= r * r) by (nonlinear_arith)
            requires
                0 <= s < r,
        ;
    }
}

/// Saturates a wide intermediate to the representable range.
pub fn saturate(v: i128) -> (r: i64)
    ensures
        r == clamp(v as int),
        in_range(r as int),
{
    if v > LIMIT as i128 {
        LIMIT
    } else if v < -(LIMIT as i128) {
        -LIMIT
    } else {
        v as i64
    }
}

/// Division rounding towards negative infinity (spec `/` with a positive divisor).
pub fn div_floor(n: i128, d: i128) -> (r: i128)
    requires
        d > 0,
        -0x100_0000_0000_0000_0000_0000_0000_0000 <= n <= 0x100_0000_0000_0000_0000_0000_0000_0000,
        d <= 0x100_0000_0000_0000_0000_0000_0000_0000,
    ensures
        r == n / d,
{
    if n >= 0 {
        n / d
    } else {
        let m: i128 = -n;
        let q: i128 = (m + d - 1) / d;
        proof {
            lemma_fundamental_div_mod((m + d - 1) as int, d as int);
            let rem = (m + d - 1) as int % (d as int);
            assert(0 <= rem < d);
            assert(n as int == (-q) * (d as int) + (d - 1 - rem)) by (nonlinear_arith)
                requires
                    (m + d - 1) as int == d * q + rem,
                    m == -n,
            ;
            lemma_fundamental_div_mod_converse(n as int, d as int, -q, d - 1 - rem);
        }
        -q
    }
}

/// Fixed-point multiplication.
pub fn fmul(a: i64, b: i64) -> (r: i64)
    requires
        in_range(a as int),
        in_range(b as int),
    ensures
        r == mul_spec(a as int, b as int),
        in_range(r as int),
{
    proof {
        lemma_mul_bound(a as int, b as int, LIMIT as int, LIMIT as int);
    }
    let p: i128 = (a as i128) * (b as i128);
    saturate(div_floor(p, ONE as i128))
}

/// Fixed-point division by a non-zero divisor.
pub fn fdiv(a: i64, b: i64) -> (r: i64)
    requires
        in_range(a as int),
        in_range(b as int),
        b != 0,
    ensures
        r == div_spec(a as int, b as int),
        in_range(r as int),
{
    let n: i128 = (a as i128) * (ONE as i128);
    if b > 0 {
        saturate(div_floor(n, b as i128))
    } else {
        saturate(div_floor(-n, -(b as i128)))
    }
}

/// Integer square root of `n`.
pub fn isqrt(n: u128) -> (r: u128)
    requires
        n < 0x10_0000_0000_0000_0000_0000_0000,
    ensures
        is_root(r as int, n as int),
        r == root(n as int),
        r < 0x4_0000_0000_0000,
{
    let mut lo: u128 = 0;
    let mut hi: u128 = 0x4_0000_0000_0000;
    assert(hi * hi == 0x10_0000_0000_0000_0000_0000_0000);
    while lo + 1 < hi
        invariant
            lo < hi <= 0x4_0000_0000_0000,
            lo * lo <= n,
            n < hi * hi,
        decreases hi - lo,
    {
        let mid: u128 = lo + (hi - lo) / 2;
        proof {
            lemma_mul_bound(mid as int, mid as int, 0x4_0000_0000_0000, 0x4_0000_0000_0000);
        }
        if mid * mid <= n {
            lo = mid;
        } else {
            hi = mid;
        }
    }
    proof {
        lemma_root_unique(lo as int, n as int);
    }
    lo
}

/// Fixed-point square root of a non-negative quantity.
pub fn fsqrt(a: i64) -> (r: i64)
    requires
        0 <= a <= LIMIT,
    ensures
        is_root(r as int, a * ONE),
        in_range(r as int),
{
    let s = isqrt((a as u128) * (ONE as u128));
    proof {
        assert(s * s <= a * ONE);
        if s > LIMIT {
            lemma_mul_bound(LIMIT as int, LIMIT as int, LIMIT as int, LIMIT as int);
            assert(s * s > LIMIT * LIMIT) by (nonlinear_arith)
                requires
                    s > LIMIT,
                    LIMIT > 0,
            ;
        }
    }
    s as i64
}

} // verus!
