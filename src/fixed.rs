//! Exact integer helpers: rounding of non-negative fractions and floor square roots.
//!
//! Quantities that are irrational or fractional are carried as integers in units of
//! `1 / UNIT`.
use vstd::prelude::*;

verus! {

/// The fixed-point unit: a value `v` stands for `v / UNIT`.
pub const UNIT: i64 = 1_000_000_000;

/// `n / d` rounded to the nearest integer, halves rounded up.
pub open spec fn round_spec(n: int, d: int) -> int {
    (2 * n + d) / (2 * d)
}

/// `n / d` clamped to `[0, 255]`, then rounded.
pub open spec fn bounds_spec(n: int, d: int) -> int {
    if n <= 0 {
        0
    } else if n >= 255 * d {
        255
    } else {
        round_spec(n, d)
    }
}

/// `m` is the floor of `sqrt(num / den)`.
pub open spec fn is_floor_root(m: int, num: int, den: int) -> bool {
    0 <= m && m * m * den <= num && num < (m + 1) * (m + 1) * den
}

/// The floor of `sqrt(num / den)`.
pub open spec fn floor_root(num: int, den: int) -> int {
    choose|m: int| is_floor_root(m, num, den)
}

proof fn lemma_square_le(a: int, b: int, den: int)
    requires
        0 <= a <= b,
        den >= 0,
    ensures
        a * a * den <= b * b * den,
{
    assert(a * a <= b * b) by (nonlinear_arith)
        requires
            0 <= a <= b,
    ;
    assert(a * a * den <= b * b * den) by (nonlinear_arith)
        requires
            a * a <= b * b,
            den >= 0,
    ;
}

/// The floor square root is unique, so `floor_root` names it.
pub proof fn lemma_floor_root(m: int, num: int, den: int)
    requires
        den > 0,
        is_floor_root(m, num, den),
    ensures
        floor_root(num, den) == m,
{
    let k = floor_root(num, den);
    assert(is_floor_root(k, num, den));
    if k < m {
        lemma_square_le(k + 1, m, den);
    } else if m < k {
        lemma_square_le(m + 1, k, den);
    }
}

/// A quotient is pinned down by the bounds it falls between.
pub proof fn lemma_div_unique(a: int, d: int, q: int)
    requires
        d > 0,
        d * q <= a < d * (q + 1),
    ensures
        a / d == q,
{
    vstd::arithmetic::div_mod::lemma_fundamental_div_mod(a, d);
    let k = a / d;
    let m = a % d;
    assert(0 <= m < d);
    if k < q {
        assert(d * (k + 1) <= d * q) by (nonlinear_arith)
            requires
                k + 1 <= q,
                d > 0,
        ;
        assert(d * (k + 1) == d * k + d) by (nonlinear_arith);
    } else if k > q {
        assert(d * (q + 1) <= d * k) by (nonlinear_arith)
            requires
                q + 1 <= k,
                d > 0,
        ;
        assert(d * (q + 1) == d * q + d) by (nonlinear_arith);
    }
}

/// Row-major positions stay inside a `w` by `h` grid.
pub proof fn lemma_flat_index(x: int, y: int, w: int, h: int)
    requires
        0 <= x < w,
        0 <= y < h,
    ensures
        0 <= y * w + x < w * h,
{
    assert(0 <= y * w + x < w * h) by (nonlinear_arith)
        requires
            0 <= x < w,
            0 <= y < h,
    ;
}

/// A row-major index splits into its column `i % w` and row `i / w`.
pub proof fn lemma_flat_split(i: int, w: int, h: int)
    requires
        w > 0,
        0 <= i < w * h,
    ensures
        i == (i / w) * w + i % w,
        0 <= i % w < w,
        0 <= i / w < h,
{
    vstd::arithmetic::div_mod::lemma_fundamental_div_mod(i, w);
    assert(0 <= i / w < h) by (nonlinear_arith)
        requires
            i == w * (i / w) + i % w,
            0 <= i % w < w,
            0 <= i < w * h,
            w > 0,
    ;
    assert((i / w) * w == w * (i / w)) by (nonlinear_arith);
}

/// `n / d` rounded to the nearest integer, halves rounded up.
pub fn round_div(n: u128, d: u128) -> (r: u128)
    requires
        d > 0,
        2 * n + d <= u128::MAX,
        2 * d <= u128::MAX,
    ensures
        r == round_spec(n as int, d as int),
{
    (2 * n + d) / (2 * d)
}

/// `n / d` clamped to `[0, 255]` and rounded.
pub fn bounds(n: i128, d: i128) -> (r: u8)
    requires
        d > 0,
        255 * d <= i64::MAX,
    ensures
        r == bounds_spec(n as int, d as int),
{
    if n <= 0 {
        0
    } else if n >= 255 * d {
        255
    } else {
        let r = round_div(n as u128, d as u128);
        assert(r == (2 * n + d) / (2 * d));
        assert(r <= 255) by (nonlinear_arith)
            requires
                r == (2 * n + d) / (2 * d),
                0 < n < 255 * d,
                d > 0,
        ;
        r as u8
    }
}

/// `n / d` rounded down, for a positive `d`.
pub fn floor_div(n: i128, d: i128) -> (q: i128)
    requires
        d > 0,
        -0x4000_0000_0000_0000_0000_0000_0000_0000 <= n <= 0x4000_0000_0000_0000_0000_0000_0000_0000,
        d <= 0x4000_0000_0000_0000_0000_0000_0000_0000,
    ensures
        q == n as int / d as int,
{
    if n >= 0 {
        n / d
    } else {
        let m: i128 = -n;
        let q = -((m + (d - 1)) / d);
        assert(q == n as int / d as int) by (nonlinear_arith)
            requires
                n < 0,
                d > 0,
                q == -((-n + d - 1) / (d as int)),
        ;
        q
    }
}

/// The floor of `sqrt(num / den)`, for a root known to lie at most at `hi`.
pub fn floor_root_exec(num: u128, den: u128, hi: u64) -> (m: u64)
    requires
        den > 0,
        (num as int) < (hi + 1) * (hi + 1) * den,
        (hi + 1) * (hi + 1) * den <= u128::MAX,
    ensures
        is_floor_root(m as int, num as int, den as int),
        m == floor_root(num as int, den as int),
        m <= hi,
{
    let mut lo: u64 = 0;
    let mut top: u128 = hi as u128 + 1;
    while top - lo as u128 > 1
        invariant
            den > 0,
            lo < top <= hi + 1,
            (hi + 1) * (hi + 1) * den <= u128::MAX,
            (lo * lo * den) as int <= num,
            (num as int) < top * top * den,
        decreases top - lo,
    {
        let mid: u64 = lo + ((top - lo as u128) / 2) as u64;
        proof {
            lemma_square_le(mid as int, hi + 1, den as int);
            assert(mid * mid <= mid * mid * den) by (nonlinear_arith)
                requires
                    den >= 1,
            ;
        }
        if mid as u128 * mid as u128 * den <= num {
            lo = mid;
        } else {
            top = mid as u128;
        }
    }
    assert(top == lo + 1);
    proof {
        lemma_floor_root(lo as int, num as int, den as int);
    }
    lo
}

} // verus!
