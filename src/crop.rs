//! Crop rectangles, their scores, and the positional importance function.
use vstd::prelude::*;

use crate::fixed::{floor_root, floor_root_exec, round_spec, UNIT};

verus! {

/// A rectangle: top-left corner `(x, y)`, `width` by `height`.
#[derive(Clone, Copy, PartialEq, Eq, Debug, Structural)]
pub struct Crop {
    pub x: u32,
    pub y: u32,
    pub width: u32,
    pub height: u32,
}

/// Raw weighted sums of the three channels and the area-normalised total used for
/// ranking, each in units of `1 / UNIT`.
#[derive(Clone, Copy, PartialEq, Eq, Debug, Structural)]
pub struct Score {
    pub detail: i128,
    pub saturation: i128,
    pub skin: i128,
    pub total: i128,
}

/// A crop paired with its score.
#[derive(Clone, Copy, PartialEq, Eq, Debug, Structural)]
pub struct ScoredCrop {
    pub crop: Crop,
    pub score: Score,
}

/// `v * num / den`, rounded.
pub open spec fn scaled(v: int, num: int, den: int) -> int {
    round_spec(v * num, den)
}

/// A scaled crop fits the integer fields.
pub open spec fn scale_fits(c: Crop, num: int, den: int) -> bool {
    &&& scaled(c.x as int, num, den) <= u32::MAX
    &&& scaled(c.y as int, num, den) <= u32::MAX
    &&& scaled(c.width as int, num, den) <= u32::MAX
    &&& scaled(c.height as int, num, den) <= u32::MAX
}

fn scale_field(v: u32, num: u32, den: u32) -> (r: u32)
    requires
        den > 0,
        scaled(v as int, num as int, den as int) <= u32::MAX,
    ensures
        r == scaled(v as int, num as int, den as int),
{
    assert(v * num <= u32::MAX * u32::MAX) by (nonlinear_arith)
        requires
            v <= u32::MAX,
            num <= u32::MAX,
    ;
    let n: u128 = v as u128 * num as u128;
    let d: u128 = den as u128;
    ((2 * n + d) / (2 * d)) as u32
}

impl Crop {
    /// Scales every field by `num / den`, rounding each independently.
    pub fn scale(&self, num: u32, den: u32) -> (c: Crop)
        requires
            den > 0,
            scale_fits(*self, num as int, den as int),
        ensures
            c.x == scaled(self.x as int, num as int, den as int),
            c.y == scaled(self.y as int, num as int, den as int),
            c.width == scaled(self.width as int, num as int, den as int),
            c.height == scaled(self.height as int, num as int, den as int),
    {
        Crop {
            x: scale_field(self.x, num, den),
            y: scale_field(self.y, num, den),
            width: scale_field(self.width, num, den),
            height: scale_field(self.height, num, den),
        }
    }
}

impl ScoredCrop {
    /// Scales the crop by `num / den`; the score is kept.
    pub fn scale(&self, num: u32, den: u32) -> (s: ScoredCrop)
        requires
            den > 0,
            scale_fits(self.crop, num as int, den as int),
        ensures
            s.crop.x == scaled(self.crop.x as int, num as int, den as int),
            s.crop.y == scaled(self.crop.y as int, num as int, den as int),
            s.crop.width == scaled(self.crop.width as int, num as int, den as int),
            s.crop.height == scaled(self.crop.height as int, num as int, den as int),
            s.score == self.score,
    {
        ScoredCrop { crop: self.crop.scale(num, den), score: self.score }
    }
}

/// The bounds that rounding `n / d` leaves: `|2n - 2d * round| <= d`.
proof fn lemma_round_bounds(n: int, d: int)
    requires
        d > 0,
    ensures
        2 * d * round_spec(n, d) - d <= 2 * n,
        2 * n < 2 * d * round_spec(n, d) + d,
{
    let r = round_spec(n, d);
    vstd::arithmetic::div_mod::lemma_fundamental_div_mod(2 * n + d, 2 * d);
    assert(0 <= (2 * n + d) % (2 * d) < 2 * d);
}

/// Rounding twice stays close to rounding once: scaling `v` by `n1 / d1` and then by
/// `n2 / d2` differs from scaling it by `(n1 * n2) / (d1 * d2)` by at most
/// `n2 / (2 * d2) + 1`.
pub proof fn lemma_scale_twice(v: int, n1: int, d1: int, n2: int, d2: int)
    requires
        v >= 0,
        n1 >= 0,
        n2 >= 0,
        d1 > 0,
        d2 > 0,
    ensures
        2 * d2 * (scaled(scaled(v, n1, d1), n2, d2) - scaled(v, n1 * n2, d1 * d2)) <= n2 + 2 * d2,
        2 * d2 * (scaled(v, n1 * n2, d1 * d2) - scaled(scaled(v, n1, d1), n2, d2)) <= n2 + 2 * d2,
{
    let t = scaled(v, n1, d1);
    let a = scaled(t, n2, d2);
    let b = scaled(v, n1 * n2, d1 * d2);
    let dd = d1 * d2;
    assert(dd > 0) by (nonlinear_arith)
        requires
            d1 > 0,
            d2 > 0,
            dd == d1 * d2,
    ;
    lemma_round_bounds(v * n1, d1);
    lemma_round_bounds(t * n2, d2);
    lemma_round_bounds(v * (n1 * n2), dd);
    let e1 = 2 * (v * n1) - 2 * d1 * t;
    let e2 = 2 * (t * n2) - 2 * d2 * a;
    let e3 = 2 * (v * (n1 * n2)) - 2 * dd * b;
    assert(d1 * e2 == 2 * (d1 * (t * n2)) - 2 * ((d1 * d2) * a)) by (nonlinear_arith)
        requires
            e2 == 2 * (t * n2) - 2 * d2 * a,
    ;
    assert(n2 * e1 == 2 * (n2 * (v * n1)) - 2 * ((n2 * d1) * t)) by (nonlinear_arith)
        requires
            e1 == 2 * (v * n1) - 2 * d1 * t,
    ;
    assert(d1 * (t * n2) == (n2 * d1) * t) by (nonlinear_arith);
    assert(n2 * (v * n1) == v * (n1 * n2)) by (nonlinear_arith);
    assert(2 * dd * (a - b) == 2 * ((d1 * d2) * a) - 2 * (dd * b)) by (nonlinear_arith)
        requires
            dd == d1 * d2,
    ;
    assert(e3 == 2 * (v * (n1 * n2)) - 2 * (dd * b)) by (nonlinear_arith)
        requires
            e3 == 2 * (v * (n1 * n2)) - 2 * dd * b,
    ;
    assert(2 * dd * (a - b) == -(d1 * e2) - n2 * e1 + e3);
    assert(-dd <= e3 <= dd) by (nonlinear_arith)
        requires
            2 * dd * b - dd <= 2 * (v * (n1 * n2)) < 2 * dd * b + dd,
            e3 == 2 * (v * (n1 * n2)) - 2 * dd * b,
    ;
    assert(-d1 <= e1 <= d1 && -d2 <= e2 <= d2) by (nonlinear_arith)
        requires
            2 * d1 * t - d1 <= 2 * (v * n1) < 2 * d1 * t + d1,
            2 * d2 * a - d2 <= 2 * (t * n2) < 2 * d2 * a + d2,
            e1 == 2 * (v * n1) - 2 * d1 * t,
            e2 == 2 * (t * n2) - 2 * d2 * a,
    ;
    assert(-(d1 * d2) <= d1 * e2 <= d1 * d2) by (nonlinear_arith)
        requires
            -d2 <= e2 <= d2,
            d1 > 0,
    ;
    assert(-(n2 * d1) <= n2 * e1 <= n2 * d1) by (nonlinear_arith)
        requires
            -d1 <= e1 <= d1,
            n2 >= 0,
    ;
    assert(d1 * (2 * d2 * (a - b)) == 2 * dd * (a - b) && d1 * (2 * d2 * (b - a)) == -(2 * dd * (
    a - b)) && d1 * (n2 + 2 * d2) == n2 * d1 + 2 * dd) by (nonlinear_arith)
        requires
            dd == d1 * d2,
    ;
    assert(2 * d2 * (a - b) <= n2 + 2 * d2 && 2 * d2 * (b - a) <= n2 + 2 * d2)
        by (nonlinear_arith)
        requires
            d1 * (2 * d2 * (a - b)) <= d1 * (n2 + 2 * d2),
            d1 * (2 * d2 * (b - a)) <= d1 * (n2 + 2 * d2),
            d1 > 0,
    ;
}

/// Scaling a crop twice agrees with scaling it once by the product of the ratios, up
/// to rounding: each field differs by at most `n2 / (2 * d2) + 1`.
pub proof fn lemma_crop_scale_twice(c: Crop, n1: int, d1: int, n2: int, d2: int)
    requires
        n1 >= 0,
        n2 >= 0,
        d1 > 0,
        d2 > 0,
    ensures
        forall|v: int|
            v == c.x || v == c.y || v == c.width || v == c.height ==> {
                let twice = #[trigger] scaled(scaled(v, n1, d1), n2, d2);
                let once = scaled(v, n1 * n2, d1 * d2);
                2 * d2 * (twice - once) <= n2 + 2 * d2 && 2 * d2 * (once - twice) <= n2 + 2
                    * d2
            },
{
    lemma_scale_twice(c.x as int, n1, d1, n2, d2);
    lemma_scale_twice(c.y as int, n1, d1, n2, d2);
    lemma_scale_twice(c.width as int, n1, d1, n2, d2);
    lemma_scale_twice(c.height as int, n1, d1, n2, d2);
}

/// `floor(UNIT * a / w)`.
pub open spec fn frac_fix(a: int, w: int) -> int {
    a * UNIT / w
}

/// Distance of a position from a crop's centre line, as a fraction of the half-size:
/// `|0.5 - i / w| * 2 = |w - 2 i| / w`, in units of `1 / UNIT` (floored).
pub open spec fn centre_offset(i: int, w: int) -> int {
    let a = if w >= 2 * i {
        w - 2 * i
    } else {
        2 * i - w
    };
    frac_fix(a, w)
}

/// The rule-of-thirds bump of `p` in `[0, 1]` (units of `1 / UNIT`): with
/// `t = (p - 1/3 + 1) mod 2 * 0.5 - 0.5) * 16 = 8 p - 8/3`, the value `max(1 - t^2, 0)`.
pub open spec fn thirds_spec(p: int) -> int {
    let t = 24 * p - 8 * UNIT;
    let v = 9 * UNIT * UNIT - t * t;
    if v > 0 {
        v / (9 * UNIT)
    } else {
        0
    }
}

/// The edge term `-20 (dx^2 + dy^2)` with `dx = max(px - 0.6, 0)`, floored.
pub open spec fn edge_term(px: int, py: int) -> int {
    let ex = if px > 6 * UNIT / 10 {
        px - 6 * UNIT / 10
    } else {
        0
    };
    let ey = if py > 6 * UNIT / 10 {
        py - 6 * UNIT / 10
    } else {
        0
    };
    (-20 * (ex * ex + ey * ey)) / (UNIT as int)
}

/// Importance of the point `(x, y)` for a crop, in units of `1 / UNIT`: `-0.5` outside
/// it; inside, the radial score `1.41 - |(px, py)|` plus the edge term, plus the
/// rule-of-thirds bonus `max(0, s + d + 0.5) * 1.2 * (thirds(px) + thirds(py))`.
pub open spec fn importance_spec(c: Crop, x: int, y: int) -> int {
    if x < c.x || x >= c.x + c.width || y < c.y || y >= c.y + c.height {
        -(UNIT / 2)
    } else {
        let px = centre_offset(x - c.x, c.width as int);
        let py = centre_offset(y - c.y, c.height as int);
        let s = 141 * UNIT / 100 - floor_root(px * px + py * py, 1);
        let d = edge_term(px, py);
        let base = s + d + UNIT / 2;
        let bonus = if base > 0 {
            base * 6 * (thirds_spec(px) + thirds_spec(py)) / (5 * UNIT)
        } else {
            0
        };
        s + d + bonus
    }
}

/// The rule-of-thirds bump of `p`, for `p` in `[0, 1]` in units of `1 / UNIT`.
pub fn thirds(p: i64) -> (r: i64)
    requires
        0 <= p <= UNIT,
    ensures
        r == thirds_spec(p as int),
        0 <= r <= UNIT,
{
    let t: i128 = 24 * p as i128 - 8 * UNIT as i128;
    assert(0 <= t * t <= 256 * UNIT * UNIT) by (nonlinear_arith)
        requires
            -8 * UNIT <= t <= 16 * UNIT,
    ;
    let v: i128 = 9 * UNIT as i128 * UNIT as i128 - t * t;
    if v > 0 {
        let r = v / (9 * UNIT as i128);
        assert(r <= UNIT) by (nonlinear_arith)
            requires
                r == (v as int) / (9 * UNIT as int),
                0 < v <= 9 * UNIT * UNIT,
        ;
        r as i64
    } else {
        0
    }
}

fn centre_offset_exec(i: u64, w: u64) -> (p: i64)
    requires
        w > 0,
        i < w,
        w <= u32::MAX,
    ensures
        p == centre_offset(i as int, w as int),
        0 <= p <= UNIT,
{
    let a: u64 = if w >= 2 * i {
        w - 2 * i
    } else {
        2 * i - w
    };
    let p = a as u128 * UNIT as u128 / w as u128;
    assert(p <= UNIT) by (nonlinear_arith)
        requires
            p == (a as int) * (UNIT as int) / (w as int),
            a <= w,
            w > 0,
    ;
    p as i64
}

/// Importance of the point `(x, y)` for the crop `c`, in units of `1 / UNIT`.
pub fn importance(c: &Crop, x: u64, y: u64) -> (r: i64)
    ensures
        r == importance_spec(*c, x as int, y as int),
        -8 * UNIT <= r <= 8 * UNIT,
{
    if x < c.x as u64 || x >= c.x as u64 + c.width as u64 || y < c.y as u64 || y >= c.y as u64
        + c.height as u64 {
        return -(UNIT / 2);
    }
    let px = centre_offset_exec(x - c.x as u64, c.width as u64);
    let py = centre_offset_exec(y - c.y as u64, c.height as u64);
    assert(px * px + py * py <= 2 * UNIT * UNIT && px * px >= 0 && py * py >= 0) by (nonlinear_arith)
        requires
            0 <= px <= UNIT,
            0 <= py <= UNIT,
    ;
    let sq: u128 = (px as i128 * px as i128 + py as i128 * py as i128) as u128;
    assert(sq < (2 * UNIT + 1) * (2 * UNIT + 1)) by (nonlinear_arith)
        requires
            sq <= 2 * UNIT * UNIT,
    ;
    let root = floor_root_exec(sq, 1, 2 * UNIT as u64);
    let s: i128 = 141 * UNIT as i128 / 100 - root as i128;
    let ex: i128 = if px > 6 * UNIT / 10 {
        (px - 6 * UNIT / 10) as i128
    } else {
        0
    };
    let ey: i128 = if py > 6 * UNIT / 10 {
        (py - 6 * UNIT / 10) as i128
    } else {
        0
    };
    assert(0 <= ex * ex <= UNIT * UNIT && 0 <= ey * ey <= UNIT * UNIT) by (nonlinear_arith)
        requires
            0 <= ex <= UNIT,
            0 <= ey <= UNIT,
    ;
    let e: i128 = 20 * (ex * ex + ey * ey);
    // floor(-e / UNIT) for e >= 0
    let d: i128 = -((e + UNIT as i128 - 1) / UNIT as i128);
    proof {
        assert(d == (-e) / (UNIT as int)) by (nonlinear_arith)
            requires
                e >= 0,
                d == -((e + UNIT - 1) / (UNIT as int)),
        ;
    }
    assert(-7 * UNIT <= d <= 0) by (nonlinear_arith)
        requires
            d == (-e) / (UNIT as int),
            e == 20 * (ex * ex + ey * ey),
            0 <= ex <= 4 * UNIT / 10,
            0 <= ey <= 4 * UNIT / 10,
    ;
    let base: i128 = s + d + (UNIT / 2) as i128;
    let tx = thirds(px);
    let ty = thirds(py);
    assert(root >= 0);
    assert(base <= 2 * UNIT);
    assert(base * 6 * (tx + ty) <= 24 * UNIT * UNIT) by (nonlinear_arith)
        requires
            0 < base <= 2 * UNIT || base <= 0,
            0 <= tx <= UNIT,
            0 <= ty <= UNIT,
    ;
    let bonus: i128 = if base > 0 {
        base * 6 * (tx as i128 + ty as i128) / (5 * UNIT as i128)
    } else {
        0
    };
    assert(0 <= bonus <= 5 * UNIT) by (nonlinear_arith)
        requires
            base <= 2 * UNIT,
            0 <= tx <= UNIT,
            0 <= ty <= UNIT,
            bonus == if base > 0 {
                base * 6 * (tx + ty) / (5 * UNIT)
            } else {
                0
            },
    ;
    (s + d + bonus) as i64
}

} // verus!
