//! Per-pixel colour metrics: lightness, HSL saturation and skin likeness.
use vstd::prelude::*;

use crate::fixed::{floor_root, floor_root_exec, UNIT};

verus! {

/// One pixel: three 8-bit channels.
#[derive(Clone, Copy, PartialEq, Eq, Debug, Structural)]
pub struct RGB {
    pub r: u8,
    pub g: u8,
    pub b: u8,
}

/// The reference skin direction: sRGB (234, 171, 132) normalised to unit length and
/// divided by the calibration constant 0.9420138987639984, in units of `1 / UNIT`.
pub const SKIN_R: i64 = 780_000_000;

pub const SKIN_G: i64 = 570_000_000;

pub const SKIN_B: i64 = 440_000_000;

/// Lightness `0.0722 r + 0.7152 g + 0.5126 b`, in units of `1 / 10000`.
pub open spec fn cie_spec(p: RGB) -> int {
    722 * p.r + 7152 * p.g + 5126 * p.b
}

pub open spec fn max3(p: RGB) -> int {
    if p.r >= p.g && p.r >= p.b {
        p.r as int
    } else if p.g >= p.b {
        p.g as int
    } else {
        p.b as int
    }
}

pub open spec fn min3(p: RGB) -> int {
    if p.r <= p.g && p.r <= p.b {
        p.r as int
    } else if p.g <= p.b {
        p.g as int
    } else {
        p.b as int
    }
}

/// HSL saturation as the fraction `num / den`: 0 for a grey, else `d / (2 - max - min)`
/// when the lightness is above one half and `d / (max + min)` otherwise, with
/// `d = max - min` and the channels read as fractions of 255.
pub open spec fn saturation_frac(p: RGB) -> (int, int) {
    let mx = max3(p);
    let mn = min3(p);
    if mx == mn {
        (0, 1)
    } else if mx + mn > 255 {
        (mx - mn, 510 - mx - mn)
    } else {
        (mx - mn, mx + mn)
    }
}

/// The channels that skin likeness normalises: pure black is read as a grey, whose
/// direction is defined.
pub open spec fn skin_channels(p: RGB) -> (int, int, int) {
    if p.r == 0 && p.g == 0 && p.b == 0 {
        (1, 1, 1)
    } else {
        (p.r as int, p.g as int, p.b as int)
    }
}

/// One component of the unit-length direction of a pixel: `floor(UNIT * c / |p|)`,
/// where `len2 = |p|^2`.
pub open spec fn unit_component(c: int, len2: int) -> int {
    floor_root(c * c * UNIT * UNIT, len2)
}

/// Distance from a pixel's direction to the reference skin direction, in units of
/// `1 / UNIT` (floored).
pub open spec fn skin_distance(p: RGB) -> int {
    let (r, g, b) = skin_channels(p);
    let len2 = r * r + g * g + b * b;
    let dr = unit_component(r, len2) - SKIN_R;
    let dg = unit_component(g, len2) - SKIN_G;
    let db = unit_component(b, len2) - SKIN_B;
    floor_root(dr * dr + dg * dg + db * db, 1)
}

/// Skin likeness `1 - min(d, 1)`, in units of `1 / UNIT`.
pub open spec fn skin_col_spec(p: RGB) -> int {
    let d = skin_distance(p);
    UNIT - if d < UNIT {
        d
    } else {
        UNIT as int
    }
}

impl RGB {
    pub fn new(r: u8, g: u8, b: u8) -> (p: RGB)
        ensures
            p.r == r,
            p.g == g,
            p.b == b,
    {
        RGB { r, g, b }
    }

    /// Lightness in units of `1 / 10000`.
    pub fn cie(&self) -> (l: u32)
        ensures
            l == cie_spec(*self),
    {
        722 * self.r as u32 + 7152 * self.g as u32 + 5126 * self.b as u32
    }

    pub fn max_channel(&self) -> (m: u8)
        ensures
            m == max3(*self),
    {
        if self.r >= self.g && self.r >= self.b {
            self.r
        } else if self.g >= self.b {
            self.g
        } else {
            self.b
        }
    }

    pub fn min_channel(&self) -> (m: u8)
        ensures
            m == min3(*self),
    {
        if self.r <= self.g && self.r <= self.b {
            self.r
        } else if self.g <= self.b {
            self.g
        } else {
            self.b
        }
    }

    /// HSL saturation as an exact fraction `(num, den)`.
    pub fn saturation_parts(&self) -> (f: (u32, u32))
        ensures
            f.0 == saturation_frac(*self).0,
            f.1 == saturation_frac(*self).1,
            f.1 > 0,
            f.0 <= f.1,
    {
        let mx = self.max_channel() as u32;
        let mn = self.min_channel() as u32;
        if mx == mn {
            (0, 1)
        } else if mx + mn > 255 {
            (mx - mn, 510 - mx - mn)
        } else {
            (mx - mn, mx + mn)
        }
    }

    /// HSL saturation in units of `1 / UNIT`, rounded down.
    pub fn saturation(&self) -> (s: u64)
        ensures
            s == saturation_frac(*self).0 * UNIT / saturation_frac(*self).1,
            s <= UNIT,
    {
        let (num, den) = self.saturation_parts();
        let s = num as u64 * UNIT as u64 / den as u64;
        assert(s <= UNIT) by (nonlinear_arith)
            requires
                s == (num as int) * (UNIT as int) / (den as int),
                num <= den,
                den > 0,
        ;
        s
    }
}

/// `floor(UNIT * c / sqrt(len2))` for `c^2 <= len2`.
fn unit_component_exec(c: u8, len2: u32) -> (n: i64)
    requires
        len2 > 0,
        c * c <= len2,
        len2 <= 3 * 255 * 255,
    ensures
        n == unit_component(c as int, len2 as int),
        0 <= n <= UNIT,
{
    let num: u128 = c as u128 * c as u128 * (UNIT as u128 * UNIT as u128);
    assert(num < (UNIT + 1) * (UNIT + 1) * len2 && (UNIT + 1) * (UNIT + 1) * len2 <= u128::MAX)
        by (nonlinear_arith)
        requires
            num == c * c * (UNIT * UNIT),
            c * c <= len2,
            0 < len2 <= 3 * 255 * 255,
    ;
    let n = floor_root_exec(num, len2 as u128, UNIT as u64);
    assert(c * c * UNIT * UNIT == c * c * (UNIT * UNIT)) by (nonlinear_arith);
    n as i64
}

/// Skin likeness of a pixel in units of `1 / UNIT`: one minus the distance (at most
/// one) between its direction and the reference skin direction.
pub fn skin_col(p: RGB) -> (s: i64)
    ensures
        s == skin_col_spec(p),
        0 <= s <= UNIT,
{
    let black = p.r == 0 && p.g == 0 && p.b == 0;
    let r: u8 = if black { 1 } else { p.r };
    let g: u8 = if black { 1 } else { p.g };
    let b: u8 = if black { 1 } else { p.b };
    assert(r * r <= 255 * 255 && g * g <= 255 * 255 && b * b <= 255 * 255) by (nonlinear_arith)
        requires
            r <= 255 && g <= 255 && b <= 255,
    ;
    assert(r * r + g * g + b * b > 0) by (nonlinear_arith)
        requires
            r > 0 || g > 0 || b > 0,
    ;
    let len2: u32 = r as u32 * r as u32 + g as u32 * g as u32 + b as u32 * b as u32;
    let dr: i64 = unit_component_exec(r, len2) - SKIN_R;
    let dg: i64 = unit_component_exec(g, len2) - SKIN_G;
    let db: i64 = unit_component_exec(b, len2) - SKIN_B;
    assert(dr * dr <= UNIT * UNIT && dg * dg <= UNIT * UNIT && db * db <= UNIT * UNIT
        && dr * dr >= 0 && dg * dg >= 0 && db * db >= 0) by (nonlinear_arith)
        requires
            -UNIT <= dr <= UNIT,
            -UNIT <= dg <= UNIT,
            -UNIT <= db <= UNIT,
    ;
    let sum: i128 = dr as i128 * dr as i128 + dg as i128 * dg as i128 + db as i128 * db as i128;
    let num: u128 = sum as u128;
    assert(num < (2 * UNIT + 1) * (2 * UNIT + 1)) by (nonlinear_arith)
        requires
            num == dr * dr + dg * dg + db * db,
            dr * dr <= UNIT * UNIT && dg * dg <= UNIT * UNIT && db * db <= UNIT * UNIT,
    ;
    let d = floor_root_exec(num, 1, 2 * UNIT as u64) as i64;
    if d < UNIT {
        UNIT - d
    } else {
        0
    }
}

} // verus!
