//! Candidate generation over a scale sweep and a positional grid, and scoring of a
//! candidate against a downsampled saliency map.
use vstd::prelude::*;

use crate::color::RGB;
use crate::crop::{importance, importance_spec, Crop, Score};
use crate::fixed::{floor_div, lemma_flat_split, round_spec, UNIT};
use crate::map::ImageMap;

verus! {

/// Largest grid step between candidate positions.
pub const STEP: u32 = 8;

/// Factor by which the saliency map is reduced before scoring.
pub const SCORE_DOWN_SAMPLE: u32 = 8;

/// The scale sweep starts here, in tenths.
pub const MAX_SCALE_TENTHS: u32 = 10;

pub open spec fn min_of(a: int, b: int) -> int {
    if a < b {
        a
    } else {
        b
    }
}

/// A requested crop side: 0 stands for the smaller dimension of the map.
pub open spec fn target_size(c: int, w: int, h: int) -> int {
    if c != 0 {
        c
    } else {
        min_of(w, h)
    }
}

/// How many positions `i * step` (`i >= 0`) leave room for a side of `size10 / 10`
/// within `len`.
pub open spec fn grid_count(len: int, size10: int, step: int) -> int {
    if step <= 0 || size10 > 10 * len {
        0
    } else {
        (10 * len - size10) / (10 * step) + 1
    }
}

/// The candidates at scale `s / 10` for target sides `cw` by `ch` in a `w` by `h`
/// map: every grid position where the scaled rectangle fits, row by row.
pub open spec fn scale_candidates(w: int, h: int, cw: int, ch: int, s: int) -> Seq<Crop> {
    let xs = min_of(STEP as int, w);
    let ys = min_of(STEP as int, h);
    let nx = grid_count(w, cw * s, xs);
    let ny = grid_count(h, ch * s, ys);
    Seq::new(
        (nx * ny) as nat,
        |j: int|
            Crop {
                x: ((j % nx) * xs) as u32,
                y: ((j / nx) * ys) as u32,
                width: round_spec(cw * s, 10) as u32,
                height: round_spec(ch * s, 10) as u32,
            },
    )
}

/// The candidates of the scales `MAX_SCALE_TENTHS` down to `s`, largest scale first.
pub open spec fn sweep(w: int, h: int, cw: int, ch: int, s: int) -> Seq<Crop>
    decreases MAX_SCALE_TENTHS - s + 1,
{
    if s > MAX_SCALE_TENTHS || s <= 0 {
        Seq::empty()
    } else {
        sweep(w, h, cw, ch, s + 1) + scale_candidates(w, h, cw, ch, s)
    }
}

/// All candidates for a `w` by `h` map, down to scale `min_scale / 10`; the whole map
/// when none fits.
pub open spec fn crops_spec(w: int, h: int, crop_w: int, crop_h: int, min_scale: int) -> Seq<
    Crop,
> {
    let all = sweep(w, h, target_size(crop_w, w, h), target_size(crop_h, w, h), min_scale);
    if all.len() > 0 {
        all
    } else {
        seq![Crop { x: 0, y: 0, width: w as u32, height: h as u32 }]
    }
}

/// A crop lies inside a `w` by `h` area.
pub open spec fn crop_inside(c: Crop, w: int, h: int) -> bool {
    c.x + c.width <= w && c.y + c.height <= h
}

/// A side scaled by `s / 10` and rounded still fits where the exact side fits.
proof fn lemma_rounded_side_fits(x: int, q: int, len: int)
    requires
        x >= 0,
        q >= 0,
        10 * x + q <= 10 * len,
    ensures
        x + round_spec(q, 10) <= len,
{
    let r = round_spec(q, 10);
    assert(r == (2 * q + 10) / 20);
    assert(x + r <= len) by (nonlinear_arith)
        requires
            r == (2 * q + 10) / 20,
            x >= 0,
            q >= 0,
            10 * x + q <= 10 * len,
    ;
}

proof fn lemma_scale_candidates_inside(w: int, h: int, cw: int, ch: int, s: int)
    requires
        w >= 0,
        h >= 0,
        cw >= 0,
        ch >= 0,
        s >= 0,
        w <= u32::MAX,
        h <= u32::MAX,
    ensures
        forall|j: int|
            0 <= j < scale_candidates(w, h, cw, ch, s).len() ==> crop_inside(
                #[trigger] scale_candidates(w, h, cw, ch, s)[j],
                w,
                h,
            ),
{
    let xs = min_of(STEP as int, w);
    let ys = min_of(STEP as int, h);
    let nx = grid_count(w, cw * s, xs);
    let ny = grid_count(h, ch * s, ys);
    assert(cw * s >= 0 && ch * s >= 0) by (nonlinear_arith)
        requires
            cw >= 0,
            ch >= 0,
            s >= 0,
    ;
    assert forall|j: int|
        0 <= j < scale_candidates(w, h, cw, ch, s).len() implies crop_inside(
        #[trigger] scale_candidates(w, h, cw, ch, s)[j],
        w,
        h,
    ) by {
        assert(nx > 0 && ny > 0) by (nonlinear_arith)
            requires
                0 <= j < nx * ny,
                nx >= 0,
                ny >= 0,
        ;
        lemma_flat_split(j, nx, ny);
        let ix = j % nx;
        let iy = j / nx;
        assert(10 * (ix * xs) + cw * s <= 10 * w) by (nonlinear_arith)
            requires
                0 <= ix < nx,
                nx == (10 * w - cw * s) / (10 * xs) + 1,
                xs > 0,
                cw * s <= 10 * w,
        ;
        assert(10 * (iy * ys) + ch * s <= 10 * h) by (nonlinear_arith)
            requires
                0 <= iy < ny,
                ny == (10 * h - ch * s) / (10 * ys) + 1,
                ys > 0,
                ch * s <= 10 * h,
        ;
        assert(ix * xs >= 0 && iy * ys >= 0) by (nonlinear_arith)
            requires
                ix >= 0,
                iy >= 0,
                xs > 0,
                ys > 0,
        ;
        lemma_rounded_side_fits(ix * xs, cw * s, w);
        lemma_rounded_side_fits(iy * ys, ch * s, h);
    }
}

proof fn lemma_sweep_inside(w: int, h: int, cw: int, ch: int, s: int)
    requires
        0 <= w <= u32::MAX,
        0 <= h <= u32::MAX,
        cw >= 0,
        ch >= 0,
    ensures
        forall|j: int|
            0 <= j < sweep(w, h, cw, ch, s).len() ==> crop_inside(
                #[trigger] sweep(w, h, cw, ch, s)[j],
                w,
                h,
            ),
    decreases MAX_SCALE_TENTHS - s + 1,
{
    if !(s > MAX_SCALE_TENTHS || s <= 0) {
        lemma_sweep_inside(w, h, cw, ch, s + 1);
        lemma_scale_candidates_inside(w, h, cw, ch, s);
        let a = sweep(w, h, cw, ch, s + 1);
        let b = scale_candidates(w, h, cw, ch, s);
        assert forall|j: int| 0 <= j < (a + b).len() implies crop_inside(
            #[trigger] (a + b)[j],
            w,
            h,
        ) by {
            if j < a.len() {
                assert((a + b)[j] == a[j]);
            } else {
                assert((a + b)[j] == b[j - a.len()]);
            }
        }
    }
}

/// Every candidate lies inside the map, and there is at least one.
pub proof fn lemma_crops_inside(w: int, h: int, crop_w: int, crop_h: int, min_scale: int)
    requires
        0 <= w <= u32::MAX,
        0 <= h <= u32::MAX,
        crop_w >= 0,
        crop_h >= 0,
    ensures
        crops_spec(w, h, crop_w, crop_h, min_scale).len() > 0,
        forall|j: int|
            0 <= j < crops_spec(w, h, crop_w, crop_h, min_scale).len() ==> crop_inside(
                #[trigger] crops_spec(w, h, crop_w, crop_h, min_scale)[j],
                w,
                h,
            ),
{
    lemma_sweep_inside(
        w,
        h,
        target_size(crop_w, w, h),
        target_size(crop_h, w, h),
        min_scale,
    );
}

/// Number of grid positions, computed.
fn grid_count_exec(len: u32, size10: u64, step: u32) -> (n: u64)
    ensures
        n == grid_count(len as int, size10 as int, step as int),
        n <= len as int + 1,
{
    if step == 0 || size10 > 10 * len as u64 {
        0
    } else {
        let n = (10 * len as u64 - size10) / (10 * step as u64) + 1;
        assert(n <= len + 1) by (nonlinear_arith)
            requires
                n == (10 * len - size10) / (10 * step) + 1,
                step >= 1,
                size10 >= 0,
        ;
        n
    }
}

/// Appends the candidates at scale `s / 10`.
fn push_scale_candidates(out: &mut Vec<Crop>, w: u32, h: u32, cw: u32, ch: u32, s: u32)
    requires
        1 <= s <= MAX_SCALE_TENTHS,
    ensures
        final(out)@ == old(out)@ + scale_candidates(w as int, h as int, cw as int, ch as int, s as int),
{
    let xs: u32 = if STEP < w {
        STEP
    } else {
        w
    };
    let ys: u32 = if STEP < h {
        STEP
    } else {
        h
    };
    assert(cw * s <= 10 * cw && ch * s <= 10 * ch) by (nonlinear_arith)
        requires
            s <= 10,
    ;
    assert(cw * s >= 0 && ch * s >= 0) by (nonlinear_arith);
    let nx = grid_count_exec(w, cw as u64 * s as u64, xs);
    let ny = grid_count_exec(h, ch as u64 * s as u64, ys);
    let width: u32 = ((2 * (cw as u64 * s as u64) + 10) / 20) as u32;
    let height: u32 = ((2 * (ch as u64 * s as u64) + 10) / 20) as u32;
    assert(nx * ny <= (w + 1) * (h + 1)) by (nonlinear_arith)
        requires
            0 <= nx <= w + 1,
            0 <= ny <= h + 1,
    ;
    assert((w + 1) * (h + 1) <= 0x1_0000_0000 * 0x1_0000_0000) by (nonlinear_arith)
        requires
            w <= u32::MAX,
            h <= u32::MAX,
    ;
    let total: u128 = nx as u128 * ny as u128;
    let ghost start = out@;
    let ghost cands = scale_candidates(w as int, h as int, cw as int, ch as int, s as int);
    let mut j: u128 = 0;
    while j < total
        invariant
            total == nx * ny,
            nx == grid_count(w as int, cw * s, xs as int),
            ny == grid_count(h as int, ch * s, ys as int),
            xs == min_of(STEP as int, w as int),
            nx <= w + 1,
            ny <= h + 1,
            ys == min_of(STEP as int, h as int),
            width == round_spec(cw * s, 10),
            height == round_spec(ch * s, 10),
            cands == scale_candidates(w as int, h as int, cw as int, ch as int, s as int),
            cands.len() == total,
            j <= total,
            out@.len() == start.len() + j,
            forall|k: int| 0 <= k < start.len() ==> #[trigger] out@[k] == start[k],
            forall|k: int| 0 <= k < j ==> #[trigger] out@[start.len() + k] == cands[k],
        decreases total - j,
    {
        proof {
            assert(nx > 0) by (nonlinear_arith)
                requires
                    j < nx * ny,
            ;
            lemma_flat_split(j as int, nx as int, ny as int);
        }
        let ix: u128 = j % nx as u128;
        let iy: u128 = j / nx as u128;
        proof {
            assert(ix * xs <= w) by (nonlinear_arith)
                requires
                    0 <= ix < nx,
                    nx == grid_count(w as int, cw * s, xs as int),
                    xs == min_of(STEP as int, w as int),
                    cw * s >= 0,
            ;
            assert(iy * ys <= h) by (nonlinear_arith)
                requires
                    0 <= iy < ny,
                    ny == grid_count(h as int, ch * s, ys as int),
                    ys == min_of(STEP as int, h as int),
                    ch * s >= 0,
            ;
        }
        let c = Crop {
            x: (ix * xs as u128) as u32,
            y: (iy * ys as u128) as u32,
            width,
            height,
        };
        proof {
            assert(c == cands[j as int]);
        }
        out.push(c);
        j = j + 1;
    }
    assert forall|i: int| start.len() <= i < out@.len() implies out@[i] == (start + cands)[i] by {
        assert(out@[start.len() + (i - start.len())] == cands[i - start.len()]);
    }
    assert(out@ =~= start + cands);
}

/// Every crop candidate for a `w` by `h` map: sides `crop_width` by `crop_height` (0
/// meaning the smaller map dimension) scaled from 1.0 down to `min_scale_tenths / 10`
/// in steps of 0.1, at every grid position where they fit; the whole map if none does.
pub fn crops(w: u32, h: u32, crop_width: u32, crop_height: u32, min_scale_tenths: u32) -> (v: Vec<
    Crop,
>)
    requires
        min_scale_tenths >= 1,
    ensures
        v@ == crops_spec(w as int, h as int, crop_width as int, crop_height as int, min_scale_tenths as int),
        v@.len() > 0,
        forall|j: int| 0 <= j < v@.len() ==> crop_inside(#[trigger] v@[j], w as int, h as int),
{
    let md: u32 = if w < h {
        w
    } else {
        h
    };
    let cw: u32 = if crop_width != 0 {
        crop_width
    } else {
        md
    };
    let ch: u32 = if crop_height != 0 {
        crop_height
    } else {
        md
    };
    let mut out: Vec<Crop> = Vec::new();
    let mut s: u32 = MAX_SCALE_TENTHS;
    proof {
        assert(out@ =~= sweep(w as int, h as int, cw as int, ch as int, s + 1));
    }
    while s >= min_scale_tenths && s > 0
        invariant
            s <= MAX_SCALE_TENTHS,
            min_scale_tenths >= 1,
            s + 1 >= min_scale_tenths || s == MAX_SCALE_TENTHS,
            out@ == sweep(w as int, h as int, cw as int, ch as int, s + 1),
        decreases s,
    {
        push_scale_candidates(&mut out, w, h, cw, ch, s);
        s = s - 1;
    }
    assert(out@ == sweep(w as int, h as int, cw as int, ch as int, min_scale_tenths as int));
    proof {
        lemma_crops_inside(
            w as int,
            h as int,
            crop_width as int,
            crop_height as int,
            min_scale_tenths as int,
        );
    }
    if out.len() == 0 {
        out.push(Crop { x: 0, y: 0, width: w, height: h });
        assert(out@ =~= seq![Crop { x: 0, y: 0, width: w, height: h }]);
    }
    out
}

/// Importance of cell `j` of a downsampled map `w` cells wide, taken at the cell's
/// position in the full-resolution map.
pub open spec fn cell_importance(w: int, c: Crop, j: int) -> int {
    importance_spec(c, (j % w) * SCORE_DOWN_SAMPLE, (j / w) * SCORE_DOWN_SAMPLE)
}

/// `sum of g * importance` over the first `k` cells (detail, in units of
/// `1 / (255 * UNIT)`).
pub open spec fn detail_sum(px: Seq<RGB>, w: int, c: Crop, k: nat) -> int
    decreases k,
{
    if k == 0 {
        0
    } else {
        detail_sum(px, w, c, (k - 1) as nat) + px[k - 1].g * cell_importance(w, c, k - 1)
    }
}

/// `sum of r * (100 g + 255) * importance` over the first `k` cells: skin weighted by
/// `detail + 0.01`, in units of `1 / (6502500 * UNIT)`.
pub open spec fn skin_sum(px: Seq<RGB>, w: int, c: Crop, k: nat) -> int
    decreases k,
{
    if k == 0 {
        0
    } else {
        skin_sum(px, w, c, (k - 1) as nat) + px[k - 1].r * (100 * px[k - 1].g + 255)
            * cell_importance(w, c, k - 1)
    }
}

/// `sum of b * (100 g + 5100) * importance` over the first `k` cells: saturation
/// weighted by `detail + 0.2`, in units of `1 / (6502500 * UNIT)`.
pub open spec fn saturation_sum(px: Seq<RGB>, w: int, c: Crop, k: nat) -> int
    decreases k,
{
    if k == 0 {
        0
    } else {
        saturation_sum(px, w, c, (k - 1) as nat) + px[k - 1].b * (100 * px[k - 1].g + 5100)
            * cell_importance(w, c, k - 1)
    }
}

/// The score of a crop against a downsampled map `w` cells wide, in units of
/// `1 / UNIT`: the three sums, and their combination
/// `(0.2 detail + 1.8 skin + 0.1 saturation) / area` (0 for an empty crop).
pub open spec fn score_spec(px: Seq<RGB>, w: int, c: Crop) -> Score {
    let n = px.len();
    let det = detail_sum(px, w, c, n);
    let sk = skin_sum(px, w, c, n);
    let sa = saturation_sum(px, w, c, n);
    let area = c.width * c.height;
    Score {
        detail: (det / 255) as i128,
        saturation: (sa / 6502500) as i128,
        skin: (sk / 6502500) as i128,
        total: if area == 0 {
            0
        } else {
            ((51000 * det + 18 * sk + sa) / (65025000 * area)) as i128
        },
    }
}

/// Scores the crop `c` against the downsampled map `o`.
pub fn score(o: &ImageMap, c: &Crop) -> (s: Score)
    requires
        o.wf(),
    ensures
        s == score_spec(o.pixels@, o.width as int, *c),
{
    let n = o.pixels.len();
    let w = o.width as usize;
    let h = o.height as usize;
    let ghost px = o.pixels@;
    let mut det: i128 = 0;
    let mut sk: i128 = 0;
    let mut sa: i128 = 0;
    let mut j: usize = 0;
    while j < n
        invariant
            o.wf(),
            px == o.pixels@,
            n == px.len(),
            w == o.width,
            h == o.height,
            j <= n,
            det == detail_sum(px, w as int, *c, j as nat),
            sk == skin_sum(px, w as int, *c, j as nat),
            sa == saturation_sum(px, w as int, *c, j as nat),
            -2_040_000_000_000 * j <= det <= 2_040_000_000_000 * j,
            -52_540_200_000_000_000 * j <= sk <= 52_540_200_000_000_000 * j,
            -62_424_000_000_000_000 * j <= sa <= 62_424_000_000_000_000 * j,
        decreases n - j,
    {
        proof {
            assert(w > 0) by (nonlinear_arith)
                requires
                    j < w * h,
            ;
            lemma_flat_split(j as int, w as int, h as int);
        }
        let x = (j % w) as u64;
        let y = (j / w) as u64;
        assert(x < w && y < h);
        assert(x * 8 < 0x8_0000_0000 && y * 8 < 0x8_0000_0000) by (nonlinear_arith)
            requires
                x < w <= 0xffff_ffff,
                y < h <= 0xffff_ffff,
        ;
        let imp = importance(c, x * SCORE_DOWN_SAMPLE as u64, y * SCORE_DOWN_SAMPLE as u64);
        let p = o.pixels[j];
        let r = p.r as i128;
        let g = p.g as i128;
        let b = p.b as i128;
        let i = imp as i128;
        assert(-2_040_000_000_000 <= g * i <= 2_040_000_000_000) by (nonlinear_arith)
            requires
                0 <= g <= 255,
                -8 * UNIT <= i <= 8 * UNIT,
        ;
        assert(-52_540_200_000_000_000 <= r * (100 * g + 255) * i <= 52_540_200_000_000_000)
            by (nonlinear_arith)
            requires
                0 <= r <= 255,
                0 <= g <= 255,
                -8 * UNIT <= i <= 8 * UNIT,
        ;
        assert(-62_424_000_000_000_000 <= b * (100 * g + 5100) * i <= 62_424_000_000_000_000)
            by (nonlinear_arith)
            requires
                0 <= b <= 255,
                0 <= g <= 255,
                -8 * UNIT <= i <= 8 * UNIT,
        ;
        assert(0 <= r * (100 * g + 255) <= 255 * 25755 && 0 <= b * (100 * g + 5100) <= 255 * 30600)
            by (nonlinear_arith)
            requires
                0 <= r <= 255,
                0 <= g <= 255,
                0 <= b <= 255,
        ;
        det = det + g * i;
        sk = sk + r * (100 * g + 255) * i;
        sa = sa + b * (100 * g + 5100) * i;
        j = j + 1;
    }
    assert(0 <= c.width * c.height <= 0xffff_ffff * 0xffff_ffff) by (nonlinear_arith)
        requires
            c.width <= 0xffff_ffff,
            c.height <= 0xffff_ffff,
    ;
    let area: i128 = c.width as i128 * c.height as i128;
    let total: i128 = if area == 0 {
        0
    } else {
        floor_div(51000 * det + 18 * sk + sa, 65025000 * area)
    };
    Score {
        detail: floor_div(det, 255),
        saturation: floor_div(sa, 6502500),
        skin: floor_div(sk, 6502500),
        total,
    }
}

} // verus!
