//! The three detector passes that fill a saliency map from an image. Each pass reads
//! only the image and writes only its own channel of the map.
use vstd::prelude::*;

use crate::color::{cie_spec, saturation_frac, skin_col, skin_col_spec, RGB};
use crate::fixed::{bounds, bounds_spec, lemma_flat_split, UNIT};
use crate::map::ImageMap;

verus! {

/// Lightness of the pixel at `(x, y)`, in units of `1 / 10000`.
pub open spec fn lightness_at(img: &ImageMap, x: int, y: int) -> int {
    cie_spec(img.at(x, y))
}

/// Detail at `(x, y)`: the discrete Laplacian of lightness for an interior pixel, the
/// lightness itself on the border, clamped to `[0, 255]` and rounded.
pub open spec fn edge_value(img: &ImageMap, x: int, y: int) -> int {
    let w = img.width as int;
    let h = img.height as int;
    if x == 0 || x >= w - 1 || y == 0 || y >= h - 1 {
        bounds_spec(lightness_at(img, x, y), 10000)
    } else {
        bounds_spec(
            4 * lightness_at(img, x, y) - lightness_at(img, x, y - 1) - lightness_at(img, x - 1, y)
                - lightness_at(img, x + 1, y) - lightness_at(img, x, y + 1),
            10000,
        )
    }
}

/// Skin channel of a pixel: when skin likeness exceeds 0.8 and lightness / 255 lies
/// in `[0.2, 1.0]`, `(likeness - 0.8) * 255 / 0.2` clamped and rounded; else 0.
pub open spec fn skin_value(p: RGB) -> int {
    let s = skin_col_spec(p);
    let l = cie_spec(p);
    if 10 * s > 8 * UNIT && 510000 <= l <= 2550000 {
        bounds_spec((10 * s - 8 * UNIT) * 1275, 10 * UNIT)
    } else {
        0
    }
}

/// Saturation channel of a pixel: when saturation exceeds 0.4 and lightness / 255
/// lies in `[0.05, 0.9]`, `(saturation - 0.4) * 255 / 0.6` clamped and rounded;
/// else 0.
pub open spec fn saturation_value(p: RGB) -> int {
    let (n, d) = saturation_frac(p);
    let l = cie_spec(p);
    if 5 * n > 2 * d && 127500 <= l <= 2295000 {
        bounds_spec(425 * n - 170 * d, d)
    } else {
        0
    }
}

/// The lightness of every pixel, in storage order.
pub fn make_cies(img: &ImageMap) -> (c: Vec<u32>)
    requires
        img.wf(),
    ensures
        c@.len() == img.pixels@.len(),
        forall|j: int| 0 <= j < c@.len() ==> #[trigger] c@[j] == cie_spec(img.pixels@[j]),
{
    let n = img.pixels.len();
    let mut c: Vec<u32> = Vec::new();
    let mut j: usize = 0;
    while j < n
        invariant
            n == img.pixels@.len(),
            j <= n,
            c@.len() == j,
            forall|k: int| 0 <= k < j ==> #[trigger] c@[k] == cie_spec(img.pixels@[k]),
        decreases n - j,
    {
        c.push(img.pixels[j].cie());
        j = j + 1;
    }
    c
}

/// Skin channel of one pixel.
pub fn skin_value_exec(p: RGB) -> (v: u8)
    ensures
        v == skin_value(p),
{
    let s = skin_col(p);
    let l = p.cie();
    if 10 * s > 8 * UNIT && 510000 <= l && l <= 2550000 {
        bounds(((10 * s - 8 * UNIT) * 1275) as i128, 10 * UNIT as i128)
    } else {
        0
    }
}

/// Saturation channel of one pixel.
pub fn saturation_value_exec(p: RGB) -> (v: u8)
    ensures
        v == saturation_value(p),
{
    let (n, d) = p.saturation_parts();
    let l = p.cie();
    if 5 * n > 2 * d && 127500 <= l && l <= 2295000 {
        bounds(425 * n as i128 - 170 * d as i128, d as i128)
    } else {
        0
    }
}

/// Writes the detail of every pixel of `i` into the `g` channel of `o`, with `r` and `b`
/// taken from the image pixel.
pub fn edge_detect(i: &ImageMap, o: &mut ImageMap)
    requires
        i.wf(),
        old(o).wf(),
        old(o).width == i.width,
        old(o).height == i.height,
    ensures
        final(o).wf(),
        final(o).width == i.width,
        final(o).height == i.height,
        forall|j: int|
            0 <= j < final(o).pixels@.len() ==> #[trigger] final(o).pixels@[j] == (RGB {
                r: i.pixels@[j].r,
                g: edge_value(i, j % (i.width as int), j / (i.width as int)) as u8,
                b: i.pixels@[j].b,
            }),
{
    let w = i.width as usize;
    let h = i.height as usize;
    let cies = make_cies(i);
    let n = i.pixels.len();
    let mut j: usize = 0;
    while j < n
        invariant
            i.wf(),
            o.wf(),
            o.width == i.width,
            o.height == i.height,
            w == i.width,
            h == i.height,
            n == i.pixels@.len(),
            cies@.len() == n,
            forall|k: int| 0 <= k < n ==> #[trigger] cies@[k] == cie_spec(i.pixels@[k]),
            j <= n,
            forall|k: int|
                0 <= k < j ==> #[trigger] o.pixels@[k] == (RGB {
                    r: i.pixels@[k].r,
                    g: edge_value(i, k % (w as int), k / (w as int)) as u8,
                    b: i.pixels@[k].b,
                }),
        decreases n - j,
    {
        proof {
            assert(w > 0) by (nonlinear_arith)
                requires
                    j < w * h,
            ;
            lemma_flat_split(j as int, w as int, h as int);
        }
        let x = j % w;
        let y = j / w;
        let ghost xi = x as int;
        let ghost yi = y as int;
        let l: i128 = if x == 0 || x >= w - 1 || y == 0 || y >= h - 1 {
            cies[j] as i128
        } else {
            proof {
                assert((yi - 1) * w + xi == j - w && (yi + 1) * w + xi == j + w)
                    by (nonlinear_arith)
                    requires
                        j == yi * w + xi,
                ;
                assert(j + w < n) by (nonlinear_arith)
                    requires
                        j == yi * w + xi,
                        yi < h - 1,
                        xi < w,
                        n == w * h,
                ;
            }
            4 * cies[j] as i128 - cies[j - w] as i128 - cies[j - 1] as i128 - cies[j + 1] as i128
                - cies[j + w] as i128
        };
        let g = bounds(l, 10000);
        let c = i.pixels[j];
        proof {
            assert(g == edge_value(i, xi, yi));
        }
        o.set(x as u32, y as u32, RGB { r: c.r, g, b: c.b });
        j = j + 1;
    }
}

/// Writes the skin channel of every pixel of `i` into the `r` channel of `o`, keeping
/// its `g` and `b`.
pub fn skin_detect(i: &ImageMap, o: &mut ImageMap)
    requires
        i.wf(),
        old(o).wf(),
        old(o).width == i.width,
        old(o).height == i.height,
    ensures
        final(o).wf(),
        final(o).width == i.width,
        final(o).height == i.height,
        forall|j: int|
            0 <= j < final(o).pixels@.len() ==> #[trigger] final(o).pixels@[j] == (RGB {
                r: skin_value(i.pixels@[j]) as u8,
                g: old(o).pixels@[j].g,
                b: old(o).pixels@[j].b,
            }),
{
    let ghost start = o.pixels@;
    let w = i.width as usize;
    let h = i.height as usize;
    let n = i.pixels.len();
    let mut j: usize = 0;
    while j < n
        invariant
            i.wf(),
            o.wf(),
            o.width == i.width,
            o.height == i.height,
            w == i.width,
            h == i.height,
            n == i.pixels@.len(),
            start.len() == n,
            j <= n,
            forall|k: int| j <= k < n ==> #[trigger] o.pixels@[k] == start[k],
            forall|k: int|
                0 <= k < j ==> #[trigger] o.pixels@[k] == (RGB {
                    r: skin_value(i.pixels@[k]) as u8,
                    g: start[k].g,
                    b: start[k].b,
                }),
        decreases n - j,
    {
        proof {
            assert(w > 0) by (nonlinear_arith)
                requires
                    j < w * h,
            ;
            lemma_flat_split(j as int, w as int, h as int);
        }
        let x = j % w;
        let y = j / w;
        let r = skin_value_exec(i.pixels[j]);
        let c = o.pixels[j];
        o.set(x as u32, y as u32, RGB { r, g: c.g, b: c.b });
        j = j + 1;
    }
}

/// Writes the saturation channel of every pixel of `i` into the `b` channel of `o`,
/// keeping its `r` and `g`.
pub fn saturation_detect(i: &ImageMap, o: &mut ImageMap)
    requires
        i.wf(),
        old(o).wf(),
        old(o).width == i.width,
        old(o).height == i.height,
    ensures
        final(o).wf(),
        final(o).width == i.width,
        final(o).height == i.height,
        forall|j: int|
            0 <= j < final(o).pixels@.len() ==> #[trigger] final(o).pixels@[j] == (RGB {
                r: old(o).pixels@[j].r,
                g: old(o).pixels@[j].g,
                b: saturation_value(i.pixels@[j]) as u8,
            }),
{
    let ghost start = o.pixels@;
    let w = i.width as usize;
    let h = i.height as usize;
    let n = i.pixels.len();
    let mut j: usize = 0;
    while j < n
        invariant
            i.wf(),
            o.wf(),
            o.width == i.width,
            o.height == i.height,
            w == i.width,
            h == i.height,
            n == i.pixels@.len(),
            start.len() == n,
            j <= n,
            forall|k: int| j <= k < n ==> #[trigger] o.pixels@[k] == start[k],
            forall|k: int|
                0 <= k < j ==> #[trigger] o.pixels@[k] == (RGB {
                    r: start[k].r,
                    g: start[k].g,
                    b: saturation_value(i.pixels@[k]) as u8,
                }),
        decreases n - j,
    {
        proof {
            assert(w > 0) by (nonlinear_arith)
                requires
                    j < w * h,
            ;
            lemma_flat_split(j as int, w as int, h as int);
        }
        let x = j % w;
        let y = j / w;
        let b = saturation_value_exec(i.pixels[j]);
        let c = o.pixels[j];
        o.set(x as u32, y as u32, RGB { r: c.r, g: c.g, b });
        j = j + 1;
    }
}

} // verus!
