//! The saliency map: a grid of pixels used as three scalar channels, and its
//! block-reducing downsampler.
use vstd::prelude::*;

use crate::analyzer::Image;
use crate::color::RGB;
use crate::fixed::{lemma_div_unique, lemma_flat_index, lemma_flat_split, round_div, round_spec};

verus! {

/// A `width` by `height` grid of pixels, stored row by row.
///
/// As a saliency map, `r` holds skin, `g` detail and `b` saturation, each 0 to 255.
#[derive(Debug)]
pub struct ImageMap {
    pub width: u32,
    pub height: u32,
    pub pixels: Vec<RGB>,
}

pub open spec fn white() -> RGB {
    RGB { r: 255, g: 255, b: 255 }
}

/// One channel of a pixel: 0 is `r`, 1 is `g`, anything else `b`.
pub open spec fn channel(p: RGB, ch: int) -> int {
    if ch == 0 {
        p.r as int
    } else if ch == 1 {
        p.g as int
    } else {
        p.b as int
    }
}

/// The pixel at column `x`, row `y` of a row-major grid `w` wide.
pub open spec fn pixel_at(px: Seq<RGB>, w: int, x: int, y: int) -> RGB {
    px[y * w + x]
}

/// Pixel `k` of the `f` by `f` block whose top-left corner is `(x * f, y * f)`,
/// the block read row by row.
pub open spec fn block_pixel(px: Seq<RGB>, w: int, f: int, x: int, y: int, k: int) -> RGB {
    pixel_at(px, w, x * f + k % f, y * f + k / f)
}

/// Sum of channel `ch` over the first `k` pixels of a block.
pub open spec fn block_sum(px: Seq<RGB>, w: int, f: int, x: int, y: int, k: nat, ch: int) -> int
    decreases k,
{
    if k == 0 {
        0
    } else {
        block_sum(px, w, f, x, y, (k - 1) as nat, ch) + channel(
            block_pixel(px, w, f, x, y, k - 1),
            ch,
        )
    }
}

/// Maximum of channel `ch` over the first `k` pixels of a block (0 for none).
pub open spec fn block_max(px: Seq<RGB>, w: int, f: int, x: int, y: int, k: nat, ch: int) -> int
    decreases k,
{
    if k == 0 {
        0
    } else {
        let m = block_max(px, w, f, x, y, (k - 1) as nat, ch);
        let c = channel(block_pixel(px, w, f, x, y, k - 1), ch);
        if c > m {
            c
        } else {
            m
        }
    }
}

/// One pixel of a grid downsampled by `f`: `r = mean / 2 + max / 2`,
/// `g = 0.7 mean + 0.3 max`, `b = mean`, each rounded.
pub open spec fn down_pixel(px: Seq<RGB>, w: int, f: int, x: int, y: int) -> RGB {
    let n = (f * f) as nat;
    RGB {
        r: round_spec(
            block_sum(px, w, f, x, y, n, 0) + n * block_max(px, w, f, x, y, n, 0),
            2 * (n as int),
        ) as u8,
        g: round_spec(
            7 * block_sum(px, w, f, x, y, n, 1) + 3 * n * block_max(px, w, f, x, y, n, 1),
            10 * (n as int),
        ) as u8,
        b: round_spec(block_sum(px, w, f, x, y, n, 2), n as int) as u8,
    }
}

/// A `w` by `h` grid downsampled by `f`: `w / f` by `h / f`, row by row.
pub open spec fn reduced(px: Seq<RGB>, w: int, h: int, f: int) -> Seq<RGB> {
    let rw = w / f;
    let rh = h / f;
    Seq::new((rw * rh) as nat, |j: int| down_pixel(px, w, f, j % rw, j / rw))
}

impl ImageMap {
    /// The pixel count matches the dimensions.
    pub open spec fn wf(&self) -> bool {
        self.pixels@.len() == self.width * self.height
    }

    /// The pixel at column `x`, row `y`.
    pub open spec fn at(&self, x: int, y: int) -> RGB {
        pixel_at(self.pixels@, self.width as int, x, y)
    }

    /// Pixel `k` of the `f` by `f` block whose top-left corner is `(x * f, y * f)`.
    pub open spec fn block_pixel(&self, f: int, x: int, y: int, k: int) -> RGB {
        block_pixel(self.pixels@, self.width as int, f, x, y, k)
    }

    pub open spec fn block_sum(&self, f: int, x: int, y: int, k: nat, ch: int) -> int {
        block_sum(self.pixels@, self.width as int, f, x, y, k, ch)
    }

    pub open spec fn block_max(&self, f: int, x: int, y: int, k: nat, ch: int) -> int {
        block_max(self.pixels@, self.width as int, f, x, y, k, ch)
    }

    pub open spec fn down_pixel(&self, f: int, x: int, y: int) -> RGB {
        down_pixel(self.pixels@, self.width as int, f, x, y)
    }

    /// A map of the given size, every pixel white.
    pub fn new(width: u32, height: u32) -> (m: ImageMap)
        requires
            width * height <= usize::MAX,
        ensures
            m.wf(),
            m.width == width,
            m.height == height,
            forall|i: int| 0 <= i < m.pixels@.len() ==> m.pixels@[i] == white(),
    {
        let n: usize = width as usize * height as usize;
        let mut pixels: Vec<RGB> = Vec::new();
        let mut i: usize = 0;
        while i < n
            invariant
                i <= n,
                pixels@.len() == i,
                forall|j: int| 0 <= j < i ==> pixels@[j] == white(),
            decreases n - i,
        {
            pixels.push(RGB::new(255, 255, 255));
            i += 1;
        }
        ImageMap { width, height, pixels }
    }

    /// The map holds the pixels of `image`, row by row.
    pub open spec fn copies<I: Image>(&self, image: &I) -> bool {
        &&& self.wf()
        &&& self.width == image.spec_width()
        &&& self.height == image.spec_height()
        &&& forall|j: int|
            0 <= j < self.pixels@.len() ==> #[trigger] self.pixels@[j] == image.spec_get(
                (j % self.width as int) as u32,
                (j / self.width as int) as u32,
            )
    }

    /// A copy of an image, row by row; `None` exactly when its pixel count does not fit
    /// in a `usize`.
    pub fn from_image<I: Image>(image: &I) -> (m: Option<ImageMap>)
        ensures
            m is None <==> image.spec_width() * image.spec_height() > usize::MAX,
            m matches Some(map) ==> map.copies(image),
    {
        let w = image.width();
        let h = image.height();
        assert(w * h <= 0xffff_ffff * 0xffff_ffff) by (nonlinear_arith)
            requires
                w <= 0xffff_ffff,
                h <= 0xffff_ffff,
        ;
        let n: u64 = w as u64 * h as u64;
        if n > usize::MAX as u64 {
            return None;
        }
        let n = n as usize;
        let mut pixels: Vec<RGB> = Vec::new();
        let mut j: usize = 0;
        while j < n
            invariant
                w == image.spec_width(),
                h == image.spec_height(),
                n == w * h,
                j <= n,
                pixels@.len() == j,
                forall|k: int|
                    0 <= k < j ==> #[trigger] pixels@[k] == image.spec_get(
                        (k % w as int) as u32,
                        (k / w as int) as u32,
                    ),
            decreases n - j,
        {
            proof {
                assert(w > 0) by (nonlinear_arith)
                    requires
                        j < w * h,
                ;
                lemma_flat_split(j as int, w as int, h as int);
            }
            let x = (j % w as usize) as u32;
            let y = (j / w as usize) as u32;
            pixels.push(image.get(x, y));
            j = j + 1;
        }
        Some(ImageMap { width: w, height: h, pixels })
    }

    pub fn get(&self, x: u32, y: u32) -> (c: RGB)
        requires
            self.wf(),
            x < self.width,
            y < self.height,
        ensures
            c == self.at(x as int, y as int),
    {
        let _len = self.pixels.len();
        proof {
            lemma_flat_index(x as int, y as int, self.width as int, self.height as int);
        }
        self.pixels[y as usize * self.width as usize + x as usize]
    }

    pub fn set(&mut self, x: u32, y: u32, color: RGB)
        requires
            old(self).wf(),
            x < old(self).width,
            y < old(self).height,
        ensures
            final(self).wf(),
            final(self).width == old(self).width,
            final(self).height == old(self).height,
            final(self).pixels@ == old(self).pixels@.update(
                y * old(self).width + x,
                color,
            ),
    {
        let _len = self.pixels.len();
        proof {
            lemma_flat_index(x as int, y as int, self.width as int, self.height as int);
        }
        let i = y as usize * self.width as usize + x as usize;
        self.pixels.set(i, color);
    }

    /// Sums and maxima of the three channels over one `f` by `f` block.
    fn block_stats(&self, f: u32, x: u32, y: u32) -> (s: (u128, u128, u128, u128, u128))
        requires
            self.wf(),
            f >= 1,
            (x + 1) * f <= self.width,
            (y + 1) * f <= self.height,
        ensures
            s.0 == self.block_sum(f as int, x as int, y as int, (f * f) as nat, 0),
            s.1 == self.block_sum(f as int, x as int, y as int, (f * f) as nat, 1),
            s.2 == self.block_sum(f as int, x as int, y as int, (f * f) as nat, 2),
            s.3 == self.block_max(f as int, x as int, y as int, (f * f) as nat, 0),
            s.4 == self.block_max(f as int, x as int, y as int, (f * f) as nat, 1),
            s.0 <= 255 * (f * f),
            s.1 <= 255 * (f * f),
            s.2 <= 255 * (f * f),
            s.3 <= 255,
            s.4 <= 255,
    {
        assert(f * f <= u64::MAX) by (nonlinear_arith)
            requires
                f <= u32::MAX,
        ;
        let n: u64 = f as u64 * f as u64;
        let ghost fi = f as int;
        let ghost xi = x as int;
        let ghost yi = y as int;
        let mut sr: u128 = 0;
        let mut sg: u128 = 0;
        let mut sb: u128 = 0;
        let mut mr: u128 = 0;
        let mut mg: u128 = 0;
        let mut k: u64 = 0;
        while k < n
            invariant
                self.wf(),
                f >= 1,
                n == f * f,
                (x + 1) * f <= self.width,
                (y + 1) * f <= self.height,
                k <= n,
                fi == f as int,
                xi == x as int,
                yi == y as int,
                sr == self.block_sum(fi, xi, yi, k as nat, 0),
                sg == self.block_sum(fi, xi, yi, k as nat, 1),
                sb == self.block_sum(fi, xi, yi, k as nat, 2),
                mr == self.block_max(fi, xi, yi, k as nat, 0),
                mg == self.block_max(fi, xi, yi, k as nat, 1),
                sr <= 255 * k,
                sg <= 255 * k,
                sb <= 255 * k,
                mr <= 255,
                mg <= 255,
            decreases n - k,
        {
            let u: u64 = k % f as u64;
            let v: u64 = k / f as u64;
            proof {
                assert(fi * fi == n);
                lemma_flat_split(k as int, fi, fi);
                assert(x * f + u < self.width && y * f + v < self.height) by (nonlinear_arith)
                    requires
                        u < f,
                        v < f,
                        (x + 1) * f <= self.width,
                        (y + 1) * f <= self.height,
                ;
            }
            let px: u32 = (x as u64 * f as u64 + u) as u32;
            let py: u32 = (y as u64 * f as u64 + v) as u32;
            let c = self.get(px, py);
            sr = sr + c.r as u128;
            sg = sg + c.g as u128;
            sb = sb + c.b as u128;
            if c.r as u128 > mr {
                mr = c.r as u128;
            }
            if c.g as u128 > mg {
                mg = c.g as u128;
            }
            k = k + 1;
        }
        (sr, sg, sb, mr, mg)
    }

    /// Block-reduces the map by `factor`: the result is `width / factor` by
    /// `height / factor`, each pixel made from one `factor` by `factor` block.
    pub fn down_sample(self, factor: u32) -> (m: ImageMap)
        requires
            self.wf(),
            factor >= 1,
        ensures
            m.wf(),
            m.width == self.width / factor,
            m.height == self.height / factor,
            m.pixels@ == reduced(self.pixels@, self.width as int, self.height as int, factor as int),
            forall|i: int|
                0 <= i < m.pixels@.len() ==> #[trigger] m.pixels@[i] == self.down_pixel(
                    factor as int,
                    i % m.width as int,
                    i / m.width as int,
                ),
    {
        let width: u32 = self.width / factor;
        let height: u32 = self.height / factor;
        proof {
            assert(width * factor <= self.width && height * factor <= self.height)
                by (nonlinear_arith)
                requires
                    width == self.width / factor,
                    height == self.height / factor,
                    factor >= 1,
            ;
            assert(width * height <= self.width * self.height) by (nonlinear_arith)
                requires
                    width * factor <= self.width,
                    height * factor <= self.height,
                    factor >= 1,
            ;
        }
        let _len = self.pixels.len();
        let n: usize = width as usize * height as usize;
        let mut pixels: Vec<RGB> = Vec::new();
        let mut i: usize = 0;
        while i < n
            invariant
                self.wf(),
                factor >= 1,
                width == self.width / factor,
                height == self.height / factor,
                width * factor <= self.width,
                height * factor <= self.height,
                n == width * height,
                i <= n,
                pixels@.len() == i,
                forall|j: int|
                    0 <= j < i ==> #[trigger] pixels@[j] == self.down_pixel(
                        factor as int,
                        j % width as int,
                        j / width as int,
                    ),
            decreases n - i,
        {
            proof {
                assert(width > 0) by (nonlinear_arith)
                    requires
                        i < width * height,
                ;
                lemma_flat_split(i as int, width as int, height as int);
            }
            let x: u32 = (i % width as usize) as u32;
            let y: u32 = (i / width as usize) as u32;
            proof {
                assert((x + 1) * factor <= self.width && (y + 1) * factor <= self.height)
                    by (nonlinear_arith)
                    requires
                        x < width,
                        y < height,
                        width * factor <= self.width,
                        height * factor <= self.height,
                ;
            }
            let (sr, sg, sb, mr, mg) = self.block_stats(factor, x, y);
            assert(1 <= factor * factor <= u64::MAX) by (nonlinear_arith)
                requires
                    1 <= factor <= u32::MAX,
            ;
            let ff: u128 = factor as u128 * factor as u128;
            proof {
                lemma_round_channel_bounds(sr as int, mr as int, ff as int, 1, 1);
                lemma_round_channel_bounds(sg as int, mg as int, ff as int, 7, 3);
                lemma_round_channel_bounds(sb as int, 0, ff as int, 1, 0);
            }
            let r = round_div(sr + ff * mr, 2 * ff);
            let g = round_div(7 * sg + 3 * ff * mg, 10 * ff);
            let b = round_div(sb, ff);
            proof {
                assert(ff == factor * factor);
                assert(r == round_spec(sr + ff * mr, 2 * ff));
                assert(g == round_spec(7 * sg + 3 * ff * mg, 10 * ff));
                assert(b == round_spec(sb as int, ff as int));
            }
            pixels.push(RGB { r: r as u8, g: g as u8, b: b as u8 });
            i = i + 1;
        }
        assert(pixels@ =~= reduced(self.pixels@, self.width as int, self.height as int, factor as int));
        ImageMap { width, height, pixels }
    }
}

/// Every pixel of a block lies inside the map.
proof fn lemma_block_pixel_index(m: ImageMap, f: int, x: int, y: int, k: int)
    requires
        m.wf(),
        f >= 1,
        0 <= x,
        0 <= y,
        (x + 1) * f <= m.width,
        (y + 1) * f <= m.height,
        0 <= k < f * f,
    ensures
        0 <= (y * f + k / f) * m.width + (x * f + k % f) < m.pixels@.len(),
{
    lemma_flat_split(k, f, f);
    assert(0 <= x * f + k % f < m.width && 0 <= y * f + k / f < m.height) by (nonlinear_arith)
        requires
            0 <= k % f < f,
            0 <= k / f < f,
            0 <= x,
            0 <= y,
            f >= 1,
            (x + 1) * f <= m.width,
            (y + 1) * f <= m.height,
    ;
    lemma_flat_index(x * f + k % f, y * f + k / f, m.width as int, m.height as int);
}

proof fn lemma_uniform_block(m: ImageMap, f: int, x: int, y: int, k: nat, ch: int, c: RGB)
    requires
        m.wf(),
        f >= 1,
        0 <= x,
        0 <= y,
        (x + 1) * f <= m.width,
        (y + 1) * f <= m.height,
        k <= f * f,
        forall|i: int| 0 <= i < m.pixels@.len() ==> m.pixels@[i] == c,
    ensures
        m.block_sum(f, x, y, k, ch) == k * channel(c, ch),
        k >= 1 ==> m.block_max(f, x, y, k, ch) == channel(c, ch),
    decreases k,
{
    if k > 0 {
        lemma_uniform_block(m, f, x, y, (k - 1) as nat, ch, c);
        lemma_block_pixel_index(m, f, x, y, k - 1);
        assert(m.block_pixel(f, x, y, k - 1) == c);
        assert(m.block_sum(f, x, y, k, ch) == m.block_sum(f, x, y, (k - 1) as nat, ch) + channel(c, ch));
        assert(k * channel(c, ch) == (k - 1) * channel(c, ch) + channel(c, ch)) by (nonlinear_arith);
        assert(channel(c, ch) >= 0);
        let prev = m.block_max(f, x, y, (k - 1) as nat, ch);
        assert(k == 1 ==> prev == 0);
        assert(m.block_max(f, x, y, k, ch) == if channel(c, ch) > prev {
            channel(c, ch)
        } else {
            prev
        });
    } else {
        assert(k * channel(c, ch) == 0) by (nonlinear_arith)
            requires
                k == 0,
        ;
    }
}

/// Downsampling a map of one colour gives that colour back: over a constant block
/// the mean and the maximum agree.
pub proof fn lemma_down_sample_uniform(m: ImageMap, f: int, c: RGB)
    requires
        m.wf(),
        f >= 1,
        forall|i: int| 0 <= i < m.pixels@.len() ==> m.pixels@[i] == c,
    ensures
        forall|x: int, y: int|
            0 <= x < (m.width as int) / f && 0 <= y < (m.height as int) / f ==> #[trigger] m.down_pixel(f, x, y) == c,
{
    assert forall|x: int, y: int|
        0 <= x < (m.width as int) / f && 0 <= y < (m.height as int) / f implies #[trigger] m.down_pixel(f, x, y) == c by {
        assert((x + 1) * f <= m.width && (y + 1) * f <= m.height) by (nonlinear_arith)
            requires
                0 <= x < (m.width as int) / f,
                0 <= y < (m.height as int) / f,
                f >= 1,
        ;
        let n = (f * f) as nat;
        assert(n >= 1) by (nonlinear_arith)
            requires
                f >= 1,
                n == f * f,
        ;
        lemma_uniform_block(m, f, x, y, n, 0, c);
        lemma_uniform_block(m, f, x, y, n, 1, c);
        lemma_uniform_block(m, f, x, y, n, 2, c);
        let r = c.r as int;
        let g = c.g as int;
        let b = c.b as int;
        assert(4 * n * r <= 2 * (n * r + n * r) + 2 * n < 4 * n * (r + 1)) by (nonlinear_arith)
            requires
                n >= 1,
        ;
        lemma_div_unique(2 * (n * r + n * r) + 2 * n, 4 * (n as int), r);
        assert(20 * n * g <= 2 * (7 * (n * g) + 3 * n * g) + 10 * n < 20 * n * (g + 1))
            by (nonlinear_arith)
            requires
                n >= 1,
        ;
        lemma_div_unique(2 * (7 * (n * g) + 3 * n * g) + 10 * n, 20 * (n as int), g);
        assert(2 * n * b <= 2 * (n * b) + n < 2 * n * (b + 1)) by (nonlinear_arith)
            requires
                n >= 1,
        ;
        lemma_div_unique(2 * (n * b) + n, 2 * (n as int), b);
        assert(2 * (2 * n) == 4 * n && 2 * (10 * n) == 20 * n);
    }
}

/// A weighted blend of a block's mean and maximum stays within a channel's range.
proof fn lemma_round_channel_bounds(s: int, m: int, n: int, ws: int, wm: int)
    requires
        n >= 1,
        0 <= s <= 255 * n,
        0 <= m <= 255,
        ws >= 1,
        wm >= 0,
    ensures
        0 <= ws * s + wm * n * m <= 255 * ((ws + wm) * n),
        (ws + wm) * n >= 1,
        0 <= round_spec(ws * s + wm * n * m, (ws + wm) * n) <= 255,
{
    let d = (ws + wm) * n;
    let a = ws * s + wm * n * m;
    assert(0 <= a <= 255 * d) by (nonlinear_arith)
        requires
            d == (ws + wm) * n,
            a == ws * s + wm * n * m,
            n >= 1,
            0 <= s <= 255 * n,
            0 <= m <= 255,
            ws >= 1,
            wm >= 0,
    ;
    assert(d >= 1) by (nonlinear_arith)
        requires
            d == (ws + wm) * n,
            n >= 1,
            ws >= 1,
            wm >= 0,
    ;
    assert((2 * a + d) / (2 * d) <= 255) by (nonlinear_arith)
        requires
            0 <= a <= 255 * d,
            d >= 1,
    ;
    assert((2 * a + d) / (2 * d) >= 0) by (nonlinear_arith)
        requires
            0 <= a,
            d >= 1,
    ;
}

} // verus!
