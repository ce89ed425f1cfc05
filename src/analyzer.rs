//! The analyzer: validates a request, prescales the image, builds the saliency map,
//! picks the best-scoring candidate and maps it back to the original image.
use vstd::prelude::*;

use crate::color::RGB;
use crate::crop::{scaled, Crop, Score, ScoredCrop};
use crate::detect::{edge_detect, edge_value, saturation_detect, saturation_value, skin_detect, skin_value};
use crate::fixed::round_spec;
use crate::map::{reduced, ImageMap};
use crate::search::{crop_inside, crops, crops_spec, score, score_spec, MAX_SCALE_TENTHS, SCORE_DOWN_SAMPLE};

verus! {

/// Images are prescaled so that their smaller side is at most this long.
pub const PRESCALE_MIN: u32 = 400;

/// The scale sweep never goes below this, in tenths.
pub const MIN_SCALE_TENTHS: u32 = 10;

/// An image the analyzer can read.
pub trait Image: Sized {
    /// The width, as contracts see it. Left open here: implementations define it.
    open spec fn spec_width(&self) -> u32 {
        arbitrary()
    }

    /// The height, as contracts see it. Left open here: implementations define it.
    open spec fn spec_height(&self) -> u32 {
        arbitrary()
    }

    /// The pixel at column `x`, row `y`, as contracts see it. Left open here:
    /// implementations define it.
    open spec fn spec_get(&self, x: u32, y: u32) -> RGB {
        arbitrary()
    }

    fn width(&self) -> (r: u32)
        ensures
            r == self.spec_width(),
    ;

    fn height(&self) -> (r: u32)
        ensures
            r == self.spec_height(),
    ;

    /// The pixel at column `x`, row `y`.
    fn get(&self, x: u32, y: u32) -> (c: RGB)
        requires
            x < self.spec_width(),
            y < self.spec_height(),
        ensures
            c == self.spec_get(x, y),
    ;
}

/// An image that can produce a resampled copy of itself.
pub trait ResizableImage<I: Image> {
    /// The resized copy, as contracts see it. Left open here: what it holds is the
    /// implementation's choice.
    open spec fn spec_resize(&self, width: u32, height: u32) -> I {
        arbitrary()
    }

    fn resize(&self, width: u32, height: u32) -> (r: I)
        ensures
            r == self.spec_resize(width, height),
    ;
}

/// Why no crop could be searched for.
#[derive(Clone, Copy, PartialEq, Eq, Debug, Structural)]
pub enum Error {
    /// The image has no pixels.
    ZeroSizedImage,
    /// Neither target dimension was given.
    WidthOrHeightAreNotGiven,
}

/// Tuning of the search; it holds nothing yet.
#[derive(Clone, Copy, Debug)]
pub struct CropSettings {}

impl CropSettings {
    pub fn default() -> CropSettings {
        CropSettings {  }
    }
}

/// Finds the crop of an image that best keeps its salient content.
pub struct Analyzer {
    pub settings: CropSettings,
}

impl Analyzer {
    pub fn new(settings: CropSettings) -> (a: Analyzer)
        ensures
            a.settings == settings,
    {
        Analyzer { settings }
    }
}

/// The saliency map of an image, row by row: skin in `r`, detail in `g`, saturation
/// in `b`, each computed from the image alone.
pub open spec fn saliency(img: &ImageMap) -> Seq<RGB> {
    let w = img.width as int;
    Seq::new(
        img.pixels@.len(),
        |j: int|
            RGB {
                r: skin_value(img.pixels@[j]) as u8,
                g: edge_value(img, j % w, j / w) as u8,
                b: saturation_value(img.pixels@[j]) as u8,
            },
    )
}

/// The score of a crop of `img`, against its saliency map downsampled for scoring.
pub open spec fn candidate_score(img: &ImageMap, c: Crop) -> Score {
    let w = img.width as int;
    let h = img.height as int;
    let f = SCORE_DOWN_SAMPLE as int;
    score_spec(reduced(saliency(img), w, h, f), w / f, c)
}

/// Candidate `k` has the highest total, and no later candidate ties with it.
pub open spec fn is_last_best(img: &ImageMap, cands: Seq<Crop>, k: int) -> bool {
    &&& 0 <= k < cands.len()
    &&& forall|j: int|
        0 <= j < cands.len() ==> (#[trigger] candidate_score(img, cands[j])).total
            <= candidate_score(img, cands[k]).total
    &&& forall|j: int|
        k < j < cands.len() ==> (#[trigger] candidate_score(img, cands[j])).total < candidate_score(
            img,
            cands[k],
        ).total
}

/// `r` is candidate `k` with its score, and `k` is the last best candidate.
pub open spec fn picks(img: &ImageMap, cands: Seq<Crop>, k: int, r: ScoredCrop) -> bool {
    &&& is_last_best(img, cands, k)
    &&& r.crop == cands[k]
    &&& r.score == candidate_score(img, cands[k])
}

/// Builds the saliency map of `img`, scores every candidate crop of `crop_width` by
/// `crop_height` (0 meaning the smaller dimension) down to scale `min_scale_tenths / 10`,
/// and returns the highest-scoring one, the later of equal ones.
pub fn analyse(
    _cs: &CropSettings,
    img: &ImageMap,
    crop_width: u32,
    crop_height: u32,
    min_scale_tenths: u32,
) -> (r: ScoredCrop)
    requires
        img.wf(),
        min_scale_tenths >= 1,
    ensures
        exists|k: int|
            #[trigger] picks(
                img,
                crops_spec(
                    img.width as int,
                    img.height as int,
                    crop_width as int,
                    crop_height as int,
                    min_scale_tenths as int,
                ),
                k,
                r,
            ),
        crop_inside(r.crop, img.width as int, img.height as int),
{
    let _n = img.pixels.len();
    let mut o = ImageMap::new(img.width, img.height);
    edge_detect(img, &mut o);
    skin_detect(img, &mut o);
    saturation_detect(img, &mut o);
    assert(o.pixels@ =~= saliency(img));
    let cands = crops(img.width, img.height, crop_width, crop_height, min_scale_tenths);
    let d = o.down_sample(SCORE_DOWN_SAMPLE);
    let ghost cs = cands@;
    let first = cands[0];
    let mut best = ScoredCrop { crop: first, score: score(&d, &first) };
    let ghost mut k: int = 0;
    let mut i: usize = 1;
    while i < cands.len()
        invariant
            d.wf(),
            d.pixels@ == reduced(
                saliency(img),
                img.width as int,
                img.height as int,
                SCORE_DOWN_SAMPLE as int,
            ),
            d.width == img.width / SCORE_DOWN_SAMPLE,
            cs == cands@,
            cs.len() > 0,
            1 <= i <= cs.len(),
            0 <= k < i,
            best.crop == cs[k],
            best.score == candidate_score(img, cs[k]),
            forall|j: int|
                0 <= j < i ==> (#[trigger] candidate_score(img, cs[j])).total <= best.score.total,
            forall|j: int|
                k < j < i ==> (#[trigger] candidate_score(img, cs[j])).total < best.score.total,
        decreases cs.len() - i,
    {
        let c = cands[i];
        let s = score(&d, &c);
        if !(best.score.total > s.total) {
            best = ScoredCrop { crop: c, score: s };
            proof {
                k = i as int;
            }
        }
        i = i + 1;
    }
    proof {
        assert(picks(img, cs, k, best));
    }
    best
}

/// The scale of a request, `min(iw / tw, ih / th)`, as a fraction; a missing target
/// side does not constrain it.
pub open spec fn scale_frac(iw: int, ih: int, tw: int, th: int) -> (int, int) {
    if tw == 0 {
        (ih, th)
    } else if th == 0 {
        (iw, tw)
    } else if iw * th <= ih * tw {
        (iw, tw)
    } else {
        (ih, th)
    }
}

/// The prescale factor `min(1, PRESCALE_MIN / min(iw, ih))`, as a fraction.
pub open spec fn prescale_frac(iw: int, ih: int) -> (int, int) {
    let m = if iw < ih {
        iw
    } else {
        ih
    };
    if m <= PRESCALE_MIN {
        (1, 1)
    } else {
        (PRESCALE_MIN as int, m)
    }
}

/// The error a request fails with, if any: missing targets first, then an empty image.
pub open spec fn request_error(iw: int, ih: int, tw: int, th: int) -> Option<Error> {
    if tw == 0 && th == 0 {
        Some(Error::WidthOrHeightAreNotGiven)
    } else if iw == 0 || ih == 0 {
        Some(Error::ZeroSizedImage)
    } else {
        None
    }
}

/// The lowest scale of the sweep, in tenths: `10 / scale` clamped to
/// `[MIN_SCALE_TENTHS, MAX_SCALE_TENTHS]`.
pub open spec fn real_min_scale_spec(sn: int, sd: int) -> int {
    let v = (10 * sd + sn - 1) / sn;
    if v < MIN_SCALE_TENTHS {
        MIN_SCALE_TENTHS as int
    } else if v > MAX_SCALE_TENTHS {
        MAX_SCALE_TENTHS as int
    } else {
        v
    }
}

/// How a request is carried out on the prescaled image.
#[derive(Clone, Copy, PartialEq, Eq, Debug, Structural)]
pub struct Prescale {
    pub image_width: u32,
    pub image_height: u32,
    /// The prescale factor is `factor_num / factor_den`.
    pub factor_num: u32,
    pub factor_den: u32,
    pub new_width: u32,
    pub new_height: u32,
    pub crop_width: u32,
    pub crop_height: u32,
    pub min_scale_tenths: u32,
}

/// The plan for a valid request.
pub open spec fn prescale_spec(iw: int, ih: int, tw: int, th: int) -> Prescale {
    let (sn, sd) = scale_frac(iw, ih, tw, th);
    let (fnum, fden) = prescale_frac(iw, ih);
    let nw = round_spec(iw * fnum, fden);
    Prescale {
        image_width: iw as u32,
        image_height: ih as u32,
        factor_num: fnum as u32,
        factor_den: fden as u32,
        new_width: nw as u32,
        new_height: round_spec(nw * ih, iw) as u32,
        crop_width: round_spec(tw * sn * fnum, sd * fden) as u32,
        crop_height: round_spec(th * sn * fnum, sd * fden) as u32,
        min_scale_tenths: real_min_scale_spec(sn, sd) as u32,
    }
}

/// `round(a / b)` is at most `bound` when `a <= bound * b`.
proof fn lemma_round_at_most(a: int, b: int, bound: int)
    requires
        b > 0,
        0 <= a <= bound * b,
    ensures
        0 <= round_spec(a, b) <= bound,
{
    assert((2 * a + b) / (2 * b) <= bound) by (nonlinear_arith)
        requires
            b > 0,
            0 <= a <= bound * b,
    ;
    assert((2 * a + b) / (2 * b) >= 0) by (nonlinear_arith)
        requires
            b > 0,
            a >= 0,
    ;
}

/// `round(a / b)` for non-negative `a` and positive `b`, both below 2^126.
fn round_u128(a: u128, b: u128) -> (r: u128)
    requires
        b > 0,
        a <= 0x1000_0000_0000_0000_0000_0000_0000_0000,
        b <= 0x1000_0000_0000_0000_0000_0000_0000_0000,
    ensures
        r == round_spec(a as int, b as int),
{
    (2 * a + b) / (2 * b)
}

impl Prescale {
    /// Validates a request for a `target_width` by `target_height` crop of an
    /// `image_width` by `image_height` image and plans its prescaling.
    pub fn new(image_width: u32, image_height: u32, target_width: u32, target_height: u32) -> (r:
        Result<Prescale, Error>)
        ensures
            match r {
                Err(e) => request_error(
                    image_width as int,
                    image_height as int,
                    target_width as int,
                    target_height as int,
                ) == Some(e),
                Ok(p) => request_error(
                    image_width as int,
                    image_height as int,
                    target_width as int,
                    target_height as int,
                ) is None && p == prescale_spec(
                    image_width as int,
                    image_height as int,
                    target_width as int,
                    target_height as int,
                ),
            },
    {
        if target_width == 0 && target_height == 0 {
            return Err(Error::WidthOrHeightAreNotGiven);
        }
        if image_width == 0 || image_height == 0 {
            return Err(Error::ZeroSizedImage);
        }
        let iw = image_width as u128;
        let ih = image_height as u128;
        let tw = target_width as u128;
        let th = target_height as u128;
        assert(iw * th <= 0xffff_ffff * 0xffff_ffff && ih * tw <= 0xffff_ffff * 0xffff_ffff)
            by (nonlinear_arith)
            requires
                iw <= 0xffff_ffff,
                ih <= 0xffff_ffff,
                tw <= 0xffff_ffff,
                th <= 0xffff_ffff,
        ;
        let (sn, sd): (u128, u128) = if tw == 0 {
            (ih, th)
        } else if th == 0 {
            (iw, tw)
        } else if iw * th <= ih * tw {
            (iw, tw)
        } else {
            (ih, th)
        };
        let m: u128 = if iw < ih {
            iw
        } else {
            ih
        };
        let (fnum, fden): (u128, u128) = if m <= PRESCALE_MIN as u128 {
            (1, 1)
        } else {
            (PRESCALE_MIN as u128, m)
        };
        // the crop fits the image: tw * sn <= iw * sd and th * sn <= ih * sd
        assert(tw * sn <= iw * sd && th * sn <= ih * sd) by (nonlinear_arith)
            requires
                sn as int == scale_frac(iw as int, ih as int, tw as int, th as int).0,
                sd as int == scale_frac(iw as int, ih as int, tw as int, th as int).1,
                tw > 0 || th > 0,
        ;
        assert(0 < fnum <= fden <= 0xffff_ffff);
        assert(tw * sn * fnum <= iw * (sd * fden) && th * sn * fnum <= ih * (sd * fden)
            && sd * fden > 0 && tw * sn * fnum <= 0x1_0000_0000 * 0x1_0000_0000 * 0x1_0000_0000
            && th * sn * fnum <= 0x1_0000_0000 * 0x1_0000_0000 * 0x1_0000_0000
            && sd * fden <= 0x1_0000_0000 * 0x1_0000_0000 && iw * fnum <= iw * fden)
            by (nonlinear_arith)
            requires
                tw * sn <= iw * sd,
                th * sn <= ih * sd,
                0 < fnum <= fden <= 0xffff_ffff,
                tw <= 0xffff_ffff,
                th <= 0xffff_ffff,
                0 < sn <= 0xffff_ffff,
                0 < sd <= 0xffff_ffff,
                iw <= 0xffff_ffff,
        ;
        let crop_width = round_u128(tw * sn * fnum, sd * fden);
        let crop_height = round_u128(th * sn * fnum, sd * fden);
        proof {
            lemma_round_at_most((tw * sn * fnum) as int, (sd * fden) as int, iw as int);
            lemma_round_at_most((th * sn * fnum) as int, (sd * fden) as int, ih as int);
            lemma_round_at_most((iw * fnum) as int, fden as int, iw as int);
        }
        let new_width = round_u128(iw * fnum, fden);
        assert(new_width * ih <= iw * ih) by (nonlinear_arith)
            requires
                new_width <= iw,
        ;
        assert(iw * ih <= 0x1_0000_0000 * 0x1_0000_0000) by (nonlinear_arith)
            requires
                iw <= 0xffff_ffff,
                ih <= 0xffff_ffff,
        ;
        let new_height = round_u128(new_width * ih, iw);
        proof {
            lemma_round_at_most((new_width * ih) as int, iw as int, ih as int);
        }
        let min_scale = calculate_real_min_scale(sn, sd);
        let p = Prescale {
            image_width,
            image_height,
            factor_num: fnum as u32,
            factor_den: fden as u32,
            new_width: new_width as u32,
            new_height: new_height as u32,
            crop_width: crop_width as u32,
            crop_height: crop_height as u32,
            min_scale_tenths: min_scale,
        };
        proof {
            assert(tw * sn * fnum == target_width * sn * fnum);
        }
        Ok(p)
    }
}

/// A side of `len` at `pos`, moved and shrunk as little as needed to fit in `limit`.
pub open spec fn fit_side(pos: int, len: int, limit: int) -> (int, int) {
    let l = if len < limit {
        len
    } else {
        limit
    };
    let p = if pos < limit - l {
        pos
    } else {
        limit - l
    };
    (p, l)
}

/// A crop of the prescaled image scaled back by `factor_den / factor_num` and fitted
/// into the original image.
pub open spec fn restore_spec(p: Prescale, c: Crop) -> Crop {
    let (x, w) = fit_side(
        scaled(c.x as int, p.factor_den as int, p.factor_num as int),
        scaled(c.width as int, p.factor_den as int, p.factor_num as int),
        p.image_width as int,
    );
    let (y, h) = fit_side(
        scaled(c.y as int, p.factor_den as int, p.factor_num as int),
        scaled(c.height as int, p.factor_den as int, p.factor_num as int),
        p.image_height as int,
    );
    Crop { x: x as u32, y: y as u32, width: w as u32, height: h as u32 }
}

/// `round(v * num / den)` for 32-bit values.
fn scaled_exec(v: u32, num: u32, den: u32) -> (r: u64)
    requires
        den > 0,
    ensures
        r == scaled(v as int, num as int, den as int),
{
    assert(v * num <= 0xffff_ffff * 0xffff_ffff) by (nonlinear_arith)
        requires
            v <= 0xffff_ffff,
            num <= 0xffff_ffff,
    ;
    assert((2 * (v * num) + den) / (2 * den) <= v * num + 1) by (nonlinear_arith)
        requires
            den > 0,
            v * num >= 0,
    ;
    let a: u128 = v as u128 * num as u128;
    ((2 * a + den as u128) / (2 * den as u128)) as u64
}

fn fit_side_exec(pos: u64, len: u64, limit: u32) -> (r: (u32, u32))
    ensures
        r.0 == fit_side(pos as int, len as int, limit as int).0,
        r.1 == fit_side(pos as int, len as int, limit as int).1,
        r.0 + r.1 <= limit,
{
    let l: u64 = if len < limit as u64 {
        len
    } else {
        limit as u64
    };
    let p: u64 = if pos < limit as u64 - l {
        pos
    } else {
        limit as u64 - l
    };
    (p as u32, l as u32)
}

impl Prescale {
    /// Maps a crop of the prescaled image back to the original image, fitted inside it;
    /// the score is kept.
    pub fn restore(&self, top: &ScoredCrop) -> (r: ScoredCrop)
        requires
            self.factor_num > 0,
        ensures
            r.crop == restore_spec(*self, top.crop),
            r.score == top.score,
            crop_inside(r.crop, self.image_width as int, self.image_height as int),
    {
        let c = top.crop;
        let x = scaled_exec(c.x, self.factor_den, self.factor_num);
        let w = scaled_exec(c.width, self.factor_den, self.factor_num);
        let y = scaled_exec(c.y, self.factor_den, self.factor_num);
        let h = scaled_exec(c.height, self.factor_den, self.factor_num);
        let (x2, w2) = fit_side_exec(x, w, self.image_width);
        let (y2, h2) = fit_side_exec(y, h, self.image_height);
        ScoredCrop { crop: Crop { x: x2, y: y2, width: w2, height: h2 }, score: top.score }
    }
}

/// Fitting changes nothing for a crop whose scaled-back form already lies inside the
/// image.
pub proof fn lemma_restore_keeps_fitting_crop(p: Prescale, c: Crop)
    requires
        p.factor_num > 0,
        scaled(c.x as int, p.factor_den as int, p.factor_num as int) + scaled(
            c.width as int,
            p.factor_den as int,
            p.factor_num as int,
        ) <= p.image_width,
        scaled(c.y as int, p.factor_den as int, p.factor_num as int) + scaled(
            c.height as int,
            p.factor_den as int,
            p.factor_num as int,
        ) <= p.image_height,
    ensures
        restore_spec(p, c).x == scaled(c.x as int, p.factor_den as int, p.factor_num as int),
        restore_spec(p, c).y == scaled(c.y as int, p.factor_den as int, p.factor_num as int),
        restore_spec(p, c).width == scaled(c.width as int, p.factor_den as int, p.factor_num as int),
        restore_spec(p, c).height == scaled(c.height as int, p.factor_den as int, p.factor_num as int),
{
    let n = p.factor_den as int;
    let d = p.factor_num as int;
    assert forall|v: int| v >= 0 implies #[trigger] scaled(v, n, d) >= 0 by {
        assert((2 * (v * n) + d) / (2 * d) >= 0) by (nonlinear_arith)
            requires
                v >= 0,
                n >= 0,
                d > 0,
        ;
    }
    assert(scaled(c.x as int, n, d) >= 0);
    assert(scaled(c.y as int, n, d) >= 0);
    assert(scaled(c.width as int, n, d) >= 0);
    assert(scaled(c.height as int, n, d) >= 0);
}

/// `r` is the best candidate `top` (number `k`) of the prescaled map `map`, searched as
/// `plan` says, mapped back into the original image.
pub open spec fn restores_best(
    map: &ImageMap,
    plan: Prescale,
    top: ScoredCrop,
    k: int,
    r: ScoredCrop,
) -> bool {
    &&& picks(
        map,
        crops_spec(
            map.width as int,
            map.height as int,
            plan.crop_width as int,
            plan.crop_height as int,
            plan.min_scale_tenths as int,
        ),
        k,
        top,
    )
    &&& r.crop == restore_spec(plan, top.crop)
    &&& r.score == top.score
}

/// `r` is some crop `top` of the prescaled image, with its score, mapped back as the
/// plan of a `tw` by `th` request on an `iw` by `ih` image says.
pub open spec fn restores_some(iw: int, ih: int, tw: int, th: int, top: ScoredCrop, r: ScoredCrop) -> bool {
    &&& r.crop == restore_spec(prescale_spec(iw, ih, tw, th), top.crop)
    &&& r.score == top.score
}

impl Analyzer {
    /// Finds the best `width` by `height` crop of `img` (a side of 0 taking the image's
    /// smaller dimension). It fails exactly when `request_error` names an error. Else
    /// `img` is resized to the planned `new_width` by `new_height`, the best crop of the
    /// result is found (`crop_prescaled`), and it comes back mapped into `img`, inside
    /// it. A resized image whose pixel count does not fit in a `usize` is not searched:
    /// its whole area comes back, with a zero score.
    pub fn find_best_crop<I: Image + ResizableImage<RI>, RI: Image>(
        &self,
        img: &I,
        width: u32,
        height: u32,
    ) -> (r: Result<ScoredCrop, Error>)
        ensures
            r matches Err(e) ==> request_error(
                img.spec_width() as int,
                img.spec_height() as int,
                width as int,
                height as int,
            ) == Some(e),
            r is Ok ==> request_error(
                img.spec_width() as int,
                img.spec_height() as int,
                width as int,
                height as int,
            ) is None,
            r matches Ok(s) ==> crop_inside(
                s.crop,
                img.spec_width() as int,
                img.spec_height() as int,
            ),
            r is Ok ==> {
                let plan = prescale_spec(
                    img.spec_width() as int,
                    img.spec_height() as int,
                    width as int,
                    height as int,
                );
                let resized = img.spec_resize(plan.new_width, plan.new_height);
                resized.spec_width() * resized.spec_height() <= usize::MAX ==> exists|
                    map: ImageMap,
                    top: ScoredCrop,
                    k: int,
                | map.copies(&resized) && #[trigger] restores_best(&map, plan, top, k, r->Ok_0)
            },
            r is Ok ==> exists|top: ScoredCrop|
                #[trigger] restores_some(
                    img.spec_width() as int,
                    img.spec_height() as int,
                    width as int,
                    height as int,
                    top,
                    r->Ok_0,
                ),
    {
        let iw = img.width();
        let ih = img.height();
        let plan = match Prescale::new(iw, ih, width, height) {
            Ok(p) => p,
            Err(e) => {
                return Err(e);
            },
        };
        proof {
            lemma_valid_request_is_planned(plan.image_width, plan.image_height, width, height);
        }
        let resized = img.resize(plan.new_width, plan.new_height);
        assert(plan == prescale_spec(iw as int, ih as int, width as int, height as int));
        let found = match ImageMap::from_image(&resized) {
            Some(map) => {
                let best = self.crop_prescaled(&plan, &map);
                let ghost (top, k) = choose|top: ScoredCrop, k: int|
                    #[trigger] restores_best(&map, plan, top, k, best);
                assert(map.copies(&resized) && restores_best(&map, plan, top, k, best));
                assert(restores_some(iw as int, ih as int, width as int, height as int, top, best));
                best
            },
            None => {
                let top = ScoredCrop {
                    crop: Crop { x: 0, y: 0, width: plan.new_width, height: plan.new_height },
                    score: Score { detail: 0, saturation: 0, skin: 0, total: 0 },
                };
                let whole = plan.restore(&top);
                assert(restores_some(iw as int, ih as int, width as int, height as int, top, whole));
                whole
            },
        };
        let res: Result<ScoredCrop, Error> = Ok(found);
        assert(res->Ok_0 == found);
        res
    }

    /// Searches the prescaled image `map` as `plan` says and maps its best crop back
    /// into the original image.
    pub fn crop_prescaled(&self, plan: &Prescale, map: &ImageMap) -> (r: ScoredCrop)
        requires
            map.wf(),
            plan.factor_num > 0,
            plan.min_scale_tenths >= 1,
        ensures
            exists|top: ScoredCrop, k: int| #[trigger] restores_best(map, *plan, top, k, r),
            crop_inside(r.crop, plan.image_width as int, plan.image_height as int),
    {
        let top = analyse(
            &self.settings,
            map,
            plan.crop_width,
            plan.crop_height,
            plan.min_scale_tenths,
        );
        let r = plan.restore(&top);
        let ghost k = choose|k: int|
            #[trigger] picks(
                map,
                crops_spec(
                    map.width as int,
                    map.height as int,
                    plan.crop_width as int,
                    plan.crop_height as int,
                    plan.min_scale_tenths as int,
                ),
                k,
                top,
            );
        assert(restores_best(map, *plan, top, k, r));
        r
    }
}

/// A request for a crop with at least one given side of a non-empty image is accepted,
/// and its plan meets what `Analyzer::crop_prescaled` asks, whose result lies inside the
/// image.
pub proof fn lemma_valid_request_is_planned(iw: u32, ih: u32, tw: u32, th: u32)
    requires
        iw > 0,
        ih > 0,
        tw > 0 || th > 0,
    ensures
        request_error(iw as int, ih as int, tw as int, th as int) is None,
        prescale_spec(iw as int, ih as int, tw as int, th as int).factor_num > 0,
        prescale_spec(iw as int, ih as int, tw as int, th as int).min_scale_tenths >= 1,
        prescale_spec(iw as int, ih as int, tw as int, th as int).image_width == iw,
        prescale_spec(iw as int, ih as int, tw as int, th as int).image_height == ih,
{
}

/// The lowest scale of the sweep for a request of scale `sn / sd`, in tenths.
fn calculate_real_min_scale(sn: u128, sd: u128) -> (t: u32)
    requires
        0 < sn <= 0xffff_ffff,
        sd <= 0xffff_ffff,
    ensures
        t == real_min_scale_spec(sn as int, sd as int),
        MIN_SCALE_TENTHS <= t <= MAX_SCALE_TENTHS,
{
    let v = (10 * sd + sn - 1) / sn;
    if v < MIN_SCALE_TENTHS as u128 {
        MIN_SCALE_TENTHS
    } else if v > MAX_SCALE_TENTHS as u128 {
        MAX_SCALE_TENTHS
    } else {
        v as u32
    }
}

} // verus!
