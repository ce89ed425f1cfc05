use smartcrop::{
    analyse, crops, edge_detect, make_cies, saturation_detect, score, skin_detect, Analyzer, Crop,
    CropSettings, Error, Image, ImageMap, Prescale, ResizableImage, Score, ScoredCrop, RGB, UNIT,
};

// Scores are fixed-point integers in units of 1 / UNIT. They are compared with the
// expected floating-point values within this tolerance.
const TOLERANCE: f64 = 1e-6;

fn close(v: i128, expected: f64) -> bool {
    (v as f64 / UNIT as f64 - expected).abs() < TOLERANCE
}

const WHITE: RGB = RGB { r: 255, g: 255, b: 255 };
const BLACK: RGB = RGB { r: 0, g: 0, b: 0 };
const RED: RGB = RGB { r: 255, g: 0, b: 0 };
const GREEN: RGB = RGB { r: 0, g: 255, b: 0 };
const BLUE: RGB = RGB { r: 0, g: 0, b: 255 };
const SKIN: RGB = RGB { r: 255, g: 200, b: 159 };

#[derive(Debug, Clone)]
struct TestImage {
    w: u32,
    h: u32,
    pixels: Vec<Vec<RGB>>,
}

impl TestImage {
    fn new(w: u32, h: u32, pixels: Vec<Vec<RGB>>) -> TestImage {
        TestImage { w, h, pixels }
    }

    fn new_single_pixel(pixel: RGB) -> TestImage {
        TestImage { w: 1, h: 1, pixels: vec![vec![pixel]] }
    }

    fn new_from_fn<G>(w: u32, h: u32, generate: G) -> TestImage
    where
        G: Fn(u32, u32) -> RGB,
    {
        let mut pixels = vec![vec![WHITE; h as usize]; w as usize];
        for y in 0..h {
            for x in 0..w {
                pixels[x as usize][y as usize] = generate(x, y)
            }
        }
        TestImage { w, h, pixels }
    }

    fn new_white(w: u32, h: u32) -> TestImage {
        let pixels = vec![vec![WHITE; h as usize]; w as usize];
        TestImage { w, h, pixels }
    }
}

impl Image for TestImage {
    fn width(&self) -> u32 {
        self.w
    }

    fn height(&self) -> u32 {
        self.h
    }

    fn get(&self, x: u32, y: u32) -> RGB {
        self.pixels[x as usize][y as usize]
    }
}

impl ResizableImage<TestImage> for TestImage {
    fn resize(&self, width: u32, _height: u32) -> TestImage {
        if width == self.w {
            return self.clone();
        }
        let height = (self.h as f64 * width as f64 / self.w as f64).round() as u32;
        // Only the size changes: the pixels are read from the full-size grid.
        TestImage { w: width, h: height, pixels: self.pixels.clone() }
    }
}

fn map_of(image: &TestImage) -> ImageMap {
    ImageMap::from_image(image).unwrap()
}

#[test]
fn saturation_tests() {
    let frac = |c: RGB| c.saturation() as f64 / UNIT as f64;
    assert_eq!(0.0, frac(BLACK));
    assert_eq!(0.0, frac(WHITE));
    assert_eq!(1.0, frac(RGB::new(255, 0, 0)));
    assert_eq!(1.0, frac(RGB::new(0, 255, 0)));
    assert_eq!(1.0, frac(RGB::new(0, 0, 255)));
    assert_eq!(1.0, frac(RGB::new(0, 255, 255)));
}

#[test]
fn saturation_of_a_dark_and_a_light_colour() {
    // lightness below one half: d / (max + min)
    assert_eq!((50, 150), RGB::new(100, 50, 50).saturation_parts());
    // above one half: d / (2 - max - min)
    assert_eq!((55, 55), RGB::new(255, 200, 200).saturation_parts());
    assert_eq!(UNIT as u64 / 3, RGB::new(100, 50, 50).saturation());
}

#[test]
fn image_map_test() {
    let mut image_map = ImageMap::new(1, 2);

    assert_eq!(image_map.width, 1);
    assert_eq!(image_map.height, 2);

    assert_eq!(image_map.get(0, 0), RGB::new(255, 255, 255));
    assert_eq!(image_map.get(0, 1), RGB::new(255, 255, 255));

    let red = RGB::new(255, 0, 0);
    image_map.set(0, 0, red);
    assert_eq!(image_map.get(0, 0), red);

    let green = RGB::new(0, 255, 0);
    image_map.set(0, 1, green);
    assert_eq!(image_map.get(0, 1), green);
}

#[test]
fn crops_test() {
    let crops = crops(8, 8, 8, 8, 10);
    assert_eq!(crops[0], Crop { x: 0, y: 0, width: 8, height: 8 })
}

#[test]
fn crops_walk_the_grid_row_by_row() {
    let cs = crops(24, 16, 8, 8, 10);
    assert_eq!(cs.len(), 6);
    assert_eq!(cs[1], Crop { x: 8, y: 0, width: 8, height: 8 });
    assert_eq!(cs[3], Crop { x: 0, y: 8, width: 8, height: 8 });
    assert_eq!(cs[5], Crop { x: 16, y: 8, width: 8, height: 8 });
}

#[test]
fn crops_use_the_smaller_dimension_for_a_missing_side() {
    let cs = crops(20, 12, 0, 0, 10);
    assert_eq!(cs.len(), 2);
    assert_eq!(cs[0], Crop { x: 0, y: 0, width: 12, height: 12 });
    assert_eq!(cs[1], Crop { x: 8, y: 0, width: 12, height: 12 });
}

#[test]
fn crops_fall_back_to_the_whole_map() {
    let cs = crops(5, 4, 9, 9, 10);
    assert_eq!(cs, vec![Crop { x: 0, y: 0, width: 5, height: 4 }]);
}

#[test]
fn crops_sweep_lower_scales() {
    // scales 1.0 and 0.9: 10 x 10 fits once, 9 x 9 twice
    let cs = crops(17, 10, 10, 10, 9);
    assert_eq!(cs.len(), 3);
    assert_eq!(cs[0], Crop { x: 0, y: 0, width: 10, height: 10 });
    assert_eq!(cs[1], Crop { x: 0, y: 0, width: 9, height: 9 });
    assert_eq!(cs[2], Crop { x: 8, y: 0, width: 9, height: 9 });
}

#[test]
fn score_test_image_with_single_black_pixel_then_score_is_zero() {
    let mut i = ImageMap::new(1, 1);
    i.set(0, 0, RGB::new(0, 0, 0));

    let s = score(&i, &Crop { x: 0, y: 0, width: 1, height: 1 });

    assert_eq!(s, Score { detail: 0, saturation: 0, skin: 0, total: 0 });
}

#[test]
fn score_test_image_with_single_white_pixel_then_score_is_the_same_as_for_js_version() {
    let mut i = ImageMap::new(1, 1);
    i.set(0, 0, RGB::new(255, 255, 255));

    let s = score(&i, &Crop { x: 0, y: 0, width: 1, height: 1 });

    assert!(close(s.detail, -6.404213562373096));
    assert!(close(s.saturation, -7.685056274847715));
    assert!(close(s.skin, -6.468255697996827));
    assert!(close(s.total, -13.692208596353678));
}

#[test]
fn skin_detect_single_pixel_test() {
    let detect_pixel = |color: RGB| {
        let image = map_of(&TestImage::new_single_pixel(color));
        let mut o = ImageMap::new(1, 1);
        o.set(0, 0, color);

        skin_detect(&image, &mut o);
        o.get(0, 0)
    };

    assert_eq!(detect_pixel(WHITE), RGB::new(0, 255, 255));
    assert_eq!(detect_pixel(BLACK), RGB::new(0, 0, 0));
    assert_eq!(detect_pixel(RED), RGB::new(0, 0, 0));
    assert_eq!(detect_pixel(GREEN), RGB::new(0, 255, 0));
    assert_eq!(detect_pixel(BLUE), RGB::new(0, 0, 255));
    assert_eq!(detect_pixel(SKIN), RGB::new(159, 200, 159));
}

#[test]
fn edge_detect_single_pixel_image_test() {
    let edge_detect_pixel = |color: RGB| {
        let image = map_of(&TestImage::new_single_pixel(color));
        let mut o = ImageMap::new(1, 1);
        o.set(0, 0, color);

        edge_detect(&image, &mut o);

        o.get(0, 0)
    };

    assert_eq!(edge_detect_pixel(BLACK), BLACK);
    assert_eq!(edge_detect_pixel(WHITE), WHITE);
    assert_eq!(edge_detect_pixel(RED), RGB::new(255, 18, 0));
    assert_eq!(edge_detect_pixel(GREEN), RGB::new(0, 182, 0));
    assert_eq!(edge_detect_pixel(BLUE), RGB::new(0, 131, 255));
    assert_eq!(edge_detect_pixel(SKIN), RGB::new(255, 243, 159));
}

#[test]
fn edge_detect_3x3() {
    let image = TestImage::new(
        3,
        3,
        vec![vec![RED, GREEN, BLUE], vec![GREEN, BLUE, RED], vec![BLUE, RED, GREEN]],
    );
    let mut o = ImageMap::new(3, 3);

    edge_detect(&map_of(&image), &mut o);

    assert_eq!(o.get(0, 0), RGB { r: 255, g: 18, b: 0 });
    assert_eq!(o.get(0, 0), RGB { r: 255, g: 18, b: 0 });
    assert_eq!(o.get(1, 0), RGB { r: 0, g: 182, b: 0 });
    assert_eq!(o.get(2, 0), RGB { r: 0, g: 131, b: 255 });
    assert_eq!(o.get(0, 1), RGB { r: 0, g: 182, b: 0 });
    assert_eq!(o.get(1, 1), RGB { r: 0, g: 121, b: 255 });
    assert_eq!(o.get(2, 1), RGB { r: 255, g: 18, b: 0 });
    assert_eq!(o.get(0, 2), RGB { r: 0, g: 131, b: 255 });
    assert_eq!(o.get(1, 2), RGB { r: 255, g: 18, b: 0 });
    assert_eq!(o.get(2, 2), RGB { r: 0, g: 182, b: 0 });
}

#[test]
fn saturation_detect_3x3() {
    let image = TestImage::new(
        3,
        3,
        vec![vec![RED, GREEN, BLUE], vec![WHITE, SKIN, BLACK], vec![BLUE, RED, GREEN]],
    );
    let mut o = map_of(&image);

    saturation_detect(&map_of(&image), &mut o);

    assert_eq!(o.get(0, 0), RGB { r: 255, g: 0, b: 255 });
    assert_eq!(o.get(0, 1), RGB { r: 0, g: 255, b: 255 });
    assert_eq!(o.get(0, 2), RGB { r: 0, g: 0, b: 255 });
    assert_eq!(o.get(1, 0), RGB { r: 255, g: 255, b: 0 });
    assert_eq!(o.get(1, 1), RGB { r: 255, g: 200, b: 0 });
    assert_eq!(o.get(1, 2), RGB { r: 0, g: 0, b: 0 });
    assert_eq!(o.get(2, 0), RGB { r: 0, g: 0, b: 255 });
    assert_eq!(o.get(2, 1), RGB { r: 255, g: 0, b: 255 });
    assert_eq!(o.get(2, 2), RGB { r: 0, g: 255, b: 255 });
}

#[test]
fn make_cies_follows_storage_order() {
    let image = TestImage::new(2, 1, vec![vec![RED], vec![GREEN]]);
    assert_eq!(make_cies(&map_of(&image)), vec![RED.cie(), GREEN.cie()]);
}

#[test]
fn analyze_test() {
    let image = TestImage::new_from_fn(24, 24, |x, y| {
        if x >= 8 && x < 16 && y >= 8 && y < 16 {
            SKIN
        } else {
            WHITE
        }
    });

    let crop = analyse(&CropSettings::default(), &map_of(&image), 8, 8, 10);

    assert_eq!(crop.crop.width, 8);
    assert_eq!(crop.crop.height, 8);
    assert_eq!(crop.crop.x, 8);
    assert_eq!(crop.crop.y, 8);
    assert_eq!(crop.score.saturation, 0);
    assert!(close(crop.score.detail, -1.7647058823529413));
    assert!(close(crop.score.skin, -0.03993215515362048));
    assert!(close(crop.score.total, -0.006637797746048519));
}

#[test]
fn crop_scale_test() {
    let crop = Crop { x: 2, y: 4, width: 8, height: 16 };

    let scaled_crop = crop.scale(1, 2);

    assert_eq!(1, scaled_crop.x);
    assert_eq!(2, scaled_crop.y);
    assert_eq!(4, scaled_crop.width);
    assert_eq!(8, scaled_crop.height);
}

#[test]
fn crop_scale_rounds_each_field() {
    let crop = Crop { x: 1, y: 3, width: 5, height: 7 };
    // 0.5, 1.5, 2.5, 3.5 all round up
    assert_eq!(crop.scale(1, 2), Crop { x: 1, y: 2, width: 3, height: 4 });
}

#[test]
fn crop_scaled_twice_stays_within_rounding() {
    let crop = Crop { x: 3, y: 7, width: 13, height: 29 };
    let twice = crop.scale(2, 3).scale(5, 7);
    let once = crop.scale(10, 21);
    for (a, b) in [(twice.x, once.x), (twice.y, once.y), (twice.width, once.width), (twice.height, once.height)] {
        // at most 5 / (2 * 7) + 1
        assert!((a as i64 - b as i64).abs() <= 1);
    }
}

#[test]
fn scored_crop_scale_keeps_the_score() {
    let s = Score { detail: 1, saturation: 2, skin: 3, total: 4 };
    let sc = ScoredCrop { crop: Crop { x: 10, y: 20, width: 30, height: 40 }, score: s };
    let scaled = sc.scale(3, 2);
    assert_eq!(scaled.crop, Crop { x: 15, y: 30, width: 45, height: 60 });
    assert_eq!(scaled.score, s);
}

#[test]
fn down_sample_test() {
    let image = TestImage::new(
        3,
        3,
        vec![vec![RED, GREEN, BLUE], vec![SKIN, BLUE, RED], vec![BLUE, RED, GREEN]],
    );

    let image_map = map_of(&image);

    let result = image_map.down_sample(3);

    assert_eq!(result.width, 1);
    assert_eq!(result.height, 1);
    assert_eq!(result.get(0, 0), RGB::new(184, 132, 103));
}

#[test]
fn down_sample_of_a_uniform_map_keeps_its_colour() {
    let colour = RGB::new(17, 200, 93);
    let mut m = ImageMap::new(19, 13);
    for y in 0..13 {
        for x in 0..19 {
            m.set(x, y, colour);
        }
    }
    for factor in [1u32, 2, 3, 4, 6] {
        let mut copy = ImageMap::new(19, 13);
        for y in 0..13 {
            for x in 0..19 {
                copy.set(x, y, m.get(x, y));
            }
        }
        let d = copy.down_sample(factor);
        assert_eq!(d.width, 19 / factor);
        assert_eq!(d.height, 13 / factor);
        assert!(d.pixels.iter().all(|p| *p == colour));
    }
}

#[test]
fn down_sample_truncates_the_size() {
    let d = ImageMap::new(7, 15).down_sample(8);
    assert_eq!((d.width, d.height), (0, 1));
    assert!(d.pixels.is_empty());
}

#[test]
fn find_best_crop_test() {
    let image = TestImage::new_from_fn(24, 8, |x, _| {
        if x < 9 {
            RGB { r: 0, g: 255, b: 0 }
        } else if x < 16 {
            SKIN
        } else {
            WHITE
        }
    });
    let analyzer = Analyzer::new(CropSettings::default());

    let crop = analyzer.find_best_crop(&image, 8, 8).unwrap();

    assert_eq!(crop.crop.width, 8);
    assert_eq!(crop.crop.height, 8);
    assert_eq!(crop.crop.y, 0);
    assert_eq!(crop.crop.x, 16);
    assert!(close(crop.score.detail, -4.040026482281278));
    assert!(close(crop.score.saturation, -0.3337408688965783));
    assert!(close(crop.score.skin, -0.13811572472126107));
    assert!(close(crop.score.total, -0.017031057622565366));
}

#[test]
fn find_best_crop_wrong_rounding_test() {
    let image = TestImage::new_from_fn(640, 426, |_, _| WHITE);
    let analyzer = Analyzer::new(CropSettings::default());

    let crop = analyzer.find_best_crop(&image, 10, 10).unwrap();

    assert_eq!(crop.crop.width, 426);
    assert_eq!(crop.crop.height, 426);
}

#[test]
fn prescale_plan_for_a_large_image() {
    let p = Prescale::new(640, 426, 10, 10).unwrap();
    assert_eq!((p.factor_num, p.factor_den), (400, 426));
    assert_eq!((p.new_width, p.new_height), (601, 400));
    assert_eq!((p.crop_width, p.crop_height), (400, 400));
    assert_eq!(p.min_scale_tenths, 10);
}

#[test]
fn prescale_plan_keeps_a_small_image() {
    let p = Prescale::new(24, 8, 8, 8).unwrap();
    assert_eq!((p.factor_num, p.factor_den), (1, 1));
    assert_eq!((p.new_width, p.new_height), (24, 8));
    assert_eq!((p.crop_width, p.crop_height), (8, 8));
}

#[test]
fn prescale_restore_fits_the_crop_into_the_image() {
    let p = Prescale::new(640, 426, 10, 10).unwrap();
    let top = ScoredCrop {
        crop: Crop { x: 200, y: 0, width: 400, height: 400 },
        score: Score { detail: 0, saturation: 0, skin: 0, total: 0 },
    };
    let r = p.restore(&top);
    // 200 * 1.065 = 213, 400 * 1.065 = 426
    assert_eq!(r.crop, Crop { x: 213, y: 0, width: 426, height: 426 });
    let wide = ScoredCrop { crop: Crop { x: 590, y: 0, width: 400, height: 400 }, score: top.score };
    let r = p.restore(&wide);
    assert_eq!(r.crop, Crop { x: 214, y: 0, width: 426, height: 426 });
}

#[test]
fn find_best_crop_zero_sized_image_gives_error() {
    let image = TestImage::new_white(0, 0);
    let analyzer = Analyzer::new(CropSettings::default());

    let result = analyzer.find_best_crop(&image, 1, 1);

    assert_eq!(Error::ZeroSizedImage, result.unwrap_err());
}

#[test]
fn find_best_crop_without_target_gives_error() {
    let image = TestImage::new_white(4, 4);
    let analyzer = Analyzer::new(CropSettings::default());

    let result = analyzer.find_best_crop(&image, 0, 0);

    assert_eq!(Error::WidthOrHeightAreNotGiven, result.unwrap_err());
    assert_eq!(Error::ZeroSizedImage, Prescale::new(0, 5, 1, 0).unwrap_err());
}

#[test]
fn find_best_crop_on_tiny_image_should_not_panic() {
    let image = TestImage::new_white(1, 1);
    let analyzer = Analyzer::new(CropSettings::default());

    let _ = analyzer.find_best_crop(&image, 1, 1);
}

#[test]
fn result_is_as_in_js() {
    let rows: Vec<Vec<(u8, u8, u8)>> = vec![
        vec![(83, 83, 216), (0, 229, 177), (58, 199, 58), (60, 56, 26), (0, 217, 145), (13, 13, 82), (56, 222, 56), (249, 62, 62)],
        vec![(49, 49, 146), (0, 0, 0), (45, 26, 20), (0, 167, 215), (185, 44, 44), (221, 172, 172), (153, 132, 66), (72, 250, 72)],
        vec![(13, 199, 13), (188, 42, 3), (41, 153, 41), (0, 152, 236), (3, 3, 143), (34, 121, 34), (243, 66, 66), (188, 1, 1)],
        vec![(64, 196, 175), (180, 177, 127), (58, 58, 253), (117, 24, 24), (62, 192, 62), (70, 70, 204), (152, 10, 10), (41, 41, 149)],
        vec![(122, 117, 2), (92, 210, 192), (66, 229, 66), (0, 0, 0), (73, 28, 28), (213, 95, 95), (195, 33, 33), (43, 24, 19)],
        vec![(76, 35, 41), (184, 241, 100), (40, 40, 251), (65, 65, 28), (21, 18, 9), (32, 174, 32), (69, 27, 27), (223, 115, 115)],
        vec![(152, 177, 197), (0, 0, 74), (33, 150, 33), (0, 184, 191), (15, 70, 15), (48, 40, 21), (21, 21, 138), (64, 162, 64)],
        vec![(0, 38, 194), (32, 138, 32), (90, 7, 3), (86, 86, 234), (59, 51, 26), (51, 51, 22), (39, 39, 96), (59, 54, 26)],
    ];
    let pixels = rows
        .iter()
        .map(|column| column.iter().map(|&(r, g, b)| RGB { r, g, b }).collect())
        .collect();
    let image = TestImage { w: 8, h: 8, pixels };

    let analyzer = Analyzer::new(CropSettings::default());

    let crop = analyzer.find_best_crop(&image, 1, 1).expect("Failed to find crop");

    assert!(close(crop.score.detail, -3.7420698854650642));
    assert!(close(crop.score.saturation, -1.713699592238245));
    assert!(close(crop.score.skin, -0.5821112502841688));
    assert!(close(crop.score.total, -0.030743502919192832));
}

#[test]
fn crop_is_within_the_image_boundaries_prop_test_found_case() {
    let image = TestImage::new_from_fn(536, 581, |x, y| {
        if x == 535 && y > 550 {
            RGB::new(255, 255, 255)
        } else {
            RGB::new(0, 0, 0)
        }
    });
    let analyzer = Analyzer::new(CropSettings::default());

    let result = analyzer.find_best_crop(&image, 1, 2);

    let crop = result.unwrap().crop;
    assert!(crop.x + crop.width <= image.width());
    assert!(crop.y + crop.height <= image.height());
}

#[test]
fn crops_stay_within_images_of_many_shapes() {
    let analyzer = Analyzer::new(CropSettings::default());
    for &(w, h) in &[(1u32, 1u32), (3, 50), (50, 3), (17, 9), (40, 41), (9, 64)] {
        let image = TestImage::new_from_fn(w, h, |x, y| RGB::new((x * 7) as u8, (y * 13) as u8, ((x + y) * 5) as u8));
        for &(tw, th) in &[(1u32, 1u32), (1, 2), (3, 1), (7, 0), (0, 5), (100, 1), (1, 100)] {
            let crop = analyzer.find_best_crop(&image, tw, th).unwrap().crop;
            assert!(crop.x + crop.width <= w);
            assert!(crop.y + crop.height <= h);
        }
    }
}

#[test]
fn does_not_crash_when_crop_width_is_too_big_for_the_image() {
    let image = TestImage::new_white(1, 1);
    let analyzer = Analyzer::new(CropSettings::default());

    let result = analyzer.find_best_crop(&image, 3, 1);

    assert!(result.is_ok());
}

#[test]
fn does_not_crash_when_crop_height_is_too_big_for_the_image() {
    let image = TestImage::new_white(1, 1);
    let analyzer = Analyzer::new(CropSettings::default());

    let result = analyzer.find_best_crop(&image, 1, 3);

    assert!(result.is_ok());
}
