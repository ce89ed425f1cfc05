use smartcrop::{bounds, importance, skin_col, thirds, Crop, RGB, UNIT};

// Fractional quantities are fixed-point integers in units of 1 / UNIT. They are
// compared with the expected floating-point values within this tolerance.
const TOLERANCE: f64 = 1e-6;

fn fixed(v: f64) -> i64 {
    (v * UNIT as f64).round() as i64
}

fn close(v: i64, expected: f64) -> bool {
    (v as f64 / UNIT as f64 - expected).abs() < TOLERANCE
}

fn gray(c: u8) -> RGB {
    RGB::new(c, c, c)
}

#[test]
fn thirds_test() {
    assert!(close(thirds(fixed(0.0)), 0.0));
    assert!(close(thirds(fixed(0.5)), 0.0));
    assert!(close(thirds(fixed(1.0)), 0.0));
    assert!(close(thirds(fixed(1.0 / 3.0)), 1.0));
    assert!(close(thirds(fixed(0.9 / 3.0)), 0.9288888888888889));
    assert!(close(thirds(fixed(1.1 / 3.0)), 0.9288888888888884));
    assert!(close(thirds(fixed(1.2 / 3.0)), 0.7155555555555557));
    assert!(close(thirds(fixed(1.3 / 3.0)), 0.3599999999999989));
    assert!(close(thirds(fixed(1.4 / 3.0)), 0.0));
}

#[test]
fn bounds_test() {
    assert_eq!(0, bounds(-1, 1));
    assert_eq!(0, bounds(0, 1));
    assert_eq!(10, bounds(10, 1));
    assert_eq!(255, bounds(255, 1));
    assert_eq!(255, bounds(2551, 10));
}

#[test]
fn bounds_rounds_halves_up() {
    assert_eq!(1, bounds(5, 10));
    assert_eq!(0, bounds(4, 10));
    assert_eq!(18, bounds(184110, 10000));
}

#[test]
fn cie_test() {
    assert_eq!(0.0, gray(0).cie() as f64 / 10000.0);
    assert!((gray(255).cie() as f64 / 10000.0 - 331.49999999999994).abs() < 1e-9);
}

#[test]
fn cie_weights_each_channel() {
    assert_eq!(722 * 255, RGB::new(255, 0, 0).cie());
    assert_eq!(7152 * 255, RGB::new(0, 255, 0).cie());
    assert_eq!(5126 * 255, RGB::new(0, 0, 255).cie());
}

#[test]
fn skin_col_test() {
    assert!(close(skin_col(gray(0)), 0.7550795306611966));
    assert!(close(skin_col(gray(1)), 0.7550795306611966));
    assert!(close(skin_col(gray(127)), 0.7550795306611966));
    assert!(close(skin_col(gray(34)), 0.7550795306611966));
    assert!(close(skin_col(gray(255)), 0.7550795306611966));
    assert!(close(skin_col(RGB::new(134, 45, 23)), 0.5904611542890027));
    assert!(close(skin_col(RGB::new(199, 145, 112)), 0.9384288009573658));
    assert!(close(skin_col(RGB::new(100, 72, 56)), 0.9380840524535538));
    assert!(close(skin_col(RGB::new(234, 171, 132)), 0.9384445374828501));
}

#[test]
fn skin_col_stays_in_unit_range() {
    for r in (0..=255u32).step_by(17) {
        for g in (0..=255u32).step_by(17) {
            for b in (0..=255u32).step_by(17) {
                let s = skin_col(RGB::new(r as u8, g as u8, b as u8));
                assert!(s >= 0 && s <= fixed(0.94));
            }
        }
    }
}

#[test]
fn importance_tests() {
    assert!(close(
        importance(&Crop { x: 0, y: 0, width: 1, height: 1 }, 0, 0),
        -6.404213562373096
    ));
}

#[test]
fn importance_outside_the_crop_is_a_fixed_penalty() {
    let c = Crop { x: 4, y: 4, width: 8, height: 8 };
    assert_eq!(-UNIT / 2, importance(&c, 3, 6));
    assert_eq!(-UNIT / 2, importance(&c, 12, 6));
    assert_eq!(-UNIT / 2, importance(&c, 6, 12));
    assert_eq!(-UNIT / 2, importance(&Crop { x: 0, y: 0, width: 0, height: 0 }, 0, 0));
}

#[test]
fn importance_at_the_centre_is_the_radial_peak() {
    // px = py = 0: s = 1.41, no edge term, thirds(0) = 0
    let c = Crop { x: 0, y: 0, width: 10, height: 10 };
    assert_eq!(fixed(1.41), importance(&c, 5, 5));
}
