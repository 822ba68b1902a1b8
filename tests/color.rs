use hamster::color::AmigaRgb;
use hamster::raster::Rgb;

#[test]
fn test_from_array() {
    let amiga_rgb = AmigaRgb::new(1, 8, 15);
    assert_eq!(amiga_rgb.r(), 1);
    assert_eq!(amiga_rgb.g(), 8);
    assert_eq!(amiga_rgb.b(), 15);
}

#[test]
fn color_test_from_rgb() {
    let amiga_rgb = AmigaRgb::from_rgb8(Rgb::new(255, 20, 0));
    assert_eq!(amiga_rgb.r(), 15);
    assert_eq!(amiga_rgb.g(), 1);
    assert_eq!(amiga_rgb.b(), 0);
}

#[test]
fn test_into_rgb() {
    let rgb = AmigaRgb::new(0, 1, 15).to_rgb8();
    assert_eq!(rgb.r, 0);
    assert_eq!(rgb.g, 17);
    assert_eq!(rgb.b, 255);
}

#[test]
fn test_euclidean_dist2() {
    let a = AmigaRgb::new(15, 1, 0);
    let b = AmigaRgb::new(14, 1, 0);
    let c = AmigaRgb::new(15, 1, 4);

    assert_eq!(a.euclidean_dist2(&b), b.euclidean_dist2(&a));
    assert_eq!(a.euclidean_dist2(&c), c.euclidean_dist2(&a));
    assert_eq!(b.euclidean_dist2(&c), c.euclidean_dist2(&b));

    assert_eq!(a.euclidean_dist2(&b) as f64, 1.0);
    assert_eq!(a.euclidean_dist2(&c) as f64, 16.0);
    assert_eq!(b.euclidean_dist2(&c) as f64, 17.0);
}

#[test]
fn dist2_of_opposite_corners() {
    let black = AmigaRgb::new(0, 0, 0);
    let white = AmigaRgb::new(15, 15, 15);
    assert_eq!(black.euclidean_dist2(&white), 675);
    assert_eq!(white.euclidean_dist2(&black), 675);
    assert_eq!(white.euclidean_dist2(&white), 0);
}

#[test]
fn round_trip_is_exact_on_aligned_values() {
    for v in (0..=255u32).step_by(17) {
        let v = v as u8;
        let p = Rgb::new(v, v, v);
        assert_eq!(AmigaRgb::from_rgb8(p).to_rgb8(), p);
    }
}

#[test]
fn round_trip_truncates_other_values() {
    let back = AmigaRgb::from_rgb8(Rgb::new(20, 31, 254)).to_rgb8();
    assert_eq!(back, Rgb::new(17, 17, 255));
    let back = AmigaRgb::from_rgb8(Rgb::new(16, 50, 239)).to_rgb8();
    assert_eq!(back, Rgb::new(17, 51, 238));
}

#[test]
fn from_rgb8_keeps_high_nibble() {
    let c = AmigaRgb::from_rgb8(Rgb::new(0x9f, 0x10, 0x0f));
    assert_eq!(c, AmigaRgb::new(9, 1, 0));
}
