use hamster::dithering::{dither_floyd_steinberg, dither_jjn, dither_linear_naive};
use hamster::raster::{Rgb, RgbImage};

fn raster(width: u32, height: u32, pixels: Vec<Rgb>) -> RgbImage {
    RgbImage::from_raw(width, height, pixels).unwrap()
}

fn fs_input() -> Vec<Rgb> {
    vec![
        Rgb::new(0, 0, 200),
        Rgb::new(37, 53, 187),
        Rgb::new(74, 106, 174),
        Rgb::new(111, 159, 161),
        Rgb::new(11, 91, 193),
        Rgb::new(48, 144, 180),
        Rgb::new(85, 197, 167),
        Rgb::new(122, 250, 154),
        Rgb::new(22, 182, 186),
        Rgb::new(59, 235, 173),
        Rgb::new(96, 32, 160),
        Rgb::new(133, 85, 147),
        Rgb::new(33, 17, 179),
        Rgb::new(70, 70, 166),
        Rgb::new(107, 123, 153),
        Rgb::new(144, 176, 140),
    ]
}

fn jjn_input() -> Vec<Rgb> {
    vec![
        Rgb::new(5, 0, 250),
        Rgb::new(42, 53, 237),
        Rgb::new(79, 106, 224),
        Rgb::new(116, 159, 211),
        Rgb::new(153, 212, 198),
        Rgb::new(190, 9, 185),
        Rgb::new(227, 62, 172),
        Rgb::new(16, 91, 243),
        Rgb::new(53, 144, 230),
        Rgb::new(90, 197, 217),
        Rgb::new(127, 250, 204),
        Rgb::new(164, 47, 191),
        Rgb::new(201, 100, 178),
        Rgb::new(238, 153, 165),
        Rgb::new(27, 182, 236),
        Rgb::new(64, 235, 223),
        Rgb::new(101, 32, 210),
        Rgb::new(138, 85, 197),
        Rgb::new(175, 138, 184),
        Rgb::new(212, 191, 171),
        Rgb::new(249, 244, 158),
        Rgb::new(38, 17, 229),
        Rgb::new(75, 70, 216),
        Rgb::new(112, 123, 203),
        Rgb::new(149, 176, 190),
        Rgb::new(186, 229, 177),
        Rgb::new(223, 26, 164),
        Rgb::new(4, 79, 151),
    ]
}

#[test]
fn naive_carries_error_to_next_pixel() {
    let img = raster(3, 1, vec![Rgb::new(20, 100, 254), Rgb::new(30, 0, 255), Rgb::new(16, 47, 200)]);
    let out = dither_linear_naive(img);
    assert_eq!(out.dimensions(), (3, 1));
    assert_eq!(out.pixels, vec![Rgb::new(17, 102, 255), Rgb::new(34, 0, 255), Rgb::new(0, 34, 204)]);
}

#[test]
fn naive_keeps_aligned_colors() {
    let pixels = vec![Rgb::new(0, 17, 255), Rgb::new(136, 34, 51)];
    let out = dither_linear_naive(raster(1, 2, pixels.clone()));
    assert_eq!(out.pixels, pixels);
}

#[test]
fn floyd_steinberg_exact_output() {
    let out = dither_floyd_steinberg(raster(4, 4, fs_input()));
    assert_eq!(out.dimensions(), (4, 4));
    assert_eq!(out.pixels, vec![
        Rgb::new(0, 0, 200),
        Rgb::new(37, 53, 187),
        Rgb::new(74, 106, 174),
        Rgb::new(111, 159, 161),
        Rgb::new(11, 91, 193),
        Rgb::new(45, 135, 173),
        Rgb::new(83, 193, 163),
        Rgb::new(122, 250, 154),
        Rgb::new(21, 180, 184),
        Rgb::new(58, 232, 170),
        Rgb::new(95, 31, 159),
        Rgb::new(133, 85, 147),
        Rgb::new(33, 17, 179),
        Rgb::new(70, 70, 166),
        Rgb::new(107, 123, 153),
        Rgb::new(144, 176, 140),
    ]);
}

#[test]
fn floyd_steinberg_keeps_border() {
    let input = fs_input();
    let out = dither_floyd_steinberg(raster(4, 4, input.clone()));
    for x in 0..4u32 {
        assert_eq!(out.get_pixel(x, 0), input[x as usize]);
        assert_eq!(out.get_pixel(x, 3), input[12 + x as usize]);
    }
    for y in 0..4u32 {
        assert_eq!(out.get_pixel(3, y), input[(y * 4 + 3) as usize]);
    }
}

#[test]
fn floyd_steinberg_small_image_unchanged() {
    let pixels = vec![Rgb::new(20, 30, 40); 6];
    let out = dither_floyd_steinberg(raster(2, 3, pixels.clone()));
    assert_eq!(out.pixels, pixels);
}

#[test]
fn floyd_steinberg_clamps_diffused_values() {
    let mut pixels = vec![Rgb::new(255, 255, 255); 16];
    pixels[5] = Rgb::new(15, 15, 15);
    let out = dither_floyd_steinberg(raster(4, 4, pixels));
    assert_eq!(out.get_pixel(1, 1), Rgb::new(30, 30, 30));
    assert_eq!(out.get_pixel(2, 1), Rgb::new(255, 255, 255));
    assert_eq!(out.get_pixel(0, 2), Rgb::new(255, 255, 255));

    let mut pixels = vec![Rgb::new(0, 0, 0); 16];
    pixels[5] = Rgb::new(16, 16, 16);
    let out = dither_floyd_steinberg(raster(4, 4, pixels));
    assert_eq!(out.get_pixel(1, 1), Rgb::new(15, 15, 15));
    assert_eq!(out.get_pixel(2, 1), Rgb::new(0, 0, 0));
    assert_eq!(out.get_pixel(1, 2), Rgb::new(0, 0, 0));
}

#[test]
fn jjn_exact_output() {
    let out = dither_jjn(raster(7, 4, jjn_input()));
    assert_eq!(out.dimensions(), (7, 4));
    assert_eq!(out.pixels, vec![
        Rgb::new(5, 0, 250),
        Rgb::new(42, 53, 237),
        Rgb::new(79, 106, 224),
        Rgb::new(113, 165, 201),
        Rgb::new(152, 212, 196),
        Rgb::new(189, 9, 183),
        Rgb::new(227, 62, 172),
        Rgb::new(15, 91, 242),
        Rgb::new(52, 144, 228),
        Rgb::new(89, 197, 215),
        Rgb::new(126, 250, 202),
        Rgb::new(163, 47, 190),
        Rgb::new(201, 100, 178),
        Rgb::new(238, 153, 165),
        Rgb::new(26, 182, 235),
        Rgb::new(63, 235, 222),
        Rgb::new(100, 32, 208),
        Rgb::new(137, 85, 196),
        Rgb::new(174, 138, 183),
        Rgb::new(212, 191, 171),
        Rgb::new(249, 244, 158),
        Rgb::new(38, 17, 229),
        Rgb::new(75, 70, 216),
        Rgb::new(112, 123, 203),
        Rgb::new(149, 176, 190),
        Rgb::new(186, 229, 177),
        Rgb::new(223, 26, 164),
        Rgb::new(4, 79, 151),
    ]);
}

#[test]
fn jjn_keeps_last_row_and_column() {
    let input = jjn_input();
    let out = dither_jjn(raster(7, 4, input.clone()));
    for x in 0..7u32 {
        assert_eq!(out.get_pixel(x, 3), input[21 + x as usize]);
    }
    for y in 0..4u32 {
        assert_eq!(out.get_pixel(6, y), input[(y * 7 + 6) as usize]);
    }
}

#[test]
fn jjn_small_image_unchanged() {
    let pixels = vec![Rgb::new(200, 100, 7); 25];
    let out = dither_jjn(raster(5, 5, pixels.clone()));
    assert_eq!(out.pixels, pixels);
}
