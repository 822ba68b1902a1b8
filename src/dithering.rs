//! Error-diffusion dithering of 8-bit rasters towards the 12-bit Amiga
//! color space. Each filter scans the raster row by row and works in place:
//! a pixel may be read after earlier steps have already changed it.
use vstd::prelude::*;

use crate::color::{lemma_channel_round_trip, AmigaRgb};
use crate::raster::{
    lemma_pixel_index_bounds, lemma_pixel_index_injective, pixel_index, Rgb, RgbImage,
};

verus! {

/// A per-channel error term: red, green, blue.
pub type Error3 = (int, int, int);

/// Limits a value to `0..=255`.
pub open spec fn clamp8(v: int) -> u8 {
    if v < 0 {
        0
    } else if v > 255 {
        255
    } else {
        v as u8
    }
}

/// The 8-bit color that `p` becomes after a round trip through 12 bits.
pub open spec fn quantize(p: Rgb) -> Rgb {
    AmigaRgb::spec_from_rgb8(p).spec_to_rgb8()
}

/// Channel-wise `a - b`.
pub open spec fn difference(a: Rgb, b: Rgb) -> Error3 {
    (a.r - b.r, a.g - b.g, a.b - b.b)
}

/// How far `p` is from its quantized color.
pub open spec fn quantization_error(p: Rgb) -> Error3 {
    difference(p, quantize(p))
}

/// Channel-wise `clamp8(p + e)`.
pub open spec fn add_clamped(p: Rgb, e: Error3) -> Rgb {
    Rgb { r: clamp8(p.r + e.0), g: clamp8(p.g + e.1), b: clamp8(p.b + e.2) }
}

/// The error that the naive filter carries into pixel `i` of `source`:
/// none into the first pixel, then the previous source pixel minus what
/// the filter wrote there.
pub open spec fn naive_error(source: Seq<Rgb>, i: int) -> Error3
    decreases i,
{
    if i <= 0 {
        (0, 0, 0)
    } else {
        difference(
            source[i - 1],
            quantize(add_clamped(source[i - 1], naive_error(source, i - 1))),
        )
    }
}

/// What the naive filter writes at pixel `i`: the pixel corrected by the
/// carried error, then quantized.
pub open spec fn naive_output(source: Seq<Rgb>, i: int) -> Rgb {
    quantize(add_clamped(source[i], naive_error(source, i)))
}

/// Quantizes a color to 12 bits and expands it back to 8 bits per channel.
fn quantize_rgb(p: Rgb) -> (q: Rgb)
    ensures
        q == quantize(p),
        -15 <= p.r - q.r <= 15,
        -15 <= p.g - q.g <= 15,
        -15 <= p.b - q.b <= 15,
{
    proof {
        lemma_channel_round_trip(p.r);
        lemma_channel_round_trip(p.g);
        lemma_channel_round_trip(p.b);
    }
    AmigaRgb::from_rgb8(p).to_rgb8()
}

fn clamp_add(v: u8, e: i32) -> (r: u8)
    requires
        -1024 <= e <= 1024,
    ensures
        r == clamp8(v + e),
{
    let t: i32 = v as i32 + e;
    if t < 0 {
        0
    } else if t > 255 {
        255
    } else {
        t as u8
    }
}

fn add_clamped_rgb(p: Rgb, e: (i32, i32, i32)) -> (r: Rgb)
    requires
        -1024 <= e.0 <= 1024,
        -1024 <= e.1 <= 1024,
        -1024 <= e.2 <= 1024,
    ensures
        r == add_clamped(p, (e.0 as int, e.1 as int, e.2 as int)),
{
    Rgb { r: clamp_add(p.r, e.0), g: clamp_add(p.g, e.1), b: clamp_add(p.b, e.2) }
}

fn difference_rgb(a: Rgb, b: Rgb) -> (e: (i32, i32, i32))
    ensures
        (e.0 as int, e.1 as int, e.2 as int) == difference(a, b),
{
    (a.r as i32 - b.r as i32, a.g as i32 - b.g as i32, a.b as i32 - b.b as i32)
}

/// Dithers by carrying one error term per channel from each pixel to the
/// next in row-major order: every pixel is corrected by the carried error,
/// clamped, and replaced by its quantized color.
pub fn dither_linear_naive(img: RgbImage) -> (out: RgbImage)
    requires
        img.wf(),
    ensures
        out.wf(),
        out.width == img.width,
        out.height == img.height,
        out.pixels@.len() == img.pixels@.len(),
        forall|i: int|
            0 <= i < img.pixels@.len() ==> #[trigger] out.pixels@[i] == naive_output(
                img.pixels@,
                i,
            ),
{
    let ghost input = img;
    let mut img = img;
    let ghost source = img.pixels@;
    let n = img.pixels.len();
    let mut last_error: (i32, i32, i32) = (0, 0, 0);
    let mut i: usize = 0;
    while i < n
        invariant
            n == source.len(),
            i <= n,
            img.wf(),
            img.width == input.width,
            img.height == input.height,
            img.pixels@.len() == n,
            (last_error.0 as int, last_error.1 as int, last_error.2 as int) == naive_error(
                source,
                i as int,
            ),
            -255 <= last_error.0 <= 255,
            -255 <= last_error.1 <= 255,
            -255 <= last_error.2 <= 255,
            forall|j: int| i <= j < n ==> img.pixels@[j] == source[j],
            forall|j: int| 0 <= j < i ==> #[trigger] img.pixels@[j] == naive_output(source, j),
        decreases n - i,
    {
        let source_rgb = img.pixels[i];
        let corrected_rgb = add_clamped_rgb(source_rgb, last_error);
        let target_rgb = quantize_rgb(corrected_rgb);
        last_error = difference_rgb(source_rgb, target_rgb);
        img.pixels.set(i, target_rgb);
        i = i + 1;
    }
    img
}

/// A diffusion kernel tap: column offset, row offset and weight.
pub type Tap = (i32, i32, i32);

/// `n` plus the share `weight / divisor` of the error `e`, clamped.
pub open spec fn diffused(n: u8, e: int, weight: int, divisor: int) -> u8 {
    clamp8(n + (e * weight) / divisor)
}

pub open spec fn diffused_rgb(n: Rgb, e: Error3, weight: int, divisor: int) -> Rgb {
    Rgb {
        r: diffused(n.r, e.0, weight, divisor),
        g: diffused(n.g, e.1, weight, divisor),
        b: diffused(n.b, e.2, weight, divisor),
    }
}

/// Adds the first `k` taps' shares of `e` around column `x`, row `y`, in tap order.
pub open spec fn spread(
    s: Seq<Rgb>,
    width: int,
    x: int,
    y: int,
    e: Error3,
    kernel: Seq<Tap>,
    divisor: int,
    k: int,
) -> Seq<Rgb>
    decreases k,
{
    if k <= 0 {
        s
    } else {
        let prior = spread(s, width, x, y, e, kernel, divisor, k - 1);
        let tap = kernel[k - 1];
        let i = pixel_index(width, x + tap.0, y + tap.1);
        prior.update(i, diffused_rgb(prior[i], e, tap.2 as int, divisor))
    }
}

/// One diffusion step at column `x`, row `y`: the pixel is corrected by its
/// own quantization error, and each tap's share of that error is added to
/// the neighbor it points at.
pub open spec fn diffusion_step(
    s: Seq<Rgb>,
    width: int,
    x: int,
    y: int,
    kernel: Seq<Tap>,
    divisor: int,
) -> Seq<Rgb> {
    let i = pixel_index(width, x, y);
    let e = quantization_error(s[i]);
    spread(s.update(i, add_clamped(s[i], e)), width, x, y, e, kernel, divisor, kernel.len() as int)
}

/// Steps at columns `x0..x` of row `y`, left to right.
pub open spec fn pass_row(
    s: Seq<Rgb>,
    width: int,
    y: int,
    x0: int,
    x: int,
    kernel: Seq<Tap>,
    divisor: int,
) -> Seq<Rgb>
    decreases x - x0,
{
    if x <= x0 {
        s
    } else {
        diffusion_step(pass_row(s, width, y, x0, x - 1, kernel, divisor), width, x - 1, y, kernel, divisor)
    }
}

/// Steps at columns `x0..x1` of rows `y0..y`, row by row.
pub open spec fn pass_rows(
    s: Seq<Rgb>,
    width: int,
    x0: int,
    x1: int,
    y0: int,
    y: int,
    kernel: Seq<Tap>,
    divisor: int,
) -> Seq<Rgb>
    decreases y - y0,
{
    if y <= y0 {
        s
    } else {
        pass_row(pass_rows(s, width, x0, x1, y0, y - 1, kernel, divisor), width, y - 1, x0, x1, kernel, divisor)
    }
}

pub open spec fn tap(dx: i32, dy: i32, weight: i32) -> Tap {
    (dx, dy, weight)
}

/// Floyd-Steinberg: right 7, below-left 3, below 5, below-right 1, over 16.
pub open spec fn floyd_steinberg_kernel() -> Seq<Tap> {
    seq![tap(1, 0, 7), tap(-1i32, 1, 3), tap(0, 1, 5), tap(1, 1, 1)]
}

/// Jarvis-Judice-Ninke: two taps on the current row and five on each of
/// the next two, over 48.
pub open spec fn jjn_kernel() -> Seq<Tap> {
    seq![
        tap(1, 0, 7), tap(2, 0, 5),
        tap(-3i32, 1, 3), tap(-2i32, 1, 5), tap(-1i32, 1, 7), tap(0, 1, 5), tap(1, 1, 3),
        tap(-3i32, 2, 1), tap(-2i32, 2, 3), tap(-1i32, 2, 5), tap(0, 2, 3), tap(1, 2, 1),
    ]
}

/// Floyd-Steinberg over columns `1..=width-3` and rows `1..=height-3`.
pub open spec fn spec_floyd_steinberg(s: Seq<Rgb>, width: int, height: int) -> Seq<Rgb> {
    pass_rows(s, width, 1, width - 2, 1, height - 2, floyd_steinberg_kernel(), 16)
}

/// Jarvis-Judice-Ninke over columns `3..=width-4` and rows `0..=height-4`.
pub open spec fn spec_jjn(s: Seq<Rgb>, width: int, height: int) -> Seq<Rgb> {
    pass_rows(s, width, 3, width - 3, 0, height - 3, jjn_kernel(), 48)
}

fn diffuse_channel(n: u8, e: i32, weight: i32, divisor: i32) -> (r: u8)
    requires
        -15 <= e <= 15,
        0 <= weight <= divisor,
        1 <= divisor <= 64,
    ensures
        r == diffused(n, e as int, weight as int, divisor as int),
{
    assert(-960 <= e * weight <= 960) by (nonlinear_arith)
        requires
            -15 <= e <= 15,
            0 <= weight <= 64,
    ;
    assert(0 <= n * divisor <= 255 * 64) by (nonlinear_arith)
        requires
            0 <= n <= 255,
            1 <= divisor <= 64,
    ;
    let t: i32 = n as i32 * divisor + e * weight;
    proof {
        let d = divisor as int;
        let ew = e as int * weight as int;
        let ti = t as int;
        vstd::arithmetic::div_mod::lemma_hoist_over_denominator(ew, n as int, d as nat);
        assert(ew / d + n == ti / d);
        vstd::arithmetic::div_mod::lemma_fundamental_div_mod(ti, d);
        let q = ti / d;
        let m = ti % d;
        assert(ti < 0 ==> q < 0) by (nonlinear_arith)
            requires
                ti == d * q + m,
                0 <= m,
                d > 0,
        ;
    }
    if t < 0 {
        0
    } else {
        let q: u32 = (t as u32) / (divisor as u32);
        if q > 255 {
            255
        } else {
            q as u8
        }
    }
}

fn diffuse_rgb(n: Rgb, e: (i32, i32, i32), weight: i32, divisor: i32) -> (r: Rgb)
    requires
        -15 <= e.0 <= 15,
        -15 <= e.1 <= 15,
        -15 <= e.2 <= 15,
        0 <= weight <= divisor,
        1 <= divisor <= 64,
    ensures
        r == diffused_rgb(n, (e.0 as int, e.1 as int, e.2 as int), weight as int, divisor as int),
{
    Rgb {
        r: diffuse_channel(n.r, e.0, weight, divisor),
        g: diffuse_channel(n.g, e.1, weight, divisor),
        b: diffuse_channel(n.b, e.2, weight, divisor),
    }
}

/// Every tap of `kernel`, applied at any column of `x0..x1` and any row
/// of `y0..y1`, lands inside a `width` by `height` raster, and its weight is
/// a share of `divisor`.
pub open spec fn taps_fit(
    kernel: Seq<Tap>,
    width: int,
    height: int,
    x0: int,
    x1: int,
    y0: int,
    y1: int,
    divisor: int,
) -> bool {
    forall|k: int|
        0 <= k < kernel.len() ==> {
            let t = #[trigger] kernel[k];
            &&& 0 <= x0 + t.0
            &&& x1 + t.0 <= width
            &&& 0 <= t.1
            &&& y1 + t.1 <= height
            &&& 0 <= t.2 <= divisor
        }
}

/// With no columns to visit, a pass changes nothing.
proof fn lemma_pass_without_columns(
    s: Seq<Rgb>,
    width: int,
    x0: int,
    x1: int,
    y0: int,
    y: int,
    kernel: Seq<Tap>,
    divisor: int,
)
    requires
        x1 <= x0,
    ensures
        pass_rows(s, width, x0, x1, y0, y, kernel, divisor) == s,
    decreases y - y0,
{
    if y > y0 {
        lemma_pass_without_columns(s, width, x0, x1, y0, y - 1, kernel, divisor);
    }
}

/// Performs one diffusion step at column `x`, row `y`.
fn diffuse_at(img: &mut RgbImage, x: u32, y: u32, kernel: &[Tap], divisor: i32)
    requires
        old(img).wf(),
        x < old(img).width,
        y < old(img).height,
        1 <= divisor <= 64,
        taps_fit(
            kernel@,
            old(img).width as int,
            old(img).height as int,
            x as int,
            x + 1,
            y as int,
            y + 1,
            divisor as int,
        ),
    ensures
        final(img).wf(),
        final(img).width == old(img).width,
        final(img).height == old(img).height,
        final(img).pixels@ == diffusion_step(
            old(img).pixels@,
            old(img).width as int,
            x as int,
            y as int,
            kernel@,
            divisor as int,
        ),
{
    let ghost w = img.width as int;
    let ghost s0 = img.pixels@;
    let source_rgb = img.get_pixel(x, y);
    let target_rgb = quantize_rgb(source_rgb);
    let current_error = difference_rgb(source_rgb, target_rgb);
    img.put_pixel(x, y, add_clamped_rgb(source_rgb, current_error));
    let ghost s1 = img.pixels@;
    let ghost e = (current_error.0 as int, current_error.1 as int, current_error.2 as int);
    let mut k: usize = 0;
    while k < kernel.len()
        invariant
            0 <= k <= kernel@.len(),
            img.wf(),
            img.width as int == w,
            img.height == old(img).height,
            x < img.width,
            y < img.height,
            1 <= divisor <= 64,
            e == (current_error.0 as int, current_error.1 as int, current_error.2 as int),
            -15 <= current_error.0 <= 15,
            -15 <= current_error.1 <= 15,
            -15 <= current_error.2 <= 15,
            taps_fit(kernel@, w, img.height as int, x as int, x + 1, y as int, y + 1, divisor as int),
            img.pixels@ == spread(s1, w, x as int, y as int, e, kernel@, divisor as int, k as int),
        decreases kernel@.len() - k,
    {
        let t = kernel[k];
        assert(t == kernel@[k as int]);
        let nx = (x as i64 + t.0 as i64) as u32;
        let ny = (y as i64 + t.1 as i64) as u32;
        assert(nx as int == x + t.0 && ny as int == y + t.1);
        let neighbor = img.get_pixel(nx, ny);
        img.put_pixel(nx, ny, diffuse_rgb(neighbor, current_error, t.2, divisor));

        k = k + 1;
    }
}

/// Performs diffusion steps at columns `x0..x1` of rows `y0..y1`, row by row.
fn diffuse_pass(img: &mut RgbImage, x0: u32, x1: u32, y0: u32, y1: u32, kernel: &[Tap], divisor: i32)
    requires
        old(img).wf(),
        x0 <= x1 <= old(img).width,
        y0 <= y1 <= old(img).height,
        1 <= divisor <= 64,
        taps_fit(
            kernel@,
            old(img).width as int,
            old(img).height as int,
            x0 as int,
            x1 as int,
            y0 as int,
            y1 as int,
            divisor as int,
        ),
    ensures
        final(img).wf(),
        final(img).width == old(img).width,
        final(img).height == old(img).height,
        final(img).pixels@ == pass_rows(
            old(img).pixels@,
            old(img).width as int,
            x0 as int,
            x1 as int,
            y0 as int,
            y1 as int,
            kernel@,
            divisor as int,
        ),
{
    let ghost w = img.width as int;
    let ghost h = img.height as int;
    let ghost s0 = img.pixels@;
    let mut y: u32 = y0;
    while y < y1
        invariant
            y0 <= y <= y1,
            x0 <= x1 <= w,
            y1 <= h,
            1 <= divisor <= 64,
            img.wf(),
            img.width as int == w,
            img.height as int == h,
            taps_fit(kernel@, w, h, x0 as int, x1 as int, y0 as int, y1 as int, divisor as int),
            img.pixels@ == pass_rows(s0, w, x0 as int, x1 as int, y0 as int, y as int, kernel@, divisor as int),
        decreases y1 - y,
    {
        let ghost row_start = img.pixels@;
        let mut x: u32 = x0;
        while x < x1
            invariant
                y0 <= y < y1,
                x0 <= x <= x1,
                x1 <= w,
                y1 <= h,
                1 <= divisor <= 64,
                img.wf(),
                img.width as int == w,
                img.height as int == h,
                taps_fit(kernel@, w, h, x0 as int, x1 as int, y0 as int, y1 as int, divisor as int),
                img.pixels@ == pass_row(row_start, w, y as int, x0 as int, x as int, kernel@, divisor as int),
            decreases x1 - x,
        {
            assert(taps_fit(kernel@, w, h, x as int, x + 1, y as int, y + 1, divisor as int)) by {
                assert forall|k: int| 0 <= k < kernel@.len() implies {
                    let t = #[trigger] kernel@[k];
                    &&& 0 <= x + t.0
                    &&& x + 1 + t.0 <= w
                    &&& 0 <= t.1
                    &&& y + 1 + t.1 <= h
                    &&& 0 <= t.2 <= divisor
                } by {
                    let t = kernel@[k];
                    assert(0 <= x0 + t.0 && x1 + t.0 <= w && y1 + t.1 <= h);
                }
            }
            diffuse_at(img, x, y, kernel, divisor);
            x = x + 1;
        }
        y = y + 1;
    }
}

/// Floyd-Steinberg error diffusion over columns `1..=width-3` and rows
/// `1..=height-3`, scanned row by row; the border outside is not visited.
pub fn dither_floyd_steinberg(img: RgbImage) -> (out: RgbImage)
    requires
        img.wf(),
    ensures
        out.wf(),
        out.width == img.width,
        out.height == img.height,
        out.pixels@ == spec_floyd_steinberg(img.pixels@, img.width as int, img.height as int),
{
    let ghost input = img;
    let mut img = img;
    let (width, height) = img.dimensions();
    if width >= 3 && height >= 3 {
        let kernel: [Tap; 4] = [(1, 0, 7), (-1, 1, 3), (0, 1, 5), (1, 1, 1)];
        assert(kernel@ =~= floyd_steinberg_kernel());
        diffuse_pass(&mut img, 1, width - 2, 1, height - 2, &kernel, 16);
    } else if width < 3 {
        proof {
            lemma_pass_without_columns(
                input.pixels@,
                width as int,
                1,
                width - 2,
                1,
                height - 2,
                floyd_steinberg_kernel(),
                16,
            );
        }
    }
    img
}

/// Jarvis-Judice-Ninke error diffusion over columns `3..=width-4` and rows
/// `0..=height-4`, scanned row by row; the border outside is not visited.
pub fn dither_jjn(img: RgbImage) -> (out: RgbImage)
    requires
        img.wf(),
    ensures
        out.wf(),
        out.width == img.width,
        out.height == img.height,
        out.pixels@ == spec_jjn(img.pixels@, img.width as int, img.height as int),
{
    let ghost input = img;
    let mut img = img;
    let (width, height) = img.dimensions();
    if width >= 6 && height >= 3 {
        let kernel: [Tap; 12] = [
            (1, 0, 7),
            (2, 0, 5),
            (-3, 1, 3),
            (-2, 1, 5),
            (-1, 1, 7),
            (0, 1, 5),
            (1, 1, 3),
            (-3, 2, 1),
            (-2, 2, 3),
            (-1, 2, 5),
            (0, 2, 3),
            (1, 2, 1),
        ];
        assert(kernel@ =~= jjn_kernel());
        diffuse_pass(&mut img, 3, width - 3, 0, height - 3, &kernel, 48);
    } else if width < 6 {
        proof {
            lemma_pass_without_columns(
                input.pixels@,
                width as int,
                3,
                width - 3,
                0,
                height - 3,
                jjn_kernel(),
                48,
            );
        }
    }
    img
}

/// Column `px`, row `py` is neither visited by a pass over columns
/// `x0..x1` and rows `y0..y1` nor reached by any tap of `kernel` from there.
pub open spec fn outside_reach(
    kernel: Seq<Tap>,
    x0: int,
    x1: int,
    y0: int,
    y1: int,
    px: int,
    py: int,
) -> bool {
    &&& !(x0 <= px < x1 && y0 <= py < y1)
    &&& forall|k: int|
        0 <= k < kernel.len() ==> {
            let t = #[trigger] kernel[k];
            !(x0 + t.0 <= px < x1 + t.0 && y0 + t.1 <= py < y1 + t.1)
        }
}

proof fn lemma_spread_keeps(
    s: Seq<Rgb>,
    width: int,
    height: int,
    x: int,
    y: int,
    e: Error3,
    kernel: Seq<Tap>,
    divisor: int,
    k: int,
    px: int,
    py: int,
)
    requires
        s.len() == width * height,
        0 <= y,
        0 <= k <= kernel.len(),
        taps_fit(kernel, width, height, x, x + 1, y, y + 1, divisor),
        0 <= px < width,
        0 <= py < height,
        forall|j: int|
            0 <= j < kernel.len() ==> {
                let t = #[trigger] kernel[j];
                !(x + t.0 == px && y + t.1 == py)
            },
    ensures
        spread(s, width, x, y, e, kernel, divisor, k).len() == s.len(),
        spread(s, width, x, y, e, kernel, divisor, k)[pixel_index(width, px, py)] == s[pixel_index(
            width,
            px,
            py,
        )],
    decreases k,
{
    if k > 0 {
        lemma_spread_keeps(s, width, height, x, y, e, kernel, divisor, k - 1, px, py);
        let t = kernel[k - 1];
        lemma_pixel_index_bounds(width, height, x + t.0, y + t.1);
        lemma_pixel_index_bounds(width, height, px, py);
        if pixel_index(width, x + t.0, y + t.1) == pixel_index(width, px, py) {
            lemma_pixel_index_injective(width, x + t.0, y + t.1, px, py);
        }
    }
}

proof fn lemma_step_keeps(
    s: Seq<Rgb>,
    width: int,
    height: int,
    x: int,
    y: int,
    kernel: Seq<Tap>,
    divisor: int,
    px: int,
    py: int,
)
    requires
        s.len() == width * height,
        0 <= x < width,
        0 <= y < height,
        taps_fit(kernel, width, height, x, x + 1, y, y + 1, divisor),
        0 <= px < width,
        0 <= py < height,
        !(x == px && y == py),
        forall|j: int|
            0 <= j < kernel.len() ==> {
                let t = #[trigger] kernel[j];
                !(x + t.0 == px && y + t.1 == py)
            },
    ensures
        diffusion_step(s, width, x, y, kernel, divisor).len() == s.len(),
        diffusion_step(s, width, x, y, kernel, divisor)[pixel_index(width, px, py)] == s[pixel_index(
            width,
            px,
            py,
        )],
{
    let i = pixel_index(width, x, y);
    lemma_pixel_index_bounds(width, height, x, y);
    lemma_pixel_index_bounds(width, height, px, py);
    if i == pixel_index(width, px, py) {
        lemma_pixel_index_injective(width, x, y, px, py);
    }
    let e = quantization_error(s[i]);
    lemma_spread_keeps(
        s.update(i, add_clamped(s[i], e)),
        width,
        height,
        x,
        y,
        e,
        kernel,
        divisor,
        kernel.len() as int,
        px,
        py,
    );
}

proof fn lemma_row_keeps(
    s: Seq<Rgb>,
    width: int,
    height: int,
    y: int,
    x0: int,
    x: int,
    x1: int,
    y0: int,
    y1: int,
    kernel: Seq<Tap>,
    divisor: int,
    px: int,
    py: int,
)
    requires
        s.len() == width * height,
        0 <= x0 <= x <= x1 <= width,
        0 <= y0 <= y < y1 <= height,
        taps_fit(kernel, width, height, x0, x1, y0, y1, divisor),
        0 <= px < width,
        0 <= py < height,
        outside_reach(kernel, x0, x1, y0, y1, px, py),
    ensures
        pass_row(s, width, y, x0, x, kernel, divisor).len() == s.len(),
        pass_row(s, width, y, x0, x, kernel, divisor)[pixel_index(width, px, py)] == s[pixel_index(
            width,
            px,
            py,
        )],
    decreases x - x0,
{
    if x > x0 {
        lemma_row_keeps(s, width, height, y, x0, x - 1, x1, y0, y1, kernel, divisor, px, py);
        let prior = pass_row(s, width, y, x0, x - 1, kernel, divisor);
        assert forall|j: int| 0 <= j < kernel.len() implies {
            let t = #[trigger] kernel[j];
            &&& 0 <= (x - 1) + t.0
            &&& (x - 1) + 1 + t.0 <= width
            &&& 0 <= t.1
            &&& y + 1 + t.1 <= height
            &&& 0 <= t.2 <= divisor
            &&& !((x - 1) + t.0 == px && y + t.1 == py)
        } by {
            let t = kernel[j];
            assert(0 <= x0 + t.0 && x1 + t.0 <= width && y1 + t.1 <= height);
        }
        lemma_step_keeps(prior, width, height, x - 1, y, kernel, divisor, px, py);
    }
}

proof fn lemma_rows_keep(
    s: Seq<Rgb>,
    width: int,
    height: int,
    x0: int,
    x1: int,
    y0: int,
    y: int,
    y1: int,
    kernel: Seq<Tap>,
    divisor: int,
    px: int,
    py: int,
)
    requires
        s.len() == width * height,
        0 <= x0 <= x1 <= width,
        0 <= y0 <= y <= y1 <= height,
        taps_fit(kernel, width, height, x0, x1, y0, y1, divisor),
        0 <= px < width,
        0 <= py < height,
        outside_reach(kernel, x0, x1, y0, y1, px, py),
    ensures
        pass_rows(s, width, x0, x1, y0, y, kernel, divisor).len() == s.len(),
        pass_rows(s, width, x0, x1, y0, y, kernel, divisor)[pixel_index(width, px, py)]
            == s[pixel_index(width, px, py)],
    decreases y - y0,
{
    if y > y0 {
        lemma_rows_keep(s, width, height, x0, x1, y0, y - 1, y1, kernel, divisor, px, py);
        let prior = pass_rows(s, width, x0, x1, y0, y - 1, kernel, divisor);
        lemma_row_keeps(prior, width, height, y - 1, x0, x1, x1, y0, y1, kernel, divisor, px, py);
    }
}

/// Floyd-Steinberg leaves the first row, the last row and the last column
/// of a raster exactly as they were.
pub proof fn lemma_floyd_steinberg_keeps_border(s: Seq<Rgb>, width: int, height: int, px: int, py: int)
    requires
        s.len() == width * height,
        0 <= px < width,
        0 <= py < height,
        py == 0 || py == height - 1 || px == width - 1,
    ensures
        spec_floyd_steinberg(s, width, height)[pixel_index(width, px, py)] == s[pixel_index(
            width,
            px,
            py,
        )],
{
    let kernel = floyd_steinberg_kernel();
    if width < 3 {
        lemma_pass_without_columns(s, width, 1, width - 2, 1, height - 2, kernel, 16);
    } else if height >= 3 {
        assert(taps_fit(kernel, width, height, 1, width - 2, 1, height - 2, 16)) by {
            assert forall|k: int| 0 <= k < kernel.len() implies {
                let t = #[trigger] kernel[k];
                &&& 0 <= 1 + t.0
                &&& width - 2 + t.0 <= width
                &&& 0 <= t.1
                &&& height - 2 + t.1 <= height
                &&& 0 <= t.2 <= 16
            } by {
                assert(0 <= k < 4);
            }
        }
        assert(outside_reach(kernel, 1, width - 2, 1, height - 2, px, py)) by {
            assert forall|k: int| 0 <= k < kernel.len() implies {
                let t = #[trigger] kernel[k];
                !(1 + t.0 <= px < width - 2 + t.0 && 1 + t.1 <= py < height - 2 + t.1)
            } by {
                assert(0 <= k < 4);
            }
        }
        lemma_rows_keep(s, width, height, 1, width - 2, 1, height - 2, height - 2, kernel, 16, px, py);
    }
}

/// Jarvis-Judice-Ninke leaves the last row and the last column of a raster
/// exactly as they were.
pub proof fn lemma_jjn_keeps_border(s: Seq<Rgb>, width: int, height: int, px: int, py: int)
    requires
        s.len() == width * height,
        0 <= px < width,
        0 <= py < height,
        py == height - 1 || px == width - 1,
    ensures
        spec_jjn(s, width, height)[pixel_index(width, px, py)] == s[pixel_index(width, px, py)],
{
    let kernel = jjn_kernel();
    if width < 6 {
        lemma_pass_without_columns(s, width, 3, width - 3, 0, height - 3, kernel, 48);
    } else if height >= 3 {
        assert(taps_fit(kernel, width, height, 3, width - 3, 0, height - 3, 48)) by {
            assert forall|k: int| 0 <= k < kernel.len() implies {
                let t = #[trigger] kernel[k];
                &&& 0 <= 3 + t.0
                &&& width - 3 + t.0 <= width
                &&& 0 <= t.1
                &&& height - 3 + t.1 <= height
                &&& 0 <= t.2 <= 48
            } by {
                assert(0 <= k < 12);
            }
        }
        assert(outside_reach(kernel, 3, width - 3, 0, height - 3, px, py)) by {
            assert forall|k: int| 0 <= k < kernel.len() implies {
                let t = #[trigger] kernel[k];
                !(3 + t.0 <= px < width - 3 + t.0 && 0 + t.1 <= py < height - 3 + t.1)
            } by {
                assert(0 <= k < 12);
            }
        }
        lemma_rows_keep(s, width, height, 3, width - 3, 0, height - 3, height - 3, kernel, 48, px, py);
    }
}

} // verus!
