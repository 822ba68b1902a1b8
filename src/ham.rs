//! HAM6 images: one operation and a 4-bit payload per pixel, decoded
//! against a palette and the previously decoded color.
use vstd::prelude::*;

use crate::color::AmigaRgb;
use crate::color_map::{amiga, default_colors, ColorMap};
use crate::ham_encoding::{encode, spec_encode, Computation};
use crate::raster::{Rgb, RgbImage};

verus! {

/// What a HAM6 pixel does with its payload.
#[derive(Debug, Clone, Copy, PartialEq, Eq, Structural)]
pub enum Ham6Operation {
    /// Show the palette entry at the payload's index.
    UsePalette,
    /// Keep green and blue of the previous color, set red to the payload.
    ModifyRed,
    /// Keep red and blue of the previous color, set green to the payload.
    ModifyGreen,
    /// Keep red and green of the previous color, set blue to the payload.
    ModifyBlue,
}

/// One HAM6 pixel: an operation and its 4-bit payload.
#[derive(Debug, Clone, Copy, PartialEq, Eq, Structural)]
pub struct Ham6Pixel {
    pub color_index: u8,
    pub operation: Ham6Operation,
}

/// An encoded image: `width * height` pixels in row-major order and the
/// palette that `UsePalette` pixels refer to.
pub struct HamImage<P> {
    pub width: u32,
    pub height: u32,
    pub data: Vec<P>,
    pub color_map: ColorMap,
}

impl Ham6Pixel {
    pub open spec fn wf(&self) -> bool {
        self.color_index <= 15
    }
}

/// The pixel that records an encoding decision.
pub open spec fn pixel_of(c: Computation) -> Ham6Pixel {
    Ham6Pixel { color_index: c.payload, operation: c.operation }
}

/// The color shown by pixel `p` when `previous` was shown before it.
pub open spec fn decode_step(colors: Seq<AmigaRgb>, previous: AmigaRgb, p: Ham6Pixel) -> AmigaRgb {
    match p.operation {
        Ham6Operation::UsePalette => colors[p.color_index as int],
        Ham6Operation::ModifyRed => amiga(p.color_index, previous.green, previous.blue),
        Ham6Operation::ModifyGreen => amiga(previous.red, p.color_index, previous.blue),
        Ham6Operation::ModifyBlue => amiga(previous.red, previous.green, p.color_index),
    }
}

/// The color on display after decoding the first `n` pixels, starting from black.
pub open spec fn decoded_color(colors: Seq<AmigaRgb>, data: Seq<Ham6Pixel>, n: int) -> AmigaRgb
    decreases n,
{
    if n <= 0 {
        amiga(0, 0, 0)
    } else {
        decode_step(colors, decoded_color(colors, data, n - 1), data[n - 1])
    }
}

/// The color on display after encoding the first `n` pixels, starting from black.
pub open spec fn encoded_color(colors: Seq<AmigaRgb>, targets: Seq<Rgb>, n: int) -> AmigaRgb
    decreases n,
{
    if n <= 0 {
        amiga(0, 0, 0)
    } else {
        spec_encode(
            colors,
            encoded_color(colors, targets, n - 1),
            AmigaRgb::spec_from_rgb8(targets[n - 1]),
        ).color
    }
}

/// The encoding decision for pixel `i` of `targets`.
pub open spec fn encoded_step(colors: Seq<AmigaRgb>, targets: Seq<Rgb>, i: int) -> Computation {
    spec_encode(colors, encoded_color(colors, targets, i), AmigaRgb::spec_from_rgb8(targets[i]))
}

/// Decoding replays encoding: a pixel sequence made of the encoder's
/// decisions for `targets` decodes, pixel after pixel, to exactly the colors
/// that the encoder had on display.
pub proof fn lemma_decode_replays_encode(
    colors: Seq<AmigaRgb>,
    targets: Seq<Rgb>,
    data: Seq<Ham6Pixel>,
    n: int,
)
    requires
        colors.len() == 16,
        data.len() == targets.len(),
        0 <= n <= data.len(),
        forall|i: int|
            0 <= i < data.len() ==> #[trigger] data[i] == pixel_of(encoded_step(colors, targets, i)),
    ensures
        decoded_color(colors, data, n) == encoded_color(colors, targets, n),
    decreases n,
{
    if n > 0 {
        lemma_decode_replays_encode(colors, targets, data, n - 1);
        crate::color_map::lemma_nearest_upto(colors, AmigaRgb::spec_from_rgb8(targets[n - 1]), 16);
        assert(data[n - 1] == pixel_of(encoded_step(colors, targets, n - 1)));
    }
}

impl HamImage<Ham6Pixel> {
    /// The pixel count matches the size, every payload has 4 bits and
    /// every palette entry is a valid color.
    pub open spec fn wf(&self) -> bool {
        &&& self.data@.len() == self.width as int * self.height as int
        &&& forall|i: int| 0 <= i < self.data@.len() ==> (#[trigger] self.data@[i]).wf()
        &&& self.color_map.wf()
    }

    /// Encodes a raster against the preset palette, pixel by pixel in
    /// row-major order, starting from black.
    pub fn from_rgb(image: RgbImage) -> (h: HamImage<Ham6Pixel>)
        requires
            image.wf(),
        ensures
            h.wf(),
            h.width == image.width,
            h.height == image.height,
            h.color_map@ == default_colors(),
            forall|i: int|
                0 <= i < h.data@.len() ==> #[trigger] h.data@[i] == pixel_of(
                    encoded_step(default_colors(), image.pixels@, i),
                ),
    {
        let n = image.pixels.len();
        let mut data: Vec<Ham6Pixel> = Vec::with_capacity(n);
        let color_map = ColorMap::default();
        let mut previous_color = AmigaRgb::new(0, 0, 0);
        let mut i: usize = 0;
        while i < n
            invariant
                n == image.pixels@.len(),
                i <= n,
                color_map@ == default_colors(),
                color_map.wf(),
                previous_color.wf(),
                previous_color == encoded_color(default_colors(), image.pixels@, i as int),
                data@.len() == i,
                forall|j: int|
                    0 <= j < i ==> #[trigger] data@[j] == pixel_of(
                        encoded_step(default_colors(), image.pixels@, j),
                    ),
                forall|j: int| 0 <= j < i ==> (#[trigger] data@[j]).wf(),
            decreases n - i,
        {
            let target_color = AmigaRgb::from_rgb8(image.pixels[i]);
            let best = encode(&color_map, previous_color, target_color);
            previous_color = best.color;
            data.push(Ham6Pixel { color_index: best.payload, operation: best.operation });
            i = i + 1;
        }
        HamImage { width: image.width, height: image.height, data, color_map }
    }

    /// Decodes to a raster of the same size: each pixel shows the color
    /// that its operation makes of the previous pixel's color (black
    /// before the first), expanded to 8 bits per channel.
    pub fn to_rgb(&self) -> (img: RgbImage)
        requires
            self.wf(),
        ensures
            img.wf(),
            img.width == self.width,
            img.height == self.height,
            forall|i: int|
                0 <= i < img.pixels@.len() ==> #[trigger] img.pixels@[i] == decoded_color(
                    self.color_map@,
                    self.data@,
                    i + 1,
                ).spec_to_rgb8(),
    {
        let n = self.data.len();
        let mut pixels: Vec<Rgb> = Vec::with_capacity(n);
        let mut previous = AmigaRgb::new(0, 0, 0);
        let mut i: usize = 0;
        while i < n
            invariant
                n == self.data@.len(),
                i <= n,
                self.wf(),
                previous.wf(),
                previous == decoded_color(self.color_map@, self.data@, i as int),
                pixels@.len() == i,
                forall|j: int|
                    0 <= j < i ==> #[trigger] pixels@[j] == decoded_color(
                        self.color_map@,
                        self.data@,
                        j + 1,
                    ).spec_to_rgb8(),
            decreases n - i,
        {
            let pixel = self.data[i];
            assert(self.data@[i as int].wf());
            let current = match pixel.operation {
                Ham6Operation::UsePalette => {
                    assert(self.color_map@[pixel.color_index as int].wf());
                    self.color_map.get(pixel.color_index)
                },
                Ham6Operation::ModifyRed => AmigaRgb::new(pixel.color_index, previous.g(), previous.b()),
                Ham6Operation::ModifyGreen => AmigaRgb::new(previous.r(), pixel.color_index, previous.b()),
                Ham6Operation::ModifyBlue => AmigaRgb::new(previous.r(), previous.g(), pixel.color_index),
            };
            previous = current;
            pixels.push(current.to_rgb8());
            i = i + 1;
        }
        RgbImage { width: self.width, height: self.height, pixels }
    }
}

} // verus!
