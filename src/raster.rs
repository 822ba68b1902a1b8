//! Truecolor rasters: 8-bit RGB pixels stored row-major.
use vstd::prelude::*;

verus! {

/// An 8-bit-per-channel RGB pixel.
#[derive(Debug, Clone, Copy, PartialEq, Eq, Structural)]
pub struct Rgb {
    pub r: u8,
    pub g: u8,
    pub b: u8,
}

impl Rgb {
    pub fn new(r: u8, g: u8, b: u8) -> (p: Rgb)
        ensures
            p == (Rgb { r, g, b }),
    {
        Rgb { r, g, b }
    }
}

/// A raster of `width * height` pixels in row-major order.
pub struct RgbImage {
    pub width: u32,
    pub height: u32,
    pub pixels: Vec<Rgb>,
}

/// Position in the row-major pixel sequence of the pixel at column `x`, row `y`.
pub open spec fn pixel_index(width: int, x: int, y: int) -> int {
    y * width + x
}

/// A pixel inside a `width` by `height` raster has its index in `0..width * height`.
pub proof fn lemma_pixel_index_bounds(width: int, height: int, x: int, y: int)
    requires
        0 <= x < width,
        0 <= y < height,
    ensures
        0 <= pixel_index(width, x, y) < width * height,
{
    assert(0 <= y * width + x < width * height) by (nonlinear_arith)
        requires
            0 <= x < width,
            0 <= y < height,
    ;
}

/// Distinct positions inside a raster have distinct indices.
pub proof fn lemma_pixel_index_injective(width: int, x1: int, y1: int, x2: int, y2: int)
    requires
        0 <= x1 < width,
        0 <= x2 < width,
        0 <= y1,
        0 <= y2,
        pixel_index(width, x1, y1) == pixel_index(width, x2, y2),
    ensures
        x1 == x2,
        y1 == y2,
{
    if y1 < y2 {
        assert(y1 * width + x1 < y2 * width + x2) by (nonlinear_arith)
            requires
                0 <= x1 < width,
                0 <= x2,
                y1 < y2,
        ;
    } else if y2 < y1 {
        assert(y2 * width + x2 < y1 * width + x1) by (nonlinear_arith)
            requires
                0 <= x2 < width,
                0 <= x1,
                y2 < y1,
        ;
    }
}

impl RgbImage {
    /// The pixel sequence covers the raster exactly.
    pub open spec fn wf(&self) -> bool {
        self.pixels@.len() == self.width as int * self.height as int
    }

    pub open spec fn spec_pixel(&self, x: int, y: int) -> Rgb {
        self.pixels@[pixel_index(self.width as int, x, y)]
    }

    /// An all-black raster of the given size.
    pub fn new(width: u32, height: u32) -> (img: RgbImage)
        requires
            width as int * height as int <= usize::MAX,
        ensures
            img.wf(),
            img.width == width,
            img.height == height,
            forall|i: int| 0 <= i < img.pixels@.len() ==> img.pixels@[i] == (Rgb { r: 0, g: 0, b: 0 }),
    {
        let n: usize = width as usize * height as usize;
        let mut pixels: Vec<Rgb> = Vec::with_capacity(n);
        let mut i: usize = 0;
        while i < n
            invariant
                i <= n,
                pixels@.len() == i,
                forall|j: int| 0 <= j < i ==> pixels@[j] == (Rgb { r: 0, g: 0, b: 0 }),
            decreases n - i,
        {
            pixels.push(Rgb { r: 0, g: 0, b: 0 });
            i = i + 1;
        }
        RgbImage { width, height, pixels }
    }

    /// Wraps a row-major pixel sequence, or gives `None` when its length is
    /// not `width * height`.
    pub fn from_raw(width: u32, height: u32, pixels: Vec<Rgb>) -> (r: Option<RgbImage>)
        ensures
            r.is_some() <==> pixels@.len() == width as int * height as int,
            r matches Some(img) ==> img.wf() && img.width == width && img.height == height
                && img.pixels@ == pixels@,
    {
        assert((width as int) * (height as int) <= u64::MAX) by (nonlinear_arith)
            requires
                width <= u32::MAX,
                height <= u32::MAX,
        ;
        if (width as u64) * (height as u64) == pixels.len() as u64 {
            Some(RgbImage { width, height, pixels })
        } else {
            None
        }
    }

    pub fn dimensions(&self) -> (d: (u32, u32))
        ensures
            d == (self.width, self.height),
    {
        (self.width, self.height)
    }

    /// The pixel at column `x`, row `y`.
    pub fn get_pixel(&self, x: u32, y: u32) -> (p: Rgb)
        requires
            self.wf(),
            x < self.width,
            y < self.height,
        ensures
            p == self.spec_pixel(x as int, y as int),
    {
        let i = self.index_of(x, y);
        self.pixels[i]
    }

    /// Overwrites the pixel at column `x`, row `y`.
    pub fn put_pixel(&mut self, x: u32, y: u32, p: Rgb)
        requires
            old(self).wf(),
            x < old(self).width,
            y < old(self).height,
        ensures
            final(self).wf(),
            final(self).width == old(self).width,
            final(self).height == old(self).height,
            final(self).pixels@ == old(self).pixels@.update(
                pixel_index(old(self).width as int, x as int, y as int),
                p,
            ),
    {
        let i = self.index_of(x, y);
        self.pixels.set(i, p);
    }

    fn index_of(&self, x: u32, y: u32) -> (i: usize)
        requires
            self.wf(),
            x < self.width,
            y < self.height,
        ensures
            i == pixel_index(self.width as int, x as int, y as int),
            i < self.pixels@.len(),
    {
        let n = self.pixels.len();
        proof {
            lemma_pixel_index_bounds(self.width as int, self.height as int, x as int, y as int);
            assert(0 <= y * self.width) by (nonlinear_arith);
        }
        y as usize * self.width as usize + x as usize
    }
}

} // verus!
