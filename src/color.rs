//! Amiga 12-bit colors (4 bits per channel) and their relation to 8-bit RGB.
use vstd::prelude::*;

use crate::raster::Rgb;

verus! {

/// A 12-bit color: three channels, each in `0..=15`.
#[derive(Debug, Clone, Copy, PartialEq, Eq, Structural)]
pub struct AmigaRgb {
    pub red: u8,
    pub green: u8,
    pub blue: u8,
}

/// Expands a 4-bit channel to 8 bits, `v * 17`, so that 0 maps to 0 and 15 to 255.
pub open spec fn expand4(v: int) -> int {
    v * 17
}

/// Truncates an 8-bit channel to its 4-bit bucket.
pub open spec fn truncate8(v: int) -> int {
    v / 16
}

impl AmigaRgb {
    /// Every channel holds a 4-bit value.
    pub open spec fn wf(&self) -> bool {
        self.red <= 15 && self.green <= 15 && self.blue <= 15
    }

    pub open spec fn spec_from_rgb8(p: Rgb) -> AmigaRgb {
        AmigaRgb {
            red: truncate8(p.r as int) as u8,
            green: truncate8(p.g as int) as u8,
            blue: truncate8(p.b as int) as u8,
        }
    }

    pub open spec fn spec_to_rgb8(&self) -> Rgb {
        Rgb {
            r: expand4(self.red as int) as u8,
            g: expand4(self.green as int) as u8,
            b: expand4(self.blue as int) as u8,
        }
    }

    /// Sum of the squared channel differences, over the 4-bit channel values.
    pub open spec fn spec_dist2(&self, other: &AmigaRgb) -> int {
        (self.red - other.red) * (self.red - other.red)
            + (self.green - other.green) * (self.green - other.green)
            + (self.blue - other.blue) * (self.blue - other.blue)
    }

    /// Builds a color from three 4-bit channel values.
    pub fn new(red: u8, green: u8, blue: u8) -> (c: AmigaRgb)
        requires
            red <= 15,
            green <= 15,
            blue <= 15,
        ensures
            c == (AmigaRgb { red, green, blue }),
            c.wf(),
    {
        AmigaRgb { red, green, blue }
    }

    pub fn r(&self) -> (v: u8)
        ensures
            v == self.red,
    {
        self.red
    }

    pub fn g(&self) -> (v: u8)
        ensures
            v == self.green,
    {
        self.green
    }

    pub fn b(&self) -> (v: u8)
        ensures
            v == self.blue,
    {
        self.blue
    }

    /// Quantizes an 8-bit color by keeping the high nibble of each channel.
    pub fn from_rgb8(p: Rgb) -> (c: AmigaRgb)
        ensures
            c == Self::spec_from_rgb8(p),
            c.wf(),
    {
        let (r, g, b) = (p.r, p.g, p.b);
        assert(r >> 4u8 == r / 16 && g >> 4u8 == g / 16 && b >> 4u8 == b / 16) by (bit_vector);
        AmigaRgb { red: r >> 4, green: g >> 4, blue: b >> 4 }
    }

    /// Spreads each channel over 0..=255 as `(v << 4) + v`.
    pub fn to_rgb8(&self) -> (p: Rgb)
        requires
            self.wf(),
        ensures
            p == self.spec_to_rgb8(),
    {
        let (r, g, b) = (self.red, self.green, self.blue);
        assert(r <= 15 ==> (r << 4u8) + r == r * 17) by (bit_vector);
        assert(g <= 15 ==> (g << 4u8) + g == g * 17) by (bit_vector);
        assert(b <= 15 ==> (b << 4u8) + b == b * 17) by (bit_vector);
        Rgb { r: (r << 4) + r, g: (g << 4) + g, b: (b << 4) + b }
    }

    /// Squared Euclidean distance between two colors, on their 4-bit channels.
    pub fn euclidean_dist2(&self, other: &Self) -> (d: u32)
        requires
            self.wf(),
            other.wf(),
        ensures
            d == self.spec_dist2(other),
    {
        let rd: i32 = self.red as i32 - other.red as i32;
        let gd: i32 = self.green as i32 - other.green as i32;
        let bd: i32 = self.blue as i32 - other.blue as i32;
        assert(rd * rd <= 225 && gd * gd <= 225 && bd * bd <= 225) by (nonlinear_arith)
            requires
                -15 <= rd <= 15,
                -15 <= gd <= 15,
                -15 <= bd <= 15,
        ;
        assert(rd * rd >= 0 && gd * gd >= 0 && bd * bd >= 0) by (nonlinear_arith);
        ((rd * rd) + (gd * gd) + (bd * bd)) as u32
    }
}

/// The squared distance does not depend on the order of its arguments.
pub proof fn lemma_dist2_symmetric(a: AmigaRgb, b: AmigaRgb)
    ensures
        a.spec_dist2(&b) == b.spec_dist2(&a),
{
    let (x, y, z) = (a.red - b.red, a.green - b.green, a.blue - b.blue);
    assert(x * x == (-x) * (-x) && y * y == (-y) * (-y) && z * z == (-z) * (-z))
        by (nonlinear_arith);
}

/// Quantizing an 8-bit color and expanding it again maps each channel `v` to
/// `(v / 16) * 17`: the lower end of its bucket spread over 0..=255. The
/// color comes back unchanged exactly when every channel is a multiple of 17.
pub proof fn lemma_rgb8_round_trip(p: Rgb)
    ensures
        AmigaRgb::spec_from_rgb8(p).spec_to_rgb8() == (Rgb {
            r: expand4(truncate8(p.r as int)) as u8,
            g: expand4(truncate8(p.g as int)) as u8,
            b: expand4(truncate8(p.b as int)) as u8,
        }),
        (AmigaRgb::spec_from_rgb8(p).spec_to_rgb8() == p) <==> (p.r % 17 == 0 && p.g % 17 == 0
            && p.b % 17 == 0),
{
    lemma_channel_round_trip(p.r);
    lemma_channel_round_trip(p.g);
    lemma_channel_round_trip(p.b);
}

/// Bounds of a channel's 4-bit bucket and of its expansion back to 8 bits.
pub proof fn lemma_channel_round_trip(v: u8)
    ensures
        0 <= truncate8(v as int) <= 15,
        0 <= expand4(truncate8(v as int)) <= 255,
        -15 <= v - expand4(truncate8(v as int)) <= 15,
        (expand4(truncate8(v as int)) == v) <==> (v % 17 == 0),
{
    assert((v / 16) * 17 <= 255) by (bit_vector);
    assert(v <= (v / 16) * 17 + 15 && (v / 16) * 17 <= v + 15) by (bit_vector);
    assert(((v / 16) * 17 == v) <==> (v % 17 == 0)) by (bit_vector);
}

} // verus!
