//! Colours with 8-bit channels and their packing into frame-buffer words.

use vstd::prelude::*;
use crate::fixed::{
    clamp, div_i128, div_toward_zero, lemma_common_factor, lemma_product_bound,
    lemma_quotient_is_between, lemma_share_is_between,
};
use crate::geometry::Weights;

verus! {

/// An RGBA colour. A channel value `n` stands for the intensity `n / 255`.
#[derive(Clone, Copy, Debug, PartialEq, Eq, Structural)]
pub struct Color {
    pub r: u8,
    pub g: u8,
    pub b: u8,
    pub a: u8,
}

/// Opaque white, the colour used when an attribute is missing.
pub open spec fn white() -> Color {
    Color { r: 255, g: 255, b: 255, a: 255 }
}

/// The frame-buffer word `0x00RRGGBB`.
pub open spec fn packed_rgb(r: u8, g: u8, b: u8) -> u32 {
    (r as u32 * 65536 + g as u32 * 256 + b as u32) as u32
}

/// Product of two intensities: `(x / 255) * (y / 255)`, rounded down to a channel value.
pub open spec fn channel_product(x: u8, y: u8) -> u8 {
    ((x as int * y as int) / 255) as u8
}

/// An intensity scaled by a fixed-point factor, rounded down and limited to a channel.
pub open spec fn channel_scaled(x: u8, factor: i32) -> u8 {
    crate::fixed::clamp(
        crate::fixed::div_toward_zero(x as int * factor as int, crate::fixed::ONE as int),
        0,
        255,
    ) as u8
}

/// Three values blended with barycentric weights: their weighted sum divided by
/// the common denominator, rounded toward zero. A zero denominator gives 0.
pub open spec fn spec_blend(v0: int, v1: int, v2: int, weights: Weights) -> int {
    if weights.spec_total() == 0 {
        0
    } else {
        div_toward_zero(v0 * weights.x + v1 * weights.y + v2 * weights.z, weights.spec_total())
    }
}

/// A channel blended from three channels, limited to what a channel holds.
pub open spec fn channel_blend(c0: u8, c1: u8, c2: u8, weights: Weights) -> u8 {
    clamp(spec_blend(c0 as int, c1 as int, c2 as int, weights), 0, 255) as u8
}

/// Convex weights blend three values to a value between the least and the greatest
/// of them; for channels, to a channel.
pub proof fn lemma_blend_of_channels(c0: u8, c1: u8, c2: u8, weights: Weights)
    requires
        weights.is_convex(),
    ensures
        0 <= spec_blend(c0 as int, c1 as int, c2 as int, weights) <= 255,
        channel_blend(c0, c1, c2, weights) == spec_blend(c0 as int, c1 as int, c2 as int, weights),
{
    let t = weights.spec_total();
    if t != 0 {
        let sum = c0 * weights.x + c1 * weights.y + c2 * weights.z;
        lemma_share_is_between(weights.x as int, c0 as int, 0, 255);
        lemma_share_is_between(weights.y as int, c1 as int, 0, 255);
        lemma_share_is_between(weights.z as int, c2 as int, 0, 255);
        lemma_common_factor(weights.x as int, weights.y as int, weights.z as int, 255);
        assert(c0 * weights.x == weights.x * c0) by (nonlinear_arith);
        assert(c1 * weights.y == weights.y * c1) by (nonlinear_arith);
        assert(c2 * weights.z == weights.z * c2) by (nonlinear_arith);
        assert(0 * t <= sum <= 255 * t);
        lemma_quotient_is_between(sum, t, 0, 255);
    }
}

/// Blends three values with barycentric weights.
pub fn blend(v0: i32, v1: i32, v2: i32, weights: &Weights) -> (r: i128)
    requires
        weights.wf(),
    ensures
        r == spec_blend(v0 as int, v1 as int, v2 as int, *weights),
{
    let total: i128 = weights.total();
    if total == 0 {
        return 0;
    }
    proof {
        lemma_product_bound(v0 as int, weights.x as int, 0x8000_0000, 0x2_0000_0000_0000_0000);
        lemma_product_bound(v1 as int, weights.y as int, 0x8000_0000, 0x2_0000_0000_0000_0000);
        lemma_product_bound(v2 as int, weights.z as int, 0x8000_0000, 0x2_0000_0000_0000_0000);
    }
    let sum: i128 = v0 as i128 * weights.x + v1 as i128 * weights.y + v2 as i128 * weights.z;
    div_i128(sum, total)
}

fn blended_channel(c0: u8, c1: u8, c2: u8, weights: &Weights) -> (c: u8)
    requires
        weights.wf(),
    ensures
        c == channel_blend(c0, c1, c2, *weights),
        weights.is_convex() ==> c == spec_blend(c0 as int, c1 as int, c2 as int, *weights),
{
    proof {
        if weights.is_convex() {
            lemma_blend_of_channels(c0, c1, c2, *weights);
        }
    }
    let wide: i128 = blend(c0 as i32, c1 as i32, c2 as i32, weights);
    if wide < 0 {
        0
    } else if wide > 255 {
        255
    } else {
        wide as u8
    }
}

impl Color {
    pub open spec fn spec_interpolate(&self, b: &Color, c: &Color, weights: &Weights) -> Color {
        Color {
            r: channel_blend(self.r, b.r, c.r, *weights),
            g: channel_blend(self.g, b.g, c.g, *weights),
            b: channel_blend(self.b, b.b, c.b, *weights),
            a: 255,
        }
    }

    /// The colours of three vertices, this one first, blended with barycentric
    /// weights. The result is opaque. Inside the triangle, where no weight is
    /// negative, every channel is the plain blend: nothing is cut off.
    pub fn interpolate(&self, b: &Color, c: &Color, weights: &Weights) -> (color: Self)
        requires
            weights.wf(),
        ensures
            color == self.spec_interpolate(b, c, weights),
            weights.is_convex() ==> {
                &&& color.r == spec_blend(self.r as int, b.r as int, c.r as int, *weights)
                &&& color.g == spec_blend(self.g as int, b.g as int, c.g as int, *weights)
                &&& color.b == spec_blend(self.b as int, b.b as int, c.b as int, *weights)
            },
    {
        Color {
            r: blended_channel(self.r, b.r, c.r, weights),
            g: blended_channel(self.g, b.g, c.g, weights),
            b: blended_channel(self.b, b.b, c.b, weights),
            a: 255,
        }
    }

    pub fn new(r: u8, g: u8, b: u8, a: u8) -> (c: Self)
        ensures
            c == (Color { r, g, b, a }),
    {
        Color { r, g, b, a }
    }

    /// Opaque white.
    pub fn white() -> (c: Self)
        ensures
            c == white(),
    {
        Color { r: 255, g: 255, b: 255, a: 255 }
    }

    /// The colour of four bytes as an image stores them.
    pub fn from_rgba(r: u8, g: u8, b: u8, a: u8) -> (c: Self)
        ensures
            c == (Color { r, g, b, a }),
    {
        Color { r, g, b, a }
    }

    pub open spec fn spec_mul(&self, other: &Self) -> Self {
        Color {
            r: channel_product(self.r, other.r),
            g: channel_product(self.g, other.g),
            b: channel_product(self.b, other.b),
            a: channel_product(self.a, other.a),
        }
    }

    /// Channel-wise product, alpha included.
    pub fn mul(&self, other: &Self) -> (c: Self)
        ensures
            c == self.spec_mul(other),
    {
        Color {
            r: product(self.r, other.r),
            g: product(self.g, other.g),
            b: product(self.b, other.b),
            a: product(self.a, other.a),
        }
    }

    pub open spec fn spec_scale(&self, factor: i32) -> Self {
        Color {
            r: channel_scaled(self.r, factor),
            g: channel_scaled(self.g, factor),
            b: channel_scaled(self.b, factor),
            a: self.a,
        }
    }

    /// Red, green and blue times a fixed-point factor; alpha is kept.
    pub fn scale(&self, factor: i32) -> (c: Self)
        ensures
            c == self.spec_scale(factor),
    {
        Color {
            r: scaled(self.r, factor),
            g: scaled(self.g, factor),
            b: scaled(self.b, factor),
            a: self.a,
        }
    }

    pub open spec fn spec_as_u32(&self) -> u32 {
        packed_rgb(self.r, self.g, self.b)
    }

    /// The colour as a frame-buffer word: blue in the low byte, then green, then red;
    /// alpha is dropped and the top byte is zero.
    pub fn as_u32(&self) -> (word: u32)
        ensures
            word == self.spec_as_u32(),
            word <= 0x00ff_ffff,
    {
        let red: u32 = self.r as u32;
        let green: u32 = self.g as u32;
        let blue: u32 = self.b as u32;
        assert(blue | (green << 8) | (red << 16) == red * 65536 + green * 256 + blue) by (bit_vector)
            requires
                red < 256,
                green < 256,
                blue < 256,
        ;
        blue | (green << 8) | (red << 16)
    }
}

fn product(x: u8, y: u8) -> (p: u8)
    ensures
        p == channel_product(x, y),
{
    proof {
        crate::fixed::lemma_product_bound(x as int, y as int, 255, 255);
    }
    let wide: u32 = x as u32 * y as u32;
    (wide / 255) as u8
}

fn scaled(x: u8, factor: i32) -> (p: u8)
    ensures
        p == channel_scaled(x, factor),
{
    let wide: i128 = crate::fixed::mul_wide(x as i64, factor as i64);
    proof {
        crate::fixed::lemma_product_bound(x as int, factor as int, 255, 0x8000_0000);
    }
    let q: i128 = crate::fixed::div_i128(wide, crate::fixed::ONE as i128);
    if q < 0 {
        0
    } else if q > 255 {
        255
    } else {
        q as u8
    }
}

} // verus!
