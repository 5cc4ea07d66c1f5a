//! Straight-alpha RGBA colours with 8-bit normalized channels, and "over"
//! compositing on them.

use vstd::prelude::*;

verus! {

/// A colour with four normalized channels: the byte `255` stands for `1.0`.
/// Alpha is straight, not premultiplied.
#[derive(Clone, Copy, Debug, PartialEq, Eq, Structural)]
pub struct Color {
    pub r: u8,
    pub g: u8,
    pub b: u8,
    pub a: u8,
}

/// One channel of `src * alpha + dst * (1 - alpha)` on normalized bytes,
/// rounded to the nearest byte (a half rounds up).
pub open spec fn blend_channel(src: int, dst: int, alpha: int) -> int {
    (src * alpha + dst * (255 - alpha) + 127) / 255
}

/// The product of two normalized bytes, rounded to the nearest byte.
pub open spec fn scale_channel(value: int, factor: int) -> int {
    (value * factor + 127) / 255
}

/// The weighted sum of two bytes whose weights add up to 255 is at most
/// 255 * 255.
pub proof fn lemma_weighted_sum_bounds(src: int, dst: int, alpha: int)
    requires
        0 <= src <= 255,
        0 <= dst <= 255,
        0 <= alpha <= 255,
    ensures
        0 <= src * alpha + dst * (255 - alpha) <= 65025,
        0 <= blend_channel(src, dst, alpha) <= 255,
{
    assert(0 <= src * alpha <= 255 * alpha) by (nonlinear_arith)
        requires
            0 <= src <= 255,
            0 <= alpha,
    ;
    assert(0 <= dst * (255 - alpha) <= 255 * (255 - alpha)) by (nonlinear_arith)
        requires
            0 <= dst <= 255,
            0 <= 255 - alpha,
    ;
}

/// The blended channel differs from the exact value of
/// `src * alpha + dst * (1 - alpha)` by at most half a step of 1/255.
pub proof fn lemma_blend_channel_is_nearest(src: int, dst: int, alpha: int)
    requires
        0 <= src <= 255,
        0 <= dst <= 255,
        0 <= alpha <= 255,
    ensures
        -127 <= 255 * blend_channel(src, dst, alpha) - (src * alpha + dst * (255 - alpha)) <= 127,
{
    lemma_weighted_sum_bounds(src, dst, alpha);
}

/// The blended channel lies between the source and the destination channel.
pub proof fn lemma_blend_channel_between(src: int, dst: int, alpha: int)
    requires
        0 <= src <= 255,
        0 <= dst <= 255,
        0 <= alpha <= 255,
    ensures
        src <= dst ==> src <= blend_channel(src, dst, alpha) <= dst,
        dst <= src ==> dst <= blend_channel(src, dst, alpha) <= src,
{
    let t = src * alpha + dst * (255 - alpha);
    assert(src <= dst ==> 255 * src <= t <= 255 * dst) by (nonlinear_arith)
        requires
            t == src * alpha + dst * (255 - alpha),
            0 <= alpha <= 255,
    ;
    assert(dst <= src ==> 255 * dst <= t <= 255 * src) by (nonlinear_arith)
        requires
            t == src * alpha + dst * (255 - alpha),
            0 <= alpha <= 255,
    ;
}

/// One channel of a colour composited over another.
fn blend_byte(src: u8, dst: u8, alpha: u8) -> (out: u8)
    ensures
        out == blend_channel(src as int, dst as int, alpha as int),
{
    proof {
        lemma_weighted_sum_bounds(src as int, dst as int, alpha as int);
    }
    let inverse: u32 = 255 - alpha as u32;
    let sum: u32 = src as u32 * alpha as u32 + dst as u32 * inverse + 127;
    (sum / 255) as u8
}

/// The product of two normalized bytes.
fn scale_byte(value: u8, factor: u8) -> (out: u8)
    ensures
        out == scale_channel(value as int, factor as int),
{
    assert(0 <= value * factor <= 65025) by (nonlinear_arith)
        requires
            0 <= value <= 255,
            0 <= factor <= 255,
    ;
    let product: u32 = value as u32 * factor as u32 + 127;
    (product / 255) as u8
}

impl Color {
    /// Builds a colour from its four channels.
    pub fn new(r: u8, g: u8, b: u8, a: u8) -> (c: Color)
        ensures
            c == (Color { r, g, b, a }),
    {
        Color { r, g, b, a }
    }

    /// Fully transparent black, the colour of a fresh buffer.
    pub fn transparent() -> (c: Color)
        ensures
            c == (Color { r: 0, g: 0, b: 0, a: 0 }),
    {
        Color { r: 0, g: 0, b: 0, a: 0 }
    }

    /// `true` for a colour whose alpha is `1.0`.
    pub fn is_opaque(&self) -> (opaque: bool)
        ensures
            opaque == (self.a == 255),
    {
        self.a == 255
    }

    /// This colour composited over `dst`: every channel, alpha included, becomes
    /// `src * srcA + dst * (1 - srcA)`, where `srcA` is this colour's alpha.
    pub open spec fn over_spec(self, dst: Color) -> Color {
        Color {
            r: blend_channel(self.r as int, dst.r as int, self.a as int) as u8,
            g: blend_channel(self.g as int, dst.g as int, self.a as int) as u8,
            b: blend_channel(self.b as int, dst.b as int, self.a as int) as u8,
            a: blend_channel(self.a as int, dst.a as int, self.a as int) as u8,
        }
    }

    /// Composites this colour over `dst`. An opaque source replaces the
    /// destination without any arithmetic.
    pub fn over(&self, dst: Color) -> (out: Color)
        ensures
            out == self.over_spec(dst),
    {
        if self.a == 255 {
            proof {
                lemma_opaque_replaces(*self, dst);
            }
            *self
        } else {
            Color {
                r: blend_byte(self.r, dst.r, self.a),
                g: blend_byte(self.g, dst.g, self.a),
                b: blend_byte(self.b, dst.b, self.a),
                a: blend_byte(self.a, dst.a, self.a),
            }
        }
    }

    /// This colour multiplied by `tint`, channel by channel.
    pub open spec fn modulate_spec(self, tint: Color) -> Color {
        Color {
            r: scale_channel(self.r as int, tint.r as int) as u8,
            g: scale_channel(self.g as int, tint.g as int) as u8,
            b: scale_channel(self.b as int, tint.b as int) as u8,
            a: scale_channel(self.a as int, tint.a as int) as u8,
        }
    }

    /// Multiplies every channel by the same channel of `tint`, where `255`
    /// stands for `1.0`: opaque white leaves the colour unchanged.
    pub fn modulate(&self, tint: Color) -> (out: Color)
        ensures
            out == self.modulate_spec(tint),
    {
        Color {
            r: scale_byte(self.r, tint.r),
            g: scale_byte(self.g, tint.g),
            b: scale_byte(self.b, tint.b),
            a: scale_byte(self.a, tint.a),
        }
    }

    /// This colour with its alpha multiplied by a coverage value.
    pub open spec fn with_coverage_spec(self, coverage: u8) -> Color {
        Color {
            r: self.r,
            g: self.g,
            b: self.b,
            a: scale_channel(self.a as int, coverage as int) as u8,
        }
    }

    /// Scales the alpha of this colour by `coverage`, where `255` leaves it
    /// unchanged and `0` makes the colour fully transparent.
    pub fn with_coverage(&self, coverage: u8) -> (out: Color)
        ensures
            out == self.with_coverage_spec(coverage),
    {
        Color { r: self.r, g: self.g, b: self.b, a: scale_byte(self.a, coverage) }
    }
}

/// An opaque source replaces whatever lies under it.
pub proof fn lemma_opaque_replaces(src: Color, dst: Color)
    requires
        src.a == 255,
    ensures
        src.over_spec(dst) == src,
{
}

/// A fully transparent source leaves the destination as it is.
pub proof fn lemma_transparent_keeps(src: Color, dst: Color)
    requires
        src.a == 0,
    ensures
        src.over_spec(dst) == dst,
{
}

/// Opaque white is neutral for modulation.
pub proof fn lemma_modulate_white(c: Color)
    ensures
        c.modulate_spec(Color { r: 255, g: 255, b: 255, a: 255 }) == c,
{
}

/// Full coverage keeps the colour, and no coverage makes it fully transparent.
pub proof fn lemma_coverage_extremes(c: Color)
    ensures
        c.with_coverage_spec(255) == c,
        c.with_coverage_spec(0).a == 0,
{
}

} // verus!
