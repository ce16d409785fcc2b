//! Colors and the rule by which one color is laid over another.

use vstd::prelude::*;

verus! {

/// A color of four bytes: red, green, blue and alpha. Alpha is straight, not
/// premultiplied: 0 is fully transparent, 255 fully opaque.
#[derive(Clone, Copy, Debug, PartialEq, Eq, Structural)]
pub struct Color {
    pub r: u8,
    pub g: u8,
    pub b: u8,
    pub a: u8,
}

/// The color that `image`'s `Pixel::blend` computes for a partly transparent
/// `top` (alpha from 1 to 254) over `bottom`: the "over" rule, worked in
/// single-precision floating point and cut back to bytes.
pub uninterp spec fn blend_mix(bottom: Color, top: Color) -> Color;

/// `top` laid over `bottom`. A fully transparent `top` leaves `bottom` as it
/// is, a fully opaque one replaces it, and any other is mixed in by its alpha.
pub open spec fn composite(bottom: Color, top: Color) -> Color {
    if top.a == 0 {
        bottom
    } else if top.a == 255 {
        top
    } else {
        blend_mix(bottom, top)
    }
}

/// `top` laid over `bottom` `n` times in a row.
pub open spec fn composite_times(bottom: Color, top: Color, n: nat) -> Color
    decreases n,
{
    if n == 0 {
        bottom
    } else {
        composite(composite_times(bottom, top, (n - 1) as nat), top)
    }
}

/// `Pixel::blend` of `image` on `Rgba<u8>`, with `bottom` as the pixel that is
/// blended into and `top` as the other. Its source returns at once, with
/// `bottom` untouched, where the alpha of `top` is zero, and with `top` copied
/// over `bottom` where that alpha is 255; what it computes in between is
/// `blend_mix`.
#[verifier::external_body]
fn blend_pixels(bottom: Color, top: Color) -> (out: Color)
    ensures
        top.a == 0 ==> out == bottom,
        top.a == 255 ==> out == top,
        0 < top.a < 255 ==> out == blend_mix(bottom, top),
{
    let mut pixel = image::Rgba([bottom.r, bottom.g, bottom.b, bottom.a]);
    image::Pixel::blend(&mut pixel, &image::Rgba([top.r, top.g, top.b, top.a]));
    Color { r: pixel.0[0], g: pixel.0[1], b: pixel.0[2], a: pixel.0[3] }
}

impl Color {
    /// The alpha that is left of `alpha` under a glyph's coverage:
    /// `alpha * coverage / 255`, rounded down.
    pub open spec fn covered_alpha(alpha: u8, coverage: u8) -> int {
        (alpha * coverage) / 255
    }

    /// This color with its alpha weakened by `coverage`.
    pub open spec fn spec_with_coverage(self, coverage: u8) -> Color {
        Color { r: self.r, g: self.g, b: self.b, a: Self::covered_alpha(self.a, coverage) as u8 }
    }

    /// The color packed in 16 bits: the top five bits of red, the top six of
    /// green and the top five of blue, red highest.
    pub open spec fn spec_rgb565(self) -> int {
        (self.r / 8) * 2048 + (self.g / 4) * 32 + self.b / 8
    }

    /// Opaque white.
    pub fn white() -> (c: Color)
        ensures
            c == (Color { r: 255, g: 255, b: 255, a: 255 }),
    {
        Color { r: 255, g: 255, b: 255, a: 255 }
    }

    /// Opaque black.
    pub fn black() -> (c: Color)
        ensures
            c == (Color { r: 0, g: 0, b: 0, a: 255 }),
    {
        Color { r: 0, g: 0, b: 0, a: 255 }
    }

    /// Opaque red.
    pub fn red() -> (c: Color)
        ensures
            c == (Color { r: 255, g: 0, b: 0, a: 255 }),
    {
        Color { r: 255, g: 0, b: 0, a: 255 }
    }

    /// Opaque green.
    pub fn green() -> (c: Color)
        ensures
            c == (Color { r: 0, g: 255, b: 0, a: 255 }),
    {
        Color { r: 0, g: 255, b: 0, a: 255 }
    }

    /// Opaque blue.
    pub fn blue() -> (c: Color)
        ensures
            c == (Color { r: 0, g: 0, b: 255, a: 255 }),
    {
        Color { r: 0, g: 0, b: 255, a: 255 }
    }

    /// Black with no alpha at all: laid over a pixel, it changes nothing.
    pub fn transparent() -> (c: Color)
        ensures
            c == (Color { r: 0, g: 0, b: 0, a: 0 }),
    {
        Color { r: 0, g: 0, b: 0, a: 0 }
    }

    pub fn new(r: u8, g: u8, b: u8, a: u8) -> (c: Color)
        ensures
            c == (Color { r, g, b, a }),
    {
        Color { r, g, b, a }
    }

    /// This color laid over `bottom`.
    pub fn over(self, bottom: Color) -> (out: Color)
        ensures
            out == composite(bottom, self),
    {
        blend_pixels(bottom, self)
    }

    /// This color as a glyph shows it where its coverage is `coverage`: red,
    /// green and blue stay, alpha becomes `alpha * coverage / 255`.
    pub fn with_coverage(self, coverage: u8) -> (out: Color)
        ensures
            out == self.spec_with_coverage(coverage),
            out.a <= self.a,
            coverage == 255 ==> out == self,
            coverage == 0 ==> out.a == 0,
    {
        assert(self.a * coverage <= 255 * 255) by (nonlinear_arith);
        assert(self.a * coverage <= self.a * 255) by (nonlinear_arith);
        let scaled: u32 = (self.a as u32 * coverage as u32) / 255;
        Color { r: self.r, g: self.g, b: self.b, a: scaled as u8 }
    }

    /// The color in 16 bits, five for red, six for green and five for blue,
    /// each channel cut to its highest bits without rounding.
    pub fn rgb565(self) -> (packed: u16)
        ensures
            packed == self.spec_rgb565(),
    {
        let r: u16 = (self.r as u16) >> 3;
        let g: u16 = (self.g as u16) >> 2;
        let b: u16 = (self.b as u16) >> 3;
        let (cr, cg, cb) = (self.r, self.g, self.b);
        assert(((cr as u16) >> 3) == cr / 8) by (bit_vector);
        assert(((cg as u16) >> 2) == cg / 4) by (bit_vector);
        assert(((cb as u16) >> 3) == cb / 8) by (bit_vector);
        assert(((r << 11) | (g << 5) | b) == r * 2048 + g * 32 + b) by (bit_vector)
            requires
                r < 32,
                g < 64,
                b < 32,
        ;
        (r << 11) | (g << 5) | b
    }
}

/// A fully transparent color changes nothing that it is laid over.
pub proof fn lemma_transparent_keeps(bottom: Color, top: Color)
    requires
        top.a == 0,
    ensures
        composite(bottom, top) == bottom,
{
}

/// A fully opaque color replaces whatever it is laid over.
pub proof fn lemma_opaque_replaces(bottom: Color, top: Color)
    requires
        top.a == 255,
    ensures
        composite(bottom, top) == top,
{
}

/// Laying a fully opaque color over a pixel once or many times gives the same:
/// the color itself.
pub proof fn lemma_opaque_times(bottom: Color, top: Color, n: nat)
    requires
        top.a == 255,
        n > 0,
    ensures
        composite_times(bottom, top, n) == top,
{
}

/// Laying a fully transparent color over a pixel any number of times leaves
/// the pixel as it was.
pub proof fn lemma_transparent_times(bottom: Color, top: Color, n: nat)
    requires
        top.a == 0,
    ensures
        composite_times(bottom, top, n) == bottom,
    decreases n,
{
    if n > 0 {
        lemma_transparent_times(bottom, top, (n - 1) as nat);
    }
}

} // verus!
