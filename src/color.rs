//! Colors as plain RGBA bytes, and the legible text color on a fill.

use vstd::prelude::*;

verus! {

/// An opaque RGBA color.
#[derive(Clone, Copy, Debug, PartialEq, Eq, Structural)]
pub struct Color {
    pub r: u8,
    pub g: u8,
    pub b: u8,
    pub a: u8,
}

impl Color {
    pub open spec fn spec_black() -> Color {
        Color { r: 0, g: 0, b: 0, a: 255 }
    }

    pub open spec fn spec_white() -> Color {
        Color { r: 255, g: 255, b: 255, a: 255 }
    }

    pub fn black() -> (c: Color)
        ensures
            c == Color::spec_black(),
    {
        Color { r: 0, g: 0, b: 0, a: 255 }
    }

    pub fn white() -> (c: Color)
        ensures
            c == Color::spec_white(),
    {
        Color { r: 255, g: 255, b: 255, a: 255 }
    }

    pub fn rgb(r: u8, g: u8, b: u8) -> (c: Color)
        ensures
            c == (Color { r, g, b, a: 255 }),
    {
        Color { r, g, b, a: 255 }
    }
}

/// Luminance in thousandths of a channel unit: `299 R + 587 G + 114 B`,
/// which is `1000 * 255` times the normalised luminance.
pub open spec fn luminance_milli(c: Color) -> int {
    299 * c.r + 587 * c.g + 114 * c.b
}

/// Text drawn on `c` is legible in black when the normalised luminance is
/// above one half, in white otherwise.
pub open spec fn contrast_of(c: Color) -> Color {
    if luminance_milli(c) > 127500 {
        Color::spec_black()
    } else {
        Color::spec_white()
    }
}

/// The color (black or white) that stays legible on a fill of `color`.
pub fn constrast_color(color: Color) -> (r: Color)
    ensures
        r == contrast_of(color),
{
    let lum: u32 = 299 * (color.r as u32) + 587 * (color.g as u32) + 114 * (color.b as u32);
    if lum > 127500 {
        Color::black()
    } else {
        Color::white()
    }
}

/// The contrast color is always pure black or pure white, never a blend.
pub proof fn lemma_contrast_is_black_or_white(c: Color)
    ensures
        contrast_of(c) == Color::spec_black() || contrast_of(c) == Color::spec_white(),
{
}

/// Two colors of equal luminance get the same contrast color, whatever the
/// distribution over the channels; hence recoloring a fill without changing
/// its luminance never changes its text color.
pub proof fn lemma_contrast_depends_on_luminance_only(c1: Color, c2: Color)
    requires
        luminance_milli(c1) == luminance_milli(c2),
    ensures
        contrast_of(c1) == contrast_of(c2),
{
}

/// Applying the contrast twice gives back the opposite pole: the contrast of
/// black is white and the contrast of white is black.
pub proof fn lemma_contrast_of_contrast(c: Color)
    ensures
        contrast_of(contrast_of(c)) != contrast_of(c),
{
}

} // verus!
