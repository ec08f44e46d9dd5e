//! Pixels and the fixed luma reduction used to grayscale them.

use vstd::prelude::*;

verus! {

/// One pixel: red, green, blue and alpha, each an 8-bit channel.
#[derive(Clone, Copy, PartialEq, Eq, Structural, Debug)]
pub struct Color {
    pub r: u8,
    pub g: u8,
    pub b: u8,
    pub a: u8,
}

impl Color {
    /// The zero pixel: fully transparent black, used to fill fresh canvases.
    pub open spec fn transparent() -> Color {
        Color { r: 0, g: 0, b: 0, a: 0 }
    }

    /// Grayscale intensity of this pixel under the fixed sRGB luma weights
    /// 2126/10000, 7152/10000 and 722/10000; alpha is ignored.
    pub open spec fn luma(self) -> int {
        (2126 * self.r + 7152 * self.g + 722 * self.b) / 10000
    }
}

/// A fresh transparent pixel.
pub fn transparent() -> (c: Color)
    ensures
        c == Color::transparent(),
{
    Color { r: 0, g: 0, b: 0, a: 0 }
}

/// Grayscale intensity of a pixel, by the fixed luma-weighted reduction.
pub fn luma(c: Color) -> (l: u8)
    ensures
        l as int == c.luma(),
{
    let weighted: u32 = 2126 * (c.r as u32) + 7152 * (c.g as u32) + 722 * (c.b as u32);
    (weighted / 10000) as u8
}

} // verus!
