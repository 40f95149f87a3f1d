use vstd::prelude::*;

verus! {

/// Color in linear sRGB with premultiplied alpha, 8 bits per channel.
#[derive(Debug, Clone, Copy, PartialEq, Eq, Structural)]
pub struct Color {
    pub r: u8,
    pub g: u8,
    pub b: u8,
    pub a: u8,
}

/// Pure opaque white.
pub open spec fn s_white() -> Color {
    Color { r: 255u8, g: 255u8, b: 255u8, a: 255u8 }
}

/// Pure opaque black.
pub open spec fn s_black() -> Color {
    Color { r: 0u8, g: 0u8, b: 0u8, a: 255u8 }
}

/// Fully transparent.
pub open spec fn s_transparent() -> Color {
    Color { r: 0u8, g: 0u8, b: 0u8, a: 0u8 }
}

impl Color {
    /// A color from an RGBA quadruplet; the channels are premultiplied by alpha.
    pub fn rgba(r: u8, g: u8, b: u8, a: u8) -> (c: Color)
        ensures
            c == (Color { r, g, b, a }),
    {
        Color { r, g, b, a }
    }

    /// A color from an RGB triplet, with alpha full.
    pub fn rgb(r: u8, g: u8, b: u8) -> (c: Color)
        ensures
            c == (Color { r, g, b, a: 255u8 }),
    {
        Color { r, g, b, a: 255 }
    }

    pub fn white() -> (c: Color)
        ensures
            c == s_white(),
    {
        Color { r: 255, g: 255, b: 255, a: 255 }
    }

    pub fn black() -> (c: Color)
        ensures
            c == s_black(),
    {
        Color { r: 0, g: 0, b: 0, a: 255 }
    }

    pub fn transparent() -> (c: Color)
        ensures
            c == s_transparent(),
    {
        Color { r: 0, g: 0, b: 0, a: 0 }
    }
}

} // verus!
