//! RGBA colors with 8-bit channels, as used for glyph tints.

use vstd::prelude::*;

verus! {

/// An RGBA color with straight (non-premultiplied) 8-bit channels.
#[derive(Debug, Copy, Clone, PartialEq, Eq, Structural)]
pub struct Color {
    pub red: u8,
    pub green: u8,
    pub blue: u8,
    pub alpha: u8,
}

impl Color {
    pub fn new(red: u8, green: u8, blue: u8, alpha: u8) -> (c: Color)
        ensures
            c == (Color { red, green, blue, alpha }),
    {
        Color { red, green, blue, alpha }
    }

    /// Opaque white, the tint that leaves a glyph's own colors unchanged.
    pub open spec fn white_spec() -> Color {
        Color { red: 255, green: 255, blue: 255, alpha: 255 }
    }

    pub fn white() -> (c: Color)
        ensures
            c == Color::white_spec(),
    {
        Color { red: 255, green: 255, blue: 255, alpha: 255 }
    }
}

} // verus!
