//! Font handles, styled text input, and the key under which a rasterized
//! glyph instance is cached.

use vstd::prelude::*;
use crate::color::Color;

verus! {

/// A handle to a font at a fixed pixel size. Loading font data and building
/// a rasterizer from it are external setup concerns; the cache only needs a
/// stable identity and the pixel size.
pub trait Font: Sized {
    /// The value [`Font::default`] returns.
    spec fn spec_default() -> Self;

    /// Pixel size this handle rasterizes at.
    fn size(&self) -> u32;

    /// A stable identity for the underlying typeface, distinct per font.
    fn font_id(&self) -> u32;

    /// The font a styled run falls back to when none is chosen.
    fn default() -> (f: Self)
        ensures
            f == Self::spec_default(),
    ;
}

/// The built-in font choice: one monospace face, at a pixel size.
#[derive(Debug, Clone, Copy, PartialEq, Eq, Hash)]
pub enum DefaultFont {
    SpaceMono400(u32),
}

impl Font for DefaultFont {
    open spec fn spec_default() -> Self {
        DefaultFont::SpaceMono400(40)
    }

    fn size(&self) -> (s: u32)
        ensures
            self matches DefaultFont::SpaceMono400(px) ==> s == px,
    {
        match self {
            DefaultFont::SpaceMono400(size) => *size,
        }
    }

    fn font_id(&self) -> (id: u32)
        ensures
            id == 0,
    {
        0
    }

    fn default() -> (f: Self)
        ensures
            f == DefaultFont::SpaceMono400(40),
    {
        DefaultFont::SpaceMono400(40)
    }
}

/// One character in one font, the unit the shaper styles.
#[derive(Debug, Clone, PartialEq, Eq, Hash)]
pub struct StyledCharacter<F: Font> {
    pub character: char,
    pub font: F,
}

/// A run of text in a single style.
pub struct StyledText<'a, F: Font> {
    pub text: &'a str,
    pub font: F,
    pub color: Color,
}

impl<'a, F: Font> StyledText<'a, F> {
    /// The default styling: the default font, opaque white.
    pub fn default_styling(text: &'a str) -> (s: StyledText<'a, F>)
        ensures
            s.text == text,
            s.font == F::spec_default(),
            s.color == Color::white_spec(),
    {
        StyledText { text, font: F::default(), color: Color::white() }
    }
}

/// Identifies one rasterized glyph instance: font identity, glyph index
/// (not character, so ligatures and fallback glyphs cache correctly), pixel
/// size, and the quantized sub-pixel horizontal offset (sub-pixel position
/// changes the rasterized bitmap).
#[derive(Debug, Clone, Copy, PartialEq, Eq, Hash, Structural)]
pub struct GlyphKey {
    pub font_id: u32,
    pub glyph_index: u32,
    pub pixel_size: u32,
    pub subpixel_bucket: u8,
}

} // verus!
