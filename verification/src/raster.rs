//! Rasterization dispatch: classification of rasterizer output and its
//! normalization to the atlas texture format (RGBA8, premultiplied alpha).
//!
//! Grayscale coverage masks become premultiplied white; native color bitmaps
//! are converted from straight to premultiplied alpha with the integer rule
//! `(channel * alpha) >> 8`. One shader can then composite both glyph kinds
//! with the same blend state.

use vstd::prelude::*;
use crate::font::GlyphKey;

verus! {

/// What kind of bitmap the rasterizer produced.
#[derive(Debug, Clone, Copy, PartialEq, Eq, Structural)]
pub enum GlyphFormat {
    /// A one-byte-per-texel coverage mask.
    Grayscale,
    /// A four-byte-per-texel straight-alpha RGBA bitmap (color emoji).
    Color,
}

/// A rasterized glyph bitmap with the metrics needed to place its quad.
pub struct RasterizedGlyph {
    pub format: GlyphFormat,
    /// Bitmap width in texels.
    pub width: u32,
    /// Bitmap height in texels.
    pub height: u32,
    /// Horizontal bearing: offset from the pen position to the bitmap's left edge.
    pub left: i32,
    /// Vertical bearing: offset from the baseline up to the bitmap's top edge.
    pub top: i32,
    /// `width * height` bytes for a grayscale mask, `4 * width * height` for color.
    pub bytes: Vec<u8>,
}

/// The external font rasterizer. Returns `None` when a glyph has no visible
/// outline (whitespace). No behavior is assumed of implementations: the
/// dispatch validates every bitmap it is handed and treats malformed output
/// as "nothing to render".
pub trait Rasterizer {
    fn rasterize(&mut self, key: GlyphKey) -> Option<RasterizedGlyph>;
}

/// A usable rasterized bitmap: positive extent, and exactly the byte count
/// its format and dimensions claim. Anything else is malformed and renders
/// nothing — a single bad glyph must not blank the frame.
pub open spec fn raster_wf(rg: RasterizedGlyph) -> bool {
    &&& rg.width >= 1
    &&& rg.height >= 1
    &&& rg.bytes@.len() == (match rg.format {
        GlyphFormat::Grayscale => rg.width * rg.height,
        GlyphFormat::Color => 4 * (rg.width * rg.height),
    })
}

/// One color channel scaled by alpha, by the integer rule `(c * a) >> 8`:
/// shifting a nonnegative product right by 8 is dividing by 256, truncated.
pub open spec fn premul_channel(c: u8, a: u8) -> u8 {
    ((c as int * a as int) / 256) as u8
}

/// A straight-alpha RGBA byte sequence converted to premultiplied alpha:
/// color channels are scaled by their texel's alpha, alpha stays.
pub open spec fn premultiplied(bytes: Seq<u8>) -> Seq<u8> {
    Seq::new(
        bytes.len(),
        |i: int|
            if i % 4 == 3 {
                bytes[i]
            } else {
                premul_channel(bytes[i], bytes[4 * (i / 4) + 3])
            },
    )
}

/// A coverage mask expanded to RGBA: all four channels hold the coverage
/// value, which is white premultiplied by coverage.
pub open spec fn expanded_gray(mask: Seq<u8>) -> Seq<u8> {
    Seq::new(4 * mask.len(), |i: int| mask[i / 4])
}

/// What normalization produces for each glyph kind.
pub open spec fn normalized(format: GlyphFormat, bytes: Seq<u8>) -> Seq<u8> {
    match format {
        GlyphFormat::Grayscale => expanded_gray(bytes),
        GlyphFormat::Color => premultiplied(bytes),
    }
}

/// Scale one color channel by alpha: `(c * a) >> 8`, in integer arithmetic.
pub fn premultiply_channel(c: u8, a: u8) -> (r: u8)
    ensures
        r == premul_channel(c, a),
{
    proof {
        assert((c as int) * (a as int) <= 65025) by (nonlinear_arith)
            requires
                c <= 255,
                a <= 255,
        ;
    }
    let p: u32 = (c as u32) * (a as u32);
    proof {
        assert((p >> 8u32) == p / 256 && (p >> 8u32) < 256) by (bit_vector)
            requires
                p <= 65025,
        ;
    }
    (p >> 8u32) as u8
}

/// Convert a straight-alpha RGBA bitmap to premultiplied alpha.
pub fn premultiply_rgba(bytes: &Vec<u8>) -> (r: Vec<u8>)
    requires
        bytes@.len() % 4 == 0,
    ensures
        r@ == premultiplied(bytes@),
{
    let mut out: Vec<u8> = Vec::new();
    let mut p: usize = 0;
    let n = bytes.len();
    let pixels = n / 4;
    while p < pixels
        invariant
            n == bytes@.len(),
            bytes@.len() % 4 == 0,
            pixels == bytes@.len() / 4,
            p <= pixels,
            out@.len() == 4 * p,
            forall|i: int| 0 <= i < 4 * p ==> out@[i] == premultiplied(bytes@)[i],
        decreases pixels - p,
    {
        proof {
            assert(4 * (pixels as int) == bytes@.len());
        }
        let a = bytes[4 * p + 3];
        out.push(premultiply_channel(bytes[4 * p], a));
        out.push(premultiply_channel(bytes[4 * p + 1], a));
        out.push(premultiply_channel(bytes[4 * p + 2], a));
        out.push(a);
        proof {
            assert forall|i: int| 0 <= i < 4 * (p + 1) implies out@[i] == premultiplied(
                bytes@,
            )[i] by {
                if i >= 4 * p {
                    assert(i / 4 == p as int);
                }
            }
        }
        p = p + 1;
    }
    proof {
        assert(out@ =~= premultiplied(bytes@));
    }
    out
}

/// Expand a grayscale coverage mask to RGBA premultiplied white.
pub fn expand_grayscale(mask: &Vec<u8>) -> (r: Vec<u8>)
    ensures
        r@ == expanded_gray(mask@),
{
    let mut out: Vec<u8> = Vec::new();
    let mut p: usize = 0;
    let n = mask.len();
    while p < n
        invariant
            n == mask@.len(),
            p <= n,
            out@.len() == 4 * p,
            forall|i: int| 0 <= i < 4 * p ==> out@[i] == expanded_gray(mask@)[i],
        decreases n - p,
    {
        let v = mask[p];
        out.push(v);
        out.push(v);
        out.push(v);
        out.push(v);
        proof {
            assert forall|i: int| 0 <= i < 4 * (p + 1) implies out@[i] == expanded_gray(
                mask@,
            )[i] by {
                if i >= 4 * p {
                    assert(i / 4 == p as int);
                }
            }
        }
        p = p + 1;
    }
    proof {
        assert(out@ =~= expanded_gray(mask@));
    }
    out
}

/// Normalize a rasterized bitmap of either kind to the atlas texture format.
pub fn normalize(format: GlyphFormat, bytes: &Vec<u8>) -> (r: Vec<u8>)
    requires
        format == GlyphFormat::Color ==> bytes@.len() % 4 == 0,
    ensures
        r@ == normalized(format, bytes@),
{
    match format {
        GlyphFormat::Grayscale => expand_grayscale(bytes),
        GlyphFormat::Color => premultiply_rgba(bytes),
    }
}

/// The errors glyph caching can surface. `NoTextureSpace` means every
/// resident glyph is needed this frame and the atlas has no room: the caller
/// renders what was composited so far and skips the rest of the block.
#[derive(Debug, Clone, Copy, PartialEq, Eq, Structural)]
pub enum RasterizationError {
    NoTextureSpace,
}

} // verus!
