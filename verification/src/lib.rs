//! A small real-time text-rendering toolkit core: a glyph atlas with a
//! verified space allocator, an LRU glyph cache with frame-local eviction
//! protection, pixel-format normalization to premultiplied alpha, a text
//! block layout resolver, and a batched vertex compositor.
//!
//! GPU submission, text shaping and font rasterization are external
//! collaborators; this crate holds the data structures and rules they feed.

use vstd::prelude::*;

pub mod align;
pub mod atlas;
pub mod cache;
pub mod color;
pub mod font;
pub mod raster;
pub mod rect;
pub mod screen;
pub mod text;

verus! {

/// How large a window should be, in physical pixels, or fullscreen.
pub enum WindowDimensions {
    Windowed(u32, u32),
    FullScreen,
}

/// The frame rate a game loop should aim for.
#[derive(Debug, Copy, Clone, PartialEq, Eq, Structural)]
pub enum RefreshRate {
    Monitor,
    Fps(usize),
}

} // verus!
