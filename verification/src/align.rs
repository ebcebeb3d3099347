//! The block layout resolver: where a measured text block's origin lands on
//! each axis, given an alignment policy. Pure integer arithmetic; no clamping
//! to the canvas is performed, so blocks may sit partially or fully
//! off-screen on purpose.

use vstd::prelude::*;

verus! {

/// Where to align on one axis, in pixels.
/// X: `Start` puts the block's left edge at the offset, `End` its right edge
///    at that distance from the reference extent's end.
/// Y: `Start` is the top edge, `End` the bottom edge.
/// `Center(c)` centers the block on coordinate `c`; `WindowCenter` centers it
/// on the canvas.
#[derive(Debug, Clone, Copy, PartialEq, Eq, Structural)]
pub enum AxisAlign {
    Start(i32),
    End(i32),
    Center(i32),
    WindowCenter,
}

impl Default for AxisAlign {
    fn default() -> (r: Self)
        ensures
            r == AxisAlign::Start(0),
    {
        AxisAlign::Start(0)
    }
}

/// Alignment for a block of text. Max width and height are optional and
/// default to the canvas width and height.
#[derive(Debug)]
pub struct TextAlignment {
    pub x: AxisAlign,
    pub y: AxisAlign,
    pub max_width: Option<u32>,
    pub max_height: Option<u32>,
}

impl Default for TextAlignment {
    fn default() -> (r: Self)
        ensures
            r == (TextAlignment {
                x: AxisAlign::Start(0),
                y: AxisAlign::Start(0),
                max_width: None,
                max_height: None,
            }),
    {
        TextAlignment { x: AxisAlign::Start(0), y: AxisAlign::Start(0), max_width: None, max_height: None }
    }
}

/// The extent `End` alignment is measured from: the explicit box size when
/// one was given, the canvas extent otherwise.
pub open spec fn reference_extent(max_extent: Option<u32>, canvas_extent: u32) -> int {
    match max_extent {
        Some(m) => m as int,
        None => canvas_extent as int,
    }
}

/// Origin of a block on one axis: `Start(o)` is `o` regardless of canvas and
/// measured size; `End(o)` is `reference - o - measured`; `Center(c)` is
/// `c - measured / 2`; `WindowCenter` is `canvas / 2 - measured / 2`.
pub open spec fn resolve_axis_spec(
    align: AxisAlign,
    measured: int,
    canvas: int,
    reference: int,
) -> int {
    match align {
        AxisAlign::Start(o) => o as int,
        AxisAlign::End(o) => reference - o - measured,
        AxisAlign::Center(c) => c - measured / 2,
        AxisAlign::WindowCenter => canvas / 2 - measured / 2,
    }
}

/// Resolve one axis of a block origin.
pub fn resolve_axis(align: &AxisAlign, measured: u32, canvas: u32, max_extent: Option<u32>) -> (o:
    i64)
    ensures
        o == resolve_axis_spec(
            *align,
            measured as int,
            canvas as int,
            reference_extent(max_extent, canvas),
        ),
{
    let reference: i64 = match max_extent {
        Some(m) => m as i64,
        None => canvas as i64,
    };
    match align {
        AxisAlign::Start(o) => *o as i64,
        AxisAlign::End(o) => reference - *o as i64 - measured as i64,
        AxisAlign::Center(c) => *c as i64 - (measured as i64) / 2,
        AxisAlign::WindowCenter => (canvas as i64) / 2 - (measured as i64) / 2,
    }
}

impl TextAlignment {
    pub fn new(x: AxisAlign, y: AxisAlign) -> (r: Self)
        ensures
            r == (TextAlignment { x, y, max_width: None, max_height: None }),
    {
        Self { x, y, max_width: None, max_height: None }
    }

    pub fn left_top(x: i32, y: i32) -> (r: Self)
        ensures
            r == (TextAlignment {
                x: AxisAlign::Start(x),
                y: AxisAlign::Start(y),
                max_width: None,
                max_height: None,
            }),
    {
        Self { x: AxisAlign::Start(x), y: AxisAlign::Start(y), max_width: None, max_height: None }
    }

    /// The pixel origin of a measured block on a canvas, both axes.
    pub fn resolve_origin(
        &self,
        measured_width: u32,
        measured_height: u32,
        canvas_width: u32,
        canvas_height: u32,
    ) -> (o: (i64, i64))
        ensures
            o.0 == resolve_axis_spec(
                self.x,
                measured_width as int,
                canvas_width as int,
                reference_extent(self.max_width, canvas_width),
            ),
            o.1 == resolve_axis_spec(
                self.y,
                measured_height as int,
                canvas_height as int,
                reference_extent(self.max_height, canvas_height),
            ),
    {
        (
            resolve_axis(&self.x, measured_width, canvas_width, self.max_width),
            resolve_axis(&self.y, measured_height, canvas_height, self.max_height),
        )
    }
}

} // verus!
