use simple_game::align::{AxisAlign, TextAlignment};
use simple_game::color::Color;
use simple_game::font::GlyphKey;
use simple_game::raster::{GlyphFormat, RasterizationError, RasterizedGlyph, Rasterizer};
use simple_game::text::{
    GlyphResolution, GlyphVertex, PaintError, ShapedGlyph, TextSystem, MAX_VERTEX_COUNT,
};

fn key(n: u32) -> GlyphKey {
    GlyphKey { font_id: 0, glyph_index: n, pixel_size: 32, subpixel_bucket: 0 }
}

fn red() -> Color {
    Color::new(255, 0, 0, 255)
}

/// A stub rasterizer that counts its invocations and renders every glyph as
/// a fixed-size grayscale box.
struct CountingRasterizer {
    calls: usize,
    width: u32,
    height: u32,
}

impl Rasterizer for CountingRasterizer {
    fn rasterize(&mut self, _key: GlyphKey) -> Option<RasterizedGlyph> {
        self.calls += 1;
        Some(RasterizedGlyph {
            format: GlyphFormat::Grayscale,
            width: self.width,
            height: self.height,
            left: 1,
            top: self.height as i32,
            bytes: vec![128; (self.width * self.height) as usize],
        })
    }
}

/// A rasterizer that reports no visible outline for every glyph.
struct WhitespaceRasterizer;

impl Rasterizer for WhitespaceRasterizer {
    fn rasterize(&mut self, _key: GlyphKey) -> Option<RasterizedGlyph> {
        None
    }
}

/// A rasterizer that hands back a bitmap whose byte count does not match its
/// claimed dimensions.
struct MalformedRasterizer;

impl Rasterizer for MalformedRasterizer {
    fn rasterize(&mut self, _key: GlyphKey) -> Option<RasterizedGlyph> {
        Some(RasterizedGlyph {
            format: GlyphFormat::Grayscale,
            width: 10,
            height: 10,
            left: 0,
            top: 10,
            bytes: vec![1, 2, 3],
        })
    }
}

/// A rasterizer producing color (straight-alpha RGBA) bitmaps.
struct ColorRasterizer;

impl Rasterizer for ColorRasterizer {
    fn rasterize(&mut self, _key: GlyphKey) -> Option<RasterizedGlyph> {
        Some(RasterizedGlyph {
            format: GlyphFormat::Color,
            width: 1,
            height: 1,
            left: 0,
            top: 1,
            bytes: vec![200, 100, 50, 128],
        })
    }
}

#[test]
fn cache_hit_does_not_rerasterize() {
    // Resolving the same key twice within a frame yields the same entry and
    // the same atlas allocation, and invokes the rasterizer only once.
    let mut ts = TextSystem::new(800, 600);
    let mut r = CountingRasterizer { calls: 0, width: 10, height: 12 };
    let first = ts.get_or_create(&mut r, key(1));
    let second = ts.get_or_create(&mut r, key(1));
    assert_eq!(r.calls, 1);
    let e1 = match first {
        GlyphResolution::Ready(e) => e,
        other => panic!("expected an entry, got {:?}", other),
    };
    let e2 = match second {
        GlyphResolution::Ready(e) => e,
        other => panic!("expected an entry, got {:?}", other),
    };
    assert_eq!(e1, e2);
    assert_eq!(e1.alloc, e2.alloc);
}

#[test]
fn whitespace_yields_nothing_to_draw() {
    let mut ts = TextSystem::new(800, 600);
    let mut r = WhitespaceRasterizer;
    assert_eq!(ts.get_or_create(&mut r, key(7)), GlyphResolution::NothingToDraw);
    assert_eq!(ts.cached_glyph_count(), 0);
}

#[test]
fn malformed_bitmaps_are_skipped_not_fatal() {
    let mut ts = TextSystem::new(800, 600);
    let mut r = MalformedRasterizer;
    assert_eq!(ts.get_or_create(&mut r, key(7)), GlyphResolution::NothingToDraw);
    let glyphs = vec![ShapedGlyph { key: key(7), x: 0, y: 0, color: red() }];
    assert!(ts.add_text_block(&mut r, 0, 0, &glyphs).is_ok());
    assert_eq!(ts.vertex_count(), 0);
}

#[test]
fn end_to_end_single_character_block() {
    // Composing a one-glyph block at Start(0), Start(0) on an empty cache:
    // one rasterization, one allocation, six vertices with texel UVs inside
    // the atlas and matching the allocation's padded rectangle.
    let mut ts = TextSystem::new(800, 600);
    let mut r = CountingRasterizer { calls: 0, width: 10, height: 12 };
    let alignment = TextAlignment::new(AxisAlign::Start(0), AxisAlign::Start(0));
    let (ox, oy) = alignment.resolve_origin(10, 12, 800, 600);
    assert_eq!((ox, oy), (0, 0));

    let glyphs = vec![ShapedGlyph { key: key(65), x: 0, y: 12, color: red() }];
    ts.add_text_block(&mut r, ox, oy, &glyphs).unwrap();
    assert_eq!(r.calls, 1);
    assert_eq!(ts.cached_glyph_count(), 1);

    let writes = ts.take_texture_writes();
    assert_eq!(writes.len(), 1);
    assert_eq!((writes[0].x, writes[0].y), (2, 2));
    assert_eq!((writes[0].width, writes[0].height), (10, 12));
    // Exactly the coverage mask expanded to premultiplied white.
    assert_eq!(writes[0].bytes, vec![128u8; 4 * 10 * 12]);

    let (aw, ah) = ts.atlas_dimensions();
    let batch = ts.paint().unwrap();
    assert_eq!(batch.len(), 6);
    for v in &batch {
        // Normalized UV lies in [0,1] x [0,1].
        let u = v.u as f32 / aw as f32;
        let w = v.v as f32 / ah as f32;
        assert!((0.0..=1.0).contains(&u));
        assert!((0.0..=1.0).contains(&w));
        // And inside the allocation's texel rectangle.
        assert!(v.u == 2 || v.u == 12);
        assert!(v.v == 2 || v.v == 14);
        // Grayscale glyphs take the span color.
        assert_eq!(v.color, red());
    }
    // Quad corners: origin plus pen position and bearings, y growing down.
    assert_eq!(batch[0], GlyphVertex { x: 1, y: 0, u: 2, v: 2, color: red() });
    assert_eq!(batch[4], GlyphVertex { x: 11, y: 12, u: 12, v: 14, color: red() });
}

#[test]
fn frame_isolation_after_paint() {
    // After paint() the vertex batch and the in-use set are empty, even
    // when composition ran out of atlas space.
    let mut ts = TextSystem::new(800, 600);
    // One glyph covering the whole atlas.
    let mut big = CountingRasterizer { calls: 0, width: 4092, height: 4092 };
    let glyphs = vec![
        ShapedGlyph { key: key(1), x: 0, y: 0, color: red() },
        ShapedGlyph { key: key(2), x: 10, y: 0, color: red() },
    ];
    // The second glyph cannot fit while the first is protected.
    let r = ts.add_text_block(&mut big, 0, 0, &glyphs);
    assert_eq!(r, Err(RasterizationError::NoTextureSpace));
    // The first glyph was still composited (partial render).
    assert_eq!(ts.vertex_count(), 6);
    assert_eq!(ts.glyphs_in_use(), 1);

    let batch = ts.paint().unwrap();
    assert_eq!(batch.len(), 6);
    assert_eq!(ts.vertex_count(), 0);
    assert_eq!(ts.glyphs_in_use(), 0);
    // A second paint has nothing left over.
    assert_eq!(ts.paint().unwrap().len(), 0);
}

#[test]
fn eviction_protection_spans_the_whole_frame() {
    // With the atlas full of this frame's glyphs, new glyphs are refused
    // until the frame ends; afterwards the space is reclaimed.
    let mut ts = TextSystem::new(800, 600);
    let mut big = CountingRasterizer { calls: 0, width: 4092, height: 4092 };
    let first = vec![ShapedGlyph { key: key(1), x: 0, y: 0, color: red() }];
    ts.add_text_block(&mut big, 0, 0, &first).unwrap();
    let second = vec![ShapedGlyph { key: key(2), x: 0, y: 0, color: red() }];
    assert_eq!(
        ts.add_text_block(&mut big, 0, 0, &second),
        Err(RasterizationError::NoTextureSpace),
    );
    assert_eq!(ts.paint().unwrap().len(), 6);
    // Next frame: key(1) is no longer protected and can be evicted.
    ts.add_text_block(&mut big, 0, 0, &second).unwrap();
    assert_eq!(ts.paint().unwrap().len(), 6);
}

#[test]
fn color_glyphs_are_tinted_opaque_white() {
    let mut ts = TextSystem::new(800, 600);
    let mut r = ColorRasterizer;
    let glyphs = vec![ShapedGlyph { key: key(9), x: 0, y: 1, color: red() }];
    ts.add_text_block(&mut r, 0, 0, &glyphs).unwrap();
    // The queued write holds the premultiplied pixel.
    let writes = ts.take_texture_writes();
    assert_eq!(writes[0].bytes, vec![100, 50, 25, 128]);
    // The vertices ignore the span color: emoji are not recolored.
    let batch = ts.paint().unwrap();
    assert_eq!(batch.len(), 6);
    for v in &batch {
        assert_eq!(v.color, Color::new(255, 255, 255, 255));
    }
}

#[test]
fn oversized_batch_is_a_loud_configuration_error() {
    let mut ts = TextSystem::new(800, 600);
    let mut r = CountingRasterizer { calls: 0, width: 2, height: 2 };
    // One glyph rasterized once, then composited many times over capacity.
    let n = MAX_VERTEX_COUNT / 6 + 1;
    let mut glyphs = Vec::new();
    for _ in 0..n {
        glyphs.push(ShapedGlyph { key: key(1), x: 0, y: 0, color: red() });
    }
    ts.add_text_block(&mut r, 0, 0, &glyphs).unwrap();
    assert_eq!(r.calls, 1);
    assert_eq!(ts.vertex_count(), MAX_VERTEX_COUNT + 6);
    assert_eq!(ts.paint(), Err(PaintError::BatchTooLarge));
    // The frame state is still cleared.
    assert_eq!(ts.vertex_count(), 0);
    assert_eq!(ts.glyphs_in_use(), 0);
}

#[test]
fn insert_rasterized_classifies_bitmaps_exactly() {
    let mut ts = TextSystem::new(800, 600);
    // A byte count that does not match the claimed dimensions: skipped,
    // nothing changes.
    let bad = RasterizedGlyph {
        format: GlyphFormat::Grayscale,
        width: 3,
        height: 3,
        left: 0,
        top: 3,
        bytes: vec![1, 2],
    };
    assert_eq!(ts.insert_rasterized(key(1), &bad), GlyphResolution::NothingToDraw);
    assert_eq!(ts.cached_glyph_count(), 0);
    assert_eq!(ts.take_texture_writes().len(), 0);
    // Zero extent: skipped.
    let zero = RasterizedGlyph {
        format: GlyphFormat::Color,
        width: 0,
        height: 4,
        left: 0,
        top: 0,
        bytes: Vec::new(),
    };
    assert_eq!(ts.insert_rasterized(key(1), &zero), GlyphResolution::NothingToDraw);
    // A well-formed mask is inserted and its write holds exactly the
    // normalized bytes.
    let good = RasterizedGlyph {
        format: GlyphFormat::Grayscale,
        width: 2,
        height: 1,
        left: 0,
        top: 1,
        bytes: vec![9, 7],
    };
    assert!(matches!(ts.insert_rasterized(key(1), &good), GlyphResolution::Ready(_)));
    let writes = ts.take_texture_writes();
    assert_eq!(writes[0].bytes, vec![9, 9, 9, 9, 7, 7, 7, 7]);
}

#[test]
fn resident_blocks_always_composite_fully() {
    // Once every glyph of a block is resident, re-compositing it cannot
    // fail, touches the rasterizer and the texture queue not at all, and
    // appends exactly six vertices per glyph.
    let mut ts = TextSystem::new(800, 600);
    let mut r = CountingRasterizer { calls: 0, width: 3, height: 5 };
    let glyphs = vec![
        ShapedGlyph { key: key(1), x: 0, y: 5, color: red() },
        ShapedGlyph { key: key(2), x: 4, y: 5, color: red() },
    ];
    ts.add_text_block(&mut r, 0, 0, &glyphs).unwrap();
    assert_eq!(r.calls, 2);
    let _ = ts.take_texture_writes();

    ts.add_text_block(&mut r, 10, 10, &glyphs).unwrap();
    assert_eq!(r.calls, 2);
    assert_eq!(ts.vertex_count(), 24);
    assert_eq!(ts.take_texture_writes().len(), 0);
}

#[test]
fn resize_only_changes_the_screen_size() {
    let mut ts = TextSystem::new(800, 600);
    assert_eq!(ts.screen_dimensions(), (800, 600));
    let mut r = CountingRasterizer { calls: 0, width: 4, height: 4 };
    let glyphs = vec![ShapedGlyph { key: key(1), x: 0, y: 4, color: red() }];
    ts.add_text_block(&mut r, 0, 0, &glyphs).unwrap();
    ts.resize(1920, 1080);
    assert_eq!(ts.screen_dimensions(), (1920, 1080));
    assert_eq!(ts.cached_glyph_count(), 1);
    assert_eq!(ts.vertex_count(), 6);
}
