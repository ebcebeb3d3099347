//! The text compositor and frame painter: resolves shaped glyphs through the
//! glyph cache (rasterizing on miss), appends two triangles per glyph to a
//! per-frame vertex batch, and hands the batch and the queued atlas texture
//! writes to the caller once per frame.
//!
//! Screen positions are pixels with y growing downward. Vertex texture
//! coordinates are texels; dividing by the atlas extents yields normalized
//! UV in [0, 1]. Cache exhaustion mid-block stops composition of the block's
//! remaining glyphs; what was composited is still painted.

use vstd::prelude::*;
use crate::cache::{
    CacheSlot, GlyphCache, GlyphCacheEntry, GlyphMetrics, entry_wf, lemma_lookup_preserves_entries,
    lemma_lookup_preserves_keys, lookup_post, model_insert,
};
use crate::color::Color;
use crate::font::GlyphKey;
use crate::raster::{
    GlyphFormat, RasterizationError, Rasterizer, RasterizedGlyph, normalize, normalized, raster_wf,
};

verus! {

/// Atlas texture width, in texels.
pub const BITMAP_WIDTH: u32 = 4096;

/// Atlas texture height, in texels.
pub const BITMAP_HEIGHT: u32 = 4096;

/// The most glyphs one frame's batch may hold.
pub const MAX_GLYPH_COUNT: usize = 40000;

/// The vertex capacity of the frame batch: six vertices per glyph. A batch
/// beyond this is a configuration error reported by `paint`, never a silent
/// truncation.
pub const MAX_VERTEX_COUNT: usize = 6 * MAX_GLYPH_COUNT;

/// Block origins must stay in this range so that vertex coordinates cannot
/// overflow; it covers everything the block layout resolver can produce.
pub const MAX_BLOCK_ORIGIN: i64 = 0x2_0000_0000;

/// One glyph as the shaper placed it: its cache key, the pen position in
/// pixels relative to the block origin, and the span's color.
#[derive(Debug, Clone, Copy, PartialEq, Eq, Structural)]
pub struct ShapedGlyph {
    pub key: GlyphKey,
    pub x: i32,
    pub y: i32,
    pub color: Color,
}

/// One vertex of a glyph quad: pixel position, texel UV, straight-alpha tint.
#[derive(Debug, Clone, Copy, PartialEq, Eq, Structural)]
pub struct GlyphVertex {
    pub x: i64,
    pub y: i64,
    pub u: u32,
    pub v: u32,
    pub color: Color,
}

/// A pending pixel upload into the atlas texture: RGBA8 premultiplied bytes
/// for the `width` by `height` texel rectangle at `(x, y)`.
#[derive(Debug)]
pub struct TextureWrite {
    pub x: u32,
    pub y: u32,
    pub width: u32,
    pub height: u32,
    pub bytes: Vec<u8>,
}

/// The outcome of resolving one glyph.
#[derive(Debug, Clone, Copy, PartialEq, Eq, Structural)]
pub enum GlyphResolution {
    /// The glyph is resident; composite it from this entry.
    Ready(GlyphCacheEntry),
    /// Whitespace, an empty outline, or a malformed bitmap: skip the glyph.
    NothingToDraw,
    /// Every resident glyph is needed this frame and the atlas is full.
    OutOfSpace,
}

/// The painter's configuration error: the batch outgrew the vertex capacity.
#[derive(Debug, Clone, Copy, PartialEq, Eq, Structural)]
pub enum PaintError {
    BatchTooLarge,
}

/// The tint a glyph is composited with: grayscale masks take the span color;
/// color glyphs are forced to opaque white so emoji are not recolored.
pub open spec fn glyph_tint(g: ShapedGlyph, e: GlyphCacheEntry) -> Color {
    if e.format == GlyphFormat::Color {
        Color::white_spec()
    } else {
        g.color
    }
}

/// The six vertices (two triangles) of one glyph quad. The quad's top-left
/// corner is the block origin plus the pen position, moved right by the left
/// bearing and up by the top bearing; its size is the glyph's pixel size, and
/// its texel rectangle is the entry's.
pub open spec fn glyph_quad(g: ShapedGlyph, e: GlyphCacheEntry, ox: i64, oy: i64) -> Seq<
    GlyphVertex,
> {
    let x0 = (ox + g.x + e.metrics.left) as i64;
    let y0 = (oy + g.y - e.metrics.top) as i64;
    let x1 = (x0 + e.metrics.width) as i64;
    let y1 = (y0 + e.metrics.height) as i64;
    let u0 = e.tex_x;
    let v0 = e.tex_y;
    let u1 = (e.tex_x + e.tex_width) as u32;
    let v1 = (e.tex_y + e.tex_height) as u32;
    let c = glyph_tint(g, e);
    seq![
        GlyphVertex { x: x0, y: y0, u: u0, v: v0, color: c },
        GlyphVertex { x: x1, y: y0, u: u1, v: v0, color: c },
        GlyphVertex { x: x0, y: y1, u: u0, v: v1, color: c },
        GlyphVertex { x: x1, y: y0, u: u1, v: v0, color: c },
        GlyphVertex { x: x1, y: y1, u: u1, v: v1, color: c },
        GlyphVertex { x: x0, y: y1, u: u0, v: v1, color: c },
    ]
}

/// The vertices a run of glyphs composites against a cache state: each
/// glyph's quad from the entry resident under its key, in shaping order.
pub open spec fn block_quads(c: GlyphCache, glyphs: Seq<ShapedGlyph>, ox: i64, oy: i64) -> Seq<
    GlyphVertex,
>
    decreases glyphs.len(),
{
    if glyphs.len() == 0 {
        Seq::empty()
    } else {
        block_quads(c, glyphs.drop_last(), ox, oy) + glyph_quad(
            glyphs.last(),
            c.entry_of(glyphs.last().key),
            ox,
            oy,
        )
    }
}

pub proof fn lemma_block_quads_len(c: GlyphCache, glyphs: Seq<ShapedGlyph>, ox: i64, oy: i64)
    ensures
        block_quads(c, glyphs, ox, oy).len() == 6 * glyphs.len(),
    decreases glyphs.len(),
{
    if glyphs.len() > 0 {
        lemma_block_quads_len(c, glyphs.drop_last(), ox, oy);
    }
}

/// Queued texture writes carry exactly their rectangle's RGBA8 bytes.
pub open spec fn writes_wf(ws: Seq<TextureWrite>) -> bool {
    forall|i: int|
        0 <= i < ws.len() ==> (#[trigger] ws[i]).bytes@.len() == 4 * ws[i].width * ws[i].height
}

/// The glyph cache, vertex batch, queued texture writes and projection state
/// for one render surface. Owned exclusively by the surface's render loop;
/// composition and painting run synchronously within one frame.
pub struct TextSystem {
    cache: GlyphCache,
    batch: Vec<GlyphVertex>,
    writes: Vec<TextureWrite>,
    screen_width: u32,
    screen_height: u32,
}

impl TextSystem {
    /// The glyph cache's state.
    pub closed spec fn spec_cache(self) -> GlyphCache {
        self.cache
    }

    /// The frame's vertex batch so far.
    pub closed spec fn batch_seq(self) -> Seq<GlyphVertex> {
        self.batch@
    }

    /// The queued atlas texture writes, oldest first.
    pub closed spec fn writes_seq(self) -> Seq<TextureWrite> {
        self.writes@
    }

    pub closed spec fn spec_screen_width(self) -> u32 {
        self.screen_width
    }

    pub closed spec fn spec_screen_height(self) -> u32 {
        self.screen_height
    }

    pub open spec fn inv(self) -> bool {
        self.spec_cache().inv() && writes_wf(self.writes_seq())
    }

    /// A fresh text system over an empty atlas, for a screen of the given
    /// pixel size.
    pub fn new(screen_width: u32, screen_height: u32) -> (t: TextSystem)
        ensures
            t.inv(),
            t.spec_screen_width() == screen_width,
            t.spec_screen_height() == screen_height,
            t.spec_cache().atlas_width() == BITMAP_WIDTH,
            t.spec_cache().atlas_height() == BITMAP_HEIGHT,
            t.spec_cache().slots_seq() == Seq::<CacheSlot>::empty(),
            t.spec_cache().in_use_seq() == Seq::<GlyphKey>::empty(),
            t.batch_seq() == Seq::<GlyphVertex>::empty(),
            t.writes_seq() == Seq::<TextureWrite>::empty(),
    {
        TextSystem {
            cache: GlyphCache::new(BITMAP_WIDTH, BITMAP_HEIGHT),
            batch: Vec::new(),
            writes: Vec::new(),
            screen_width,
            screen_height,
        }
    }

    /// Record the new screen size; the projection the painter derives from it
    /// is recomputed only here, not per frame.
    pub fn resize(&mut self, screen_width: u32, screen_height: u32)
        ensures
            final(self).spec_screen_width() == screen_width,
            final(self).spec_screen_height() == screen_height,
            final(self).spec_cache() == old(self).spec_cache(),
            final(self).batch_seq() == old(self).batch_seq(),
            final(self).writes_seq() == old(self).writes_seq(),
            final(self).inv() == old(self).inv(),
    {
        self.screen_width = screen_width;
        self.screen_height = screen_height;
    }

    /// Screen size in pixels.
    pub fn screen_dimensions(&self) -> (d: (u32, u32))
        ensures
            d.0 == self.spec_screen_width(),
            d.1 == self.spec_screen_height(),
    {
        (self.screen_width, self.screen_height)
    }

    /// Atlas texture size in texels; vertex texel UVs normalize by these.
    pub fn atlas_dimensions(&self) -> (d: (u32, u32))
        ensures
            d.0 == self.spec_cache().atlas_width(),
            d.1 == self.spec_cache().atlas_height(),
    {
        self.cache.atlas_size()
    }

    /// Number of vertices in the frame batch so far.
    pub fn vertex_count(&self) -> (n: usize)
        ensures
            n == self.batch_seq().len(),
    {
        self.batch.len()
    }

    /// Number of resident glyphs.
    pub fn cached_glyph_count(&self) -> (n: usize)
        ensures
            n == self.spec_cache().slots_seq().len(),
    {
        self.cache.len()
    }

    /// Number of glyphs marked as in use this frame.
    pub fn glyphs_in_use(&self) -> (n: usize)
        ensures
            n == self.spec_cache().in_use_seq().len(),
    {
        self.cache.in_use_len()
    }

    /// Normalize and insert one rasterized bitmap under a non-resident key:
    /// the exact half of rasterization dispatch, once the external rasterizer
    /// has answered. A malformed bitmap — zero extent, or a byte count that
    /// does not match its format and dimensions — renders nothing and changes
    /// nothing. A well-formed one is normalized to premultiplied RGBA8, atlas
    /// space is allocated (evicting unprotected entries as the cache model
    /// says), and the pixel upload is queued with exactly the normalized
    /// bytes.
    pub fn insert_rasterized(&mut self, key: GlyphKey, rg: &RasterizedGlyph) -> (r:
        GlyphResolution)
        requires
            old(self).inv(),
            !old(self).spec_cache().contains_key(key),
        ensures
            final(self).inv(),
            final(self).spec_screen_width() == old(self).spec_screen_width(),
            final(self).spec_screen_height() == old(self).spec_screen_height(),
            final(self).spec_cache().atlas_width() == old(self).spec_cache().atlas_width(),
            final(self).spec_cache().atlas_height() == old(self).spec_cache().atlas_height(),
            final(self).batch_seq() == old(self).batch_seq(),
            !raster_wf(*rg) ==> r == GlyphResolution::NothingToDraw && *final(self) == *old(
                self,
            ),
            raster_wf(*rg) ==> ({
                let mi = model_insert(
                    old(self).spec_cache().slots_seq(),
                    old(self).spec_cache().in_use_seq(),
                    old(self).spec_cache().spec_allocator().free_seq(),
                    rg.width,
                    rg.height,
                );
                match r {
                    GlyphResolution::Ready(e) => {
                        &&& mi.2 == Some(e.alloc.rect)
                        &&& entry_wf(e)
                        &&& e.format == rg.format
                        &&& e.metrics == (GlyphMetrics {
                            width: rg.width,
                            height: rg.height,
                            left: rg.left,
                            top: rg.top,
                        })
                        &&& final(self).spec_cache().slots_seq() == mi.0.push(
                            CacheSlot { key, entry: e },
                        )
                        &&& final(self).spec_cache().in_use_seq() == old(
                            self,
                        ).spec_cache().in_use_seq().push(key)
                        &&& final(self).spec_cache().spec_allocator().free_seq() == mi.1
                        &&& final(self).writes_seq().len() == old(self).writes_seq().len() + 1
                        &&& final(self).writes_seq().subrange(
                            0,
                            old(self).writes_seq().len() as int,
                        ) == old(self).writes_seq()
                        &&& ({
                            let w = final(self).writes_seq().last();
                            &&& w.x == e.tex_x
                            &&& w.y == e.tex_y
                            &&& w.width == rg.width
                            &&& w.height == rg.height
                            &&& w.bytes@ == normalized(rg.format, rg.bytes@)
                        })
                    },
                    GlyphResolution::NothingToDraw => false,
                    GlyphResolution::OutOfSpace => {
                        &&& mi.2 is None
                        &&& final(self).spec_cache().slots_seq() == mi.0
                        &&& final(self).spec_cache().in_use_seq() == old(
                            self,
                        ).spec_cache().in_use_seq()
                        &&& final(self).spec_cache().spec_allocator().free_seq() == mi.1
                        &&& final(self).writes_seq() == old(self).writes_seq()
                        &&& ({
                            let c = final(self).spec_cache();
                            forall|j: int|
                                0 <= j < c.slots_seq().len() ==> c.in_use_seq().contains(
                                    (#[trigger] c.slots_seq()[j]).key,
                                )
                        })
                    },
                }
            }),
    {
        if rg.width == 0 || rg.height == 0 {
            // Whitespace or an empty outline: nothing to pack.
            return GlyphResolution::NothingToDraw;
        }
        proof {
            assert((rg.width as int) * (rg.height as int) <= 0xffffffff * 0xffffffff)
                by (nonlinear_arith)
                requires
                    rg.width <= u32::MAX,
                    rg.height <= u32::MAX,
            ;
        }
        let texels: u128 = rg.width as u128 * rg.height as u128;
        let expected: u128 = match rg.format {
            GlyphFormat::Grayscale => texels,
            GlyphFormat::Color => 4 * texels,
        };
        if rg.bytes.len() as u128 != expected {
            // A malformed bitmap must not blank the frame: skip it.
            return GlyphResolution::NothingToDraw;
        }
        let rgba = normalize(rg.format, &rg.bytes);
        let metrics = GlyphMetrics { width: rg.width, height: rg.height, left: rg.left, top: rg.top };
        let ghost pre_writes = self.writes@;
        match self.cache.insert(key, rg.format, metrics) {
            Ok(entry) => {
                proof {
                    let w = metrics.width as int;
                    let h = metrics.height as int;
                    assert(4 * w * h == 4 * (w * h)) by (nonlinear_arith);
                    match rg.format {
                        GlyphFormat::Grayscale => {
                            assert(rg.bytes@.len() == w * h);
                            assert(rgba@.len() == 4 * rg.bytes@.len());
                        },
                        GlyphFormat::Color => {
                            assert(rg.bytes@.len() == 4 * (w * h));
                            assert(rgba@.len() == rg.bytes@.len());
                        },
                    }
                    assert(rgba@.len() == 4 * w * h);
                }
                self.writes.push(
                    TextureWrite {
                        x: entry.tex_x,
                        y: entry.tex_y,
                        width: entry.metrics.width,
                        height: entry.metrics.height,
                        bytes: rgba,
                    },
                );
                proof {
                    assert(self.writes@.subrange(0, pre_writes.len() as int) =~= pre_writes);
                    assert forall|i: int| 0 <= i < self.writes@.len() implies (
                    #[trigger] self.writes@[i]).bytes@.len() == 4 * self.writes@[i].width
                        * self.writes@[i].height by {
                        if i < pre_writes.len() {
                            assert(self.writes@[i] == pre_writes[i]);
                            assert(writes_wf(pre_writes));
                        }
                    }
                }
                GlyphResolution::Ready(entry)
            },
            Err(_) => {
                proof {
                    // The refusal is genuine exhaustion: everything still
                    // resident is needed this frame.
                    crate::cache::lemma_exhausted_all_protected(
                        old(self).spec_cache().slots_seq(),
                        old(self).spec_cache().in_use_seq(),
                        old(self).spec_cache().spec_allocator().free_seq(),
                        metrics.width,
                        metrics.height,
                    );
                }
                GlyphResolution::OutOfSpace
            },
        }
    }

    /// Resolve a glyph key to a resident cache entry. A hit bumps recency and
    /// protects the key; it invokes neither the rasterizer nor the allocator,
    /// and leaves the rasterizer untouched. A miss rasterizes and hands the
    /// result to [`TextSystem::insert_rasterized`]: no visible outline or a
    /// malformed bitmap yields `NothingToDraw`; otherwise the bitmap is
    /// normalized to premultiplied RGBA8, space is allocated (evicting
    /// unprotected entries as needed), the pixel upload is queued, and the
    /// new entry is returned. `OutOfSpace` reports that even after evicting
    /// everything evictable the glyph did not fit.
    pub fn get_or_create<R: Rasterizer>(&mut self, rasterizer: &mut R, key: GlyphKey) -> (r:
        GlyphResolution)
        requires
            old(self).inv(),
        ensures
            final(self).inv(),
            final(self).spec_screen_width() == old(self).spec_screen_width(),
            final(self).spec_screen_height() == old(self).spec_screen_height(),
            final(self).spec_cache().atlas_width() == old(self).spec_cache().atlas_width(),
            final(self).spec_cache().atlas_height() == old(self).spec_cache().atlas_height(),
            final(self).batch_seq() == old(self).batch_seq(),
            r matches GlyphResolution::Ready(e) ==> final(self).spec_cache().slots_seq().len() > 0
                && final(self).spec_cache().slots_seq().last() == (CacheSlot { key, entry: e }),
            old(self).spec_cache().contains_key(key) ==> final(self).writes_seq() == old(
                self,
            ).writes_seq() && *final(rasterizer) == *old(rasterizer) && (exists|
                e: GlyphCacheEntry,
            |
                r == GlyphResolution::Ready(e) && lookup_post(
                    old(self).spec_cache(),
                    final(self).spec_cache(),
                    key,
                    Some(e),
                )),
            !old(self).spec_cache().contains_key(key) ==> match r {
                GlyphResolution::Ready(e) => {
                    &&& final(self).spec_cache().in_use_seq() == old(
                        self,
                    ).spec_cache().in_use_seq().push(key)
                    &&& final(self).writes_seq().len() == old(self).writes_seq().len() + 1
                    &&& final(self).writes_seq().subrange(0, old(self).writes_seq().len() as int)
                        == old(self).writes_seq()
                    &&& ({
                        let w = final(self).writes_seq().last();
                        &&& w.x == e.tex_x
                        &&& w.y == e.tex_y
                        &&& w.width == e.metrics.width
                        &&& w.height == e.metrics.height
                    })
                    // The queued bytes are the normalization of some
                    // well-formed bitmap with this entry's metrics.
                    &&& exists|src: RasterizedGlyph|
                        #![trigger normalized(src.format, src.bytes@)]
                        raster_wf(src) && src.format == e.format && src.width == e.metrics.width
                            && src.height == e.metrics.height && src.left == e.metrics.left
                            && src.top == e.metrics.top && final(self).writes_seq().last().bytes@
                            == normalized(src.format, src.bytes@)
                    &&& e.metrics.width >= 1
                    &&& e.metrics.height >= 1
                    &&& ({
                        let mi = model_insert(
                            old(self).spec_cache().slots_seq(),
                            old(self).spec_cache().in_use_seq(),
                            old(self).spec_cache().spec_allocator().free_seq(),
                            e.metrics.width,
                            e.metrics.height,
                        );
                        &&& mi.2 == Some(e.alloc.rect)
                        &&& final(self).spec_cache().slots_seq() == mi.0.push(
                            CacheSlot { key, entry: e },
                        )
                        &&& final(self).spec_cache().spec_allocator().free_seq() == mi.1
                    })
                },
                GlyphResolution::NothingToDraw => *final(self) == *old(self),
                GlyphResolution::OutOfSpace => {
                    &&& final(self).writes_seq() == old(self).writes_seq()
                    &&& final(self).spec_cache().in_use_seq() == old(
                        self,
                    ).spec_cache().in_use_seq()
                    &&& ({
                        let c = final(self).spec_cache();
                        forall|j: int|
                            0 <= j < c.slots_seq().len() ==> c.in_use_seq().contains(
                                (#[trigger] c.slots_seq()[j]).key,
                            )
                    })
                    &&& exists|w: u32, h: u32|
                        #![trigger model_insert(
                            old(self).spec_cache().slots_seq(),
                            old(self).spec_cache().in_use_seq(),
                            old(self).spec_cache().spec_allocator().free_seq(),
                            w,
                            h,
                        )]
                        w >= 1 && h >= 1 && ({
                            let mi = model_insert(
                                old(self).spec_cache().slots_seq(),
                                old(self).spec_cache().in_use_seq(),
                                old(self).spec_cache().spec_allocator().free_seq(),
                                w,
                                h,
                            );
                            &&& mi.2 is None
                            &&& final(self).spec_cache().slots_seq() == mi.0
                            &&& final(self).spec_cache().spec_allocator().free_seq() == mi.1
                        })
                },
            },
    {
        if let Some(entry) = self.cache.lookup(key) {
            return GlyphResolution::Ready(entry);
        }

        match rasterizer.rasterize(key) {
            None => GlyphResolution::NothingToDraw,
            Some(rg) => {
                let resolution = self.insert_rasterized(key, &rg);
                proof {
                    if resolution matches GlyphResolution::Ready(e) {
                        // The rasterizer's own bitmap witnesses the queued
                        // bytes' provenance.
                        assert(raster_wf(rg));
                        assert(self.writes_seq().last().bytes@ == normalized(
                            rg.format,
                            rg.bytes@,
                        ));
                    }
                }
                resolution
            },
        }
    }

    /// Append one glyph's quad — two triangles, six vertices — to the batch,
    /// converting the entry's atlas rectangle to texture coordinates.
    pub fn push_glyph_quad(
        &mut self,
        g: &ShapedGlyph,
        e: GlyphCacheEntry,
        origin_x: i64,
        origin_y: i64,
    )
        requires
            old(self).inv(),
            exists|i: int|
                0 <= i < old(self).spec_cache().slots_seq().len() && (#[trigger] old(
                    self,
                ).spec_cache().slots_seq()[i]).entry == e,
            -MAX_BLOCK_ORIGIN <= origin_x <= MAX_BLOCK_ORIGIN,
            -MAX_BLOCK_ORIGIN <= origin_y <= MAX_BLOCK_ORIGIN,
        ensures
            final(self).inv(),
            final(self).spec_cache() == old(self).spec_cache(),
            final(self).writes_seq() == old(self).writes_seq(),
            final(self).spec_screen_width() == old(self).spec_screen_width(),
            final(self).spec_screen_height() == old(self).spec_screen_height(),
            final(self).batch_seq() == old(self).batch_seq() + glyph_quad(
                *g,
                e,
                origin_x,
                origin_y,
            ),
    {
        proof {
            let i = choose|i: int|
                0 <= i < self.spec_cache().slots_seq().len() && (
                #[trigger] self.spec_cache().slots_seq()[i]).entry == e;
            self.spec_cache().lemma_entry_in_atlas(i);
        }
        let x0 = origin_x + g.x as i64 + e.metrics.left as i64;
        let y0 = origin_y + g.y as i64 - e.metrics.top as i64;
        let x1 = x0 + e.metrics.width as i64;
        let y1 = y0 + e.metrics.height as i64;
        let u0 = e.tex_x;
        let v0 = e.tex_y;
        let u1 = e.tex_x + e.tex_width;
        let v1 = e.tex_y + e.tex_height;
        let color = if e.format == GlyphFormat::Color {
            Color::white()
        } else {
            g.color
        };
        let ghost pre_batch = self.batch@;
        self.batch.push(GlyphVertex { x: x0, y: y0, u: u0, v: v0, color });
        self.batch.push(GlyphVertex { x: x1, y: y0, u: u1, v: v0, color });
        self.batch.push(GlyphVertex { x: x0, y: y1, u: u0, v: v1, color });
        self.batch.push(GlyphVertex { x: x1, y: y0, u: u1, v: v0, color });
        self.batch.push(GlyphVertex { x: x1, y: y1, u: u1, v: v1, color });
        self.batch.push(GlyphVertex { x: x0, y: y1, u: u0, v: v1, color });
        proof {
            assert(self.batch@ =~= pre_batch + glyph_quad(*g, e, origin_x, origin_y));
        }
    }

    /// Composite one shaped text block at a resolved origin. Each glyph is
    /// resolved through the cache (rasterizing on miss) and its quad appended
    /// to the batch; glyphs with nothing to draw are skipped. On cache
    /// exhaustion the block's remaining glyphs are dropped and
    /// `NoTextureSpace` is returned; the vertices composited so far remain in
    /// the batch and are still painted. The batch only ever grows, six
    /// vertices per composited glyph.
    pub fn add_text_block<R: Rasterizer>(
        &mut self,
        rasterizer: &mut R,
        origin_x: i64,
        origin_y: i64,
        glyphs: &Vec<ShapedGlyph>,
    ) -> (r: Result<(), RasterizationError>)
        requires
            old(self).inv(),
            -MAX_BLOCK_ORIGIN <= origin_x <= MAX_BLOCK_ORIGIN,
            -MAX_BLOCK_ORIGIN <= origin_y <= MAX_BLOCK_ORIGIN,
        ensures
            final(self).inv(),
            final(self).spec_screen_width() == old(self).spec_screen_width(),
            final(self).spec_screen_height() == old(self).spec_screen_height(),
            final(self).batch_seq().len() >= old(self).batch_seq().len(),
            final(self).batch_seq().subrange(0, old(self).batch_seq().len() as int) == old(
                self,
            ).batch_seq(),
            (final(self).batch_seq().len() - old(self).batch_seq().len()) % 6 == 0,
            r matches Err(err) ==> err == RasterizationError::NoTextureSpace,
            // The per-frame protection set only grows: composition never
            // unprotects a glyph; the set is cleared by `paint` alone.
            final(self).spec_cache().in_use_seq().len() >= old(
                self,
            ).spec_cache().in_use_seq().len(),
            final(self).spec_cache().in_use_seq().subrange(
                0,
                old(self).spec_cache().in_use_seq().len() as int,
            ) == old(self).spec_cache().in_use_seq(),
            // An error is genuine exhaustion — every glyph still resident is
            // needed this frame — and composition stopped: at least the
            // failing glyph contributed no vertices.
            r is Err ==> glyphs@.len() >= 1 && final(self).batch_seq().len() <= old(
                self,
            ).batch_seq().len() + 6 * (glyphs@.len() - 1) && ({
                let c = final(self).spec_cache();
                forall|j: int|
                    0 <= j < c.slots_seq().len() ==> c.in_use_seq().contains(
                        (#[trigger] c.slots_seq()[j]).key,
                    )
            }),
            // A block of resident glyphs is owed success: the rasterizer is
            // untouched, no pixel upload is queued, every key stays protected,
            // and the batch grows by exactly the glyphs' quads, in order.
            (forall|j: int|
                0 <= j < glyphs@.len() ==> old(self).spec_cache().contains_key(
                    (#[trigger] glyphs@[j]).key,
                )) ==> {
                &&& r is Ok
                &&& final(self).batch_seq() == old(self).batch_seq() + block_quads(
                    old(self).spec_cache(),
                    glyphs@,
                    origin_x,
                    origin_y,
                )
                &&& final(self).batch_seq().len() == old(self).batch_seq().len() + 6
                    * glyphs@.len()
                &&& final(self).writes_seq() == old(self).writes_seq()
                &&& forall|j: int|
                    0 <= j < glyphs@.len() ==> final(self).spec_cache().in_use_seq().contains(
                        (#[trigger] glyphs@[j]).key,
                    )
                &&& *final(rasterizer) == *old(rasterizer)
            },
    {
        let ghost orig = *old(self);
        let ghost all_hit = forall|j: int|
            0 <= j < glyphs@.len() ==> orig.spec_cache().contains_key(
                (#[trigger] glyphs@[j]).key,
            );
        let n = glyphs.len();
        let mut i: usize = 0;
        while i < n
            invariant
                orig == *old(self),
                all_hit == (forall|j: int|
                    0 <= j < glyphs@.len() ==> orig.spec_cache().contains_key(
                        (#[trigger] glyphs@[j]).key,
                    )),
                self.inv(),
                n == glyphs@.len(),
                i <= n,
                self.spec_screen_width() == orig.spec_screen_width(),
                self.spec_screen_height() == orig.spec_screen_height(),
                self.batch_seq().len() >= orig.batch_seq().len(),
                self.batch_seq().len() <= orig.batch_seq().len() + 6 * i,
                self.batch_seq().subrange(0, orig.batch_seq().len() as int) == orig.batch_seq(),
                (self.batch_seq().len() - orig.batch_seq().len()) % 6 == 0,
                self.spec_cache().in_use_seq().len() >= orig.spec_cache().in_use_seq().len(),
                self.spec_cache().in_use_seq().subrange(
                    0,
                    orig.spec_cache().in_use_seq().len() as int,
                ) == orig.spec_cache().in_use_seq(),
                -MAX_BLOCK_ORIGIN <= origin_x <= MAX_BLOCK_ORIGIN,
                -MAX_BLOCK_ORIGIN <= origin_y <= MAX_BLOCK_ORIGIN,
                all_hit ==> {
                    &&& forall|k: GlyphKey|
                        self.spec_cache().contains_key(k) <==> orig.spec_cache().contains_key(k)
                    &&& forall|k: GlyphKey|
                        orig.spec_cache().contains_key(k) ==> self.spec_cache().entry_of(k)
                            == orig.spec_cache().entry_of(k)
                    &&& self.batch_seq() == orig.batch_seq() + block_quads(
                        orig.spec_cache(),
                        glyphs@.take(i as int),
                        origin_x,
                        origin_y,
                    )
                    &&& self.writes_seq() == orig.writes_seq()
                    &&& forall|j: int|
                        0 <= j < i ==> self.spec_cache().in_use_seq().contains(
                            (#[trigger] glyphs@[j]).key,
                        )
                    &&& *rasterizer == *old(rasterizer)
                },
            decreases n - i,
        {
            let g = glyphs[i];
            let ghost mid = *self;
            let resolution = self.get_or_create(rasterizer, g.key);
            proof {
                assert(self.batch_seq().subrange(0, orig.batch_seq().len() as int)
                    == orig.batch_seq());
                // The protection set grew by at most the resolved key, so
                // its old prefix stands.
                let ui = mid.spec_cache().in_use_seq();
                let uo = self.spec_cache().in_use_seq();
                assert(uo == ui || uo == ui.push(g.key));
                assert(uo.subrange(0, orig.spec_cache().in_use_seq().len() as int)
                    =~= ui.subrange(0, orig.spec_cache().in_use_seq().len() as int));
                if all_hit {
                    // Every key is resident, so this resolution was a hit:
                    // the key set and every resident entry stand, the key is
                    // now protected, and the rasterizer was not consulted.
                    assert(mid.spec_cache().contains_key(glyphs@[i as int].key));
                    let e = choose|e: GlyphCacheEntry|
                        resolution == GlyphResolution::Ready(e) && lookup_post(
                            mid.spec_cache(),
                            self.spec_cache(),
                            g.key,
                            Some(e),
                        );
                    lemma_lookup_preserves_keys(mid.spec_cache(), self.spec_cache(), g.key, e);
                    lemma_lookup_preserves_entries(
                        mid.spec_cache(),
                        self.spec_cache(),
                        g.key,
                        e,
                    );
                    assert(e == orig.spec_cache().entry_of(g.key));
                    assert forall|k: GlyphKey|
                        orig.spec_cache().contains_key(k) implies self.spec_cache().entry_of(k)
                        == orig.spec_cache().entry_of(k) by {
                        assert(mid.spec_cache().contains_key(k));
                        assert(self.spec_cache().entry_of(k) == mid.spec_cache().entry_of(k));
                    }
                    if !ui.contains(g.key) {
                        assert(uo.last() == g.key);
                    }
                    assert(uo.contains(g.key));
                    assert forall|j: int|
                        0 <= j < i implies self.spec_cache().in_use_seq().contains(
                        (#[trigger] glyphs@[j]).key,
                    ) by {
                        let w = choose|w: int|
                            0 <= w < ui.len() && ui[w] == glyphs@[j].key;
                        assert(uo[w] == glyphs@[j].key);
                    }
                }
            }
            match resolution {
                GlyphResolution::Ready(e) => {
                    proof {
                        let s = self.spec_cache().slots_seq();
                        assert(s[s.len() - 1].entry == e);
                    }
                    let ghost before = self.batch_seq();
                    self.push_glyph_quad(&g, e, origin_x, origin_y);
                    proof {
                        assert(self.batch_seq().subrange(0, orig.batch_seq().len() as int)
                            =~= before.subrange(0, orig.batch_seq().len() as int));
                        if all_hit {
                            // One more quad extends the composited run.
                            let c = orig.spec_cache();
                            let taken = glyphs@.take(i as int + 1);
                            assert(taken.drop_last() =~= glyphs@.take(i as int));
                            assert(taken.last() == glyphs@[i as int]);
                            assert(self.batch_seq() =~= orig.batch_seq() + block_quads(
                                c,
                                taken,
                                origin_x,
                                origin_y,
                            ));
                        }
                    }
                },
                GlyphResolution::NothingToDraw => {},
                GlyphResolution::OutOfSpace => {
                    return Err(RasterizationError::NoTextureSpace);
                },
            }
            i = i + 1;
        }
        proof {
            if all_hit {
                assert(glyphs@.take(n as int) =~= glyphs@);
                lemma_block_quads_len(orig.spec_cache(), glyphs@, origin_x, origin_y);
            }
        }
        Ok(())
    }

    /// Take the texture writes queued by composition, oldest first, leaving
    /// the queue empty. The backend must apply them before the frame's draw.
    pub fn take_texture_writes(&mut self) -> (w: Vec<TextureWrite>)
        requires
            old(self).inv(),
        ensures
            final(self).inv(),
            w@ == old(self).writes_seq(),
            final(self).writes_seq() == Seq::<TextureWrite>::empty(),
            final(self).batch_seq() == old(self).batch_seq(),
            final(self).spec_cache() == old(self).spec_cache(),
            final(self).spec_screen_width() == old(self).spec_screen_width(),
            final(self).spec_screen_height() == old(self).spec_screen_height(),
    {
        let w = self.writes.split_off(0);
        proof {
            assert(self.writes@ =~= Seq::<TextureWrite>::empty());
            assert(w@ =~= old(self).writes_seq());
        }
        w
    }

    /// End the frame: hand the batch to the caller for one draw call, and
    /// clear both the batch and the per-frame eviction protection set — even
    /// when nothing was drawn or composition ran out of space, so no state
    /// leaks into the next frame. A batch over [`MAX_VERTEX_COUNT`] is a
    /// configuration error, reported instead of uploaded; the frame state is
    /// still cleared.
    pub fn paint(&mut self) -> (r: Result<Vec<GlyphVertex>, PaintError>)
        requires
            old(self).inv(),
        ensures
            final(self).inv(),
            final(self).batch_seq() == Seq::<GlyphVertex>::empty(),
            final(self).spec_cache().in_use_seq() == Seq::<GlyphKey>::empty(),
            final(self).spec_cache().slots_seq() == old(self).spec_cache().slots_seq(),
            final(self).spec_cache().spec_allocator() == old(self).spec_cache().spec_allocator(),
            final(self).writes_seq() == old(self).writes_seq(),
            final(self).spec_screen_width() == old(self).spec_screen_width(),
            final(self).spec_screen_height() == old(self).spec_screen_height(),
            match r {
                Ok(v) => old(self).batch_seq().len() <= MAX_VERTEX_COUNT && v@ == old(
                    self,
                ).batch_seq(),
                Err(e) => e == PaintError::BatchTooLarge && old(self).batch_seq().len()
                    > MAX_VERTEX_COUNT,
            },
    {
        self.cache.end_frame();
        if self.batch.len() > MAX_VERTEX_COUNT {
            self.batch.clear();
            return Err(PaintError::BatchTooLarge);
        }
        let v = self.batch.split_off(0);
        proof {
            assert(self.batch@ =~= Seq::<GlyphVertex>::empty());
            assert(v@ =~= old(self).batch_seq());
        }
        Ok(v)
    }
}

} // verus!
