use simple_game::cache::{GlyphCache, GlyphMetrics};
use simple_game::font::GlyphKey;
use simple_game::raster::{GlyphFormat, RasterizationError};

fn key(n: u32) -> GlyphKey {
    GlyphKey { font_id: 0, glyph_index: n, pixel_size: 32, subpixel_bucket: 0 }
}

fn metrics_1x1() -> GlyphMetrics {
    GlyphMetrics { width: 1, height: 1, left: 0, top: 1 }
}

// A 10 by 5 atlas holds exactly two 1x1 glyphs (5x5 texels once padded).
fn two_slot_cache() -> GlyphCache {
    GlyphCache::new(10, 5)
}

#[test]
fn lookup_misses_on_an_empty_cache() {
    let mut c = two_slot_cache();
    assert!(c.lookup(key(1)).is_none());
    assert_eq!(c.len(), 0);
}

#[test]
fn insert_then_lookup_hits() {
    let mut c = two_slot_cache();
    let e = c.insert(key(1), GlyphFormat::Grayscale, metrics_1x1()).unwrap();
    let hit = c.lookup(key(1)).unwrap();
    assert_eq!(hit, e);
    assert_eq!(c.len(), 1);
    assert!(c.contains(key(1)));
}

#[test]
fn entry_rectangle_sits_inside_the_padding() {
    let mut c = two_slot_cache();
    let e = c.insert(key(1), GlyphFormat::Grayscale, metrics_1x1()).unwrap();
    assert_eq!(e.alloc.rect.width, 5);
    assert_eq!(e.alloc.rect.height, 5);
    assert_eq!(e.tex_x, e.alloc.rect.x + 2);
    assert_eq!(e.tex_y, e.alloc.rect.y + 2);
    assert_eq!(e.tex_width, 1);
    assert_eq!(e.tex_height, 1);
}

#[test]
fn protected_entries_are_never_evicted() {
    // Both resident glyphs were resolved this frame; with the atlas full,
    // the insert is refused and no entry is evicted.
    let mut c = two_slot_cache();
    c.insert(key(1), GlyphFormat::Grayscale, metrics_1x1()).unwrap();
    c.insert(key(2), GlyphFormat::Grayscale, metrics_1x1()).unwrap();
    assert_eq!(c.in_use_len(), 2);
    let r = c.insert(key(3), GlyphFormat::Grayscale, metrics_1x1());
    assert!(matches!(r, Err(RasterizationError::NoTextureSpace)));
    assert_eq!(c.len(), 2);
    assert!(c.contains(key(1)));
    assert!(c.contains(key(2)));
    assert!(!c.contains(key(3)));
}

#[test]
fn unprotected_lru_entry_is_evicted_first() {
    let mut c = two_slot_cache();
    c.insert(key(1), GlyphFormat::Grayscale, metrics_1x1()).unwrap();
    c.insert(key(2), GlyphFormat::Grayscale, metrics_1x1()).unwrap();
    // New frame: nothing is protected any more.
    c.end_frame();
    assert_eq!(c.in_use_len(), 0);
    c.insert(key(3), GlyphFormat::Grayscale, metrics_1x1()).unwrap();
    // key(1) was least recently used, so it went first — and only it.
    assert!(!c.contains(key(1)));
    assert!(c.contains(key(2)));
    assert!(c.contains(key(3)));
}

#[test]
fn lookup_bumps_recency_for_eviction() {
    let mut c = two_slot_cache();
    c.insert(key(1), GlyphFormat::Grayscale, metrics_1x1()).unwrap();
    c.insert(key(2), GlyphFormat::Grayscale, metrics_1x1()).unwrap();
    c.end_frame();
    // Touch key(1): key(2) becomes least recently used.
    assert!(c.lookup(key(1)).is_some());
    c.end_frame();
    c.insert(key(3), GlyphFormat::Grayscale, metrics_1x1()).unwrap();
    assert!(c.contains(key(1)));
    assert!(!c.contains(key(2)));
    assert!(c.contains(key(3)));
}

#[test]
fn eviction_proceeds_in_strict_recency_order() {
    // Four 1x1 glyphs fill a 20 by 5 atlas (5x5 texels each once padded).
    let mut c = GlyphCache::new(20, 5);
    for n in 1..=4 {
        c.insert(key(n), GlyphFormat::Grayscale, metrics_1x1()).unwrap();
    }
    c.end_frame();
    // Recency order is 1, 2, 3, 4; touch 1 to make it 2, 3, 4, 1.
    c.lookup(key(1)).unwrap();
    c.end_frame();
    // Each new glyph needs one slot: the victims must be 2, then 3 —
    // least recently used first, never 4 or the freshly touched 1.
    c.insert(key(5), GlyphFormat::Grayscale, metrics_1x1()).unwrap();
    assert!(!c.contains(key(2)));
    assert!(c.contains(key(1)) && c.contains(key(3)) && c.contains(key(4)));
    c.insert(key(6), GlyphFormat::Grayscale, metrics_1x1()).unwrap();
    assert!(!c.contains(key(3)));
    assert!(c.contains(key(1)) && c.contains(key(4)));
    assert!(c.contains(key(5)) && c.contains(key(6)));
}

#[test]
fn eviction_frees_atlas_space() {
    let mut c = two_slot_cache();
    c.insert(key(1), GlyphFormat::Grayscale, metrics_1x1()).unwrap();
    c.insert(key(2), GlyphFormat::Grayscale, metrics_1x1()).unwrap();
    assert_eq!(c.free_space(), 0);
    c.end_frame();
    let r = c.insert(key(3), GlyphFormat::Grayscale, metrics_1x1());
    assert!(r.is_ok());
    assert_eq!(c.free_space(), 0);
    assert_eq!(c.len(), 2);
}

#[test]
fn end_frame_clears_only_protection() {
    let mut c = two_slot_cache();
    c.insert(key(1), GlyphFormat::Grayscale, metrics_1x1()).unwrap();
    assert_eq!(c.in_use_len(), 1);
    c.end_frame();
    assert_eq!(c.in_use_len(), 0);
    assert_eq!(c.len(), 1);
    assert!(c.contains(key(1)));
}
