//! The glyph cache: an LRU-ordered map from glyph keys to atlas entries,
//! with an eviction loop that never touches glyphs used in the current frame.
//!
//! Recency order is the sole eviction criterion. Protection is a separate
//! per-frame set of keys, cleared once per frame by [`GlyphCache::end_frame`],
//! never mid-composition. When allocation fails, the least-recently-used
//! unprotected entry is evicted and its atlas space freed, until the
//! allocation succeeds or nothing evictable remains (`NoTextureSpace`).

use vstd::prelude::*;
use crate::atlas::{AtlasAllocation, AtlasAllocator, BORDER_PADDING, model_alloc};
use crate::font::GlyphKey;
use crate::raster::{GlyphFormat, RasterizationError};
use crate::rect::Rect;

verus! {

/// Placement metrics of a rasterized glyph: bitmap size in texels and the
/// bearings from the pen position to the bitmap's top-left corner.
#[derive(Debug, Clone, Copy, PartialEq, Eq, Structural)]
pub struct GlyphMetrics {
    pub width: u32,
    pub height: u32,
    pub left: i32,
    pub top: i32,
}

/// A resident glyph: its atlas allocation, its source format (which picks
/// the tint rule at draw time), the texel rectangle its pixels occupy inside
/// the allocation's border padding, and its placement metrics.
#[derive(Debug, Clone, Copy, PartialEq, Eq, Structural)]
pub struct GlyphCacheEntry {
    pub alloc: AtlasAllocation,
    pub format: GlyphFormat,
    pub tex_x: u32,
    pub tex_y: u32,
    pub tex_width: u32,
    pub tex_height: u32,
    pub metrics: GlyphMetrics,
}

/// The entry's texel rectangle sits centered in its padded allocation and
/// matches the glyph's pixel size.
pub open spec fn entry_wf(e: GlyphCacheEntry) -> bool {
    &&& e.tex_x == e.alloc.rect.x + BORDER_PADDING
    &&& e.tex_y == e.alloc.rect.y + BORDER_PADDING
    &&& e.tex_width == e.alloc.rect.width - 2 * BORDER_PADDING
    &&& e.tex_height == e.alloc.rect.height - 2 * BORDER_PADDING
    &&& e.metrics.width == e.tex_width
    &&& e.metrics.height == e.tex_height
}

/// One cache slot: a key and its entry.
#[derive(Debug, Clone, Copy, PartialEq, Eq, Structural)]
pub struct CacheSlot {
    pub key: GlyphKey,
    pub entry: GlyphCacheEntry,
}

/// Index of the least-recently-used slot whose key is not protected, or -1
/// when every resident glyph is protected.
pub open spec fn first_evictable(slots: Seq<CacheSlot>, used: Seq<GlyphKey>) -> int
    decreases slots.len(),
{
    if slots.len() == 0 {
        -1
    } else if !used.contains(slots[0].key) {
        0
    } else {
        let rest = first_evictable(slots.subrange(1, slots.len() as int), used);
        if rest < 0 {
            -1
        } else {
            rest + 1
        }
    }
}

pub proof fn lemma_first_evictable_char(slots: Seq<CacheSlot>, used: Seq<GlyphKey>)
    ensures
        first_evictable(slots, used) == -1 || 0 <= first_evictable(slots, used) < slots.len(),
        first_evictable(slots, used) >= 0 ==> !used.contains(
            slots[first_evictable(slots, used)].key,
        ),
        forall|j: int|
            0 <= j < first_evictable(slots, used) ==> used.contains((#[trigger] slots[j]).key),
        first_evictable(slots, used) == -1 ==> forall|j: int|
            0 <= j < slots.len() ==> used.contains((#[trigger] slots[j]).key),
    decreases slots.len(),
{
    if slots.len() > 0 && used.contains(slots[0].key) {
        let rest = slots.subrange(1, slots.len() as int);
        lemma_first_evictable_char(rest, used);
        let fe = first_evictable(slots, used);
        let rf = first_evictable(rest, used);
        if rf < 0 {
            assert forall|j: int| 0 <= j < slots.len() implies used.contains(
                (#[trigger] slots[j]).key,
            ) by {
                if j > 0 {
                    assert(slots[j] == rest[j - 1]);
                }
            }
        } else {
            assert(slots[fe] == rest[rf]);
            assert forall|j: int| 0 <= j < fe implies used.contains((#[trigger] slots[j]).key) by {
                if j > 0 {
                    assert(slots[j] == rest[j - 1]);
                }
            }
        }
    }
}

/// Index of the slot holding a key, or -1 when the key is not resident.
pub open spec fn key_index(slots: Seq<CacheSlot>, key: GlyphKey) -> int
    decreases slots.len(),
{
    if slots.len() == 0 {
        -1
    } else if slots[0].key == key {
        0
    } else {
        let rest = key_index(slots.subrange(1, slots.len() as int), key);
        if rest < 0 {
            -1
        } else {
            rest + 1
        }
    }
}

pub proof fn lemma_key_index_char(slots: Seq<CacheSlot>, key: GlyphKey)
    ensures
        key_index(slots, key) == -1 || 0 <= key_index(slots, key) < slots.len(),
        key_index(slots, key) >= 0 ==> slots[key_index(slots, key)].key == key,
        forall|j: int| 0 <= j < key_index(slots, key) ==> (#[trigger] slots[j]).key != key,
        key_index(slots, key) == -1 ==> forall|j: int|
            0 <= j < slots.len() ==> (#[trigger] slots[j]).key != key,
    decreases slots.len(),
{
    if slots.len() > 0 && slots[0].key != key {
        let rest = slots.subrange(1, slots.len() as int);
        lemma_key_index_char(rest, key);
        let ki = key_index(slots, key);
        let ri = key_index(rest, key);
        if ri < 0 {
            assert forall|j: int| 0 <= j < slots.len() implies (#[trigger] slots[j]).key
                != key by {
                if j > 0 {
                    assert(slots[j] == rest[j - 1]);
                }
            }
        } else {
            assert(slots[ki] == rest[ri]);
            assert forall|j: int| 0 <= j < ki implies (#[trigger] slots[j]).key != key by {
                if j > 0 {
                    assert(slots[j] == rest[j - 1]);
                }
            }
        }
    }
}

/// What inserting a glyph does to the cache model: starting from recency-
/// ordered slots, a protection set and the allocator's free list, it either
/// allocates at once, or repeatedly evicts the least-recent unprotected slot
/// (returning its padded rectangle to the free list) and retries. Yields the
/// remaining slots, the final free list, the allocated rectangle if any, and
/// the evicted slots in eviction order.
pub open spec fn model_insert(
    slots: Seq<CacheSlot>,
    used: Seq<GlyphKey>,
    free: Seq<Rect>,
    w: u32,
    h: u32,
) -> (Seq<CacheSlot>, Seq<Rect>, Option<Rect>, Seq<CacheSlot>)
    decreases slots.len(),
{
    match model_alloc(free, w, h) {
        Some((free2, rect)) => (slots, free2, Some(rect), Seq::empty()),
        None => {
            let i = first_evictable(slots, used);
            if i < 0 || i >= slots.len() {
                (slots, free, None, Seq::empty())
            } else {
                let rec = model_insert(
                    slots.remove(i),
                    used,
                    free.push(slots[i].entry.alloc.rect),
                    w,
                    h,
                );
                (rec.0, rec.1, rec.2, seq![slots[i]] + rec.3)
            }
        },
    }
}

/// An LRU glyph cache over an atlas allocator it owns. Slot order is recency
/// order: index 0 is least recently used.
pub struct GlyphCache {
    allocator: AtlasAllocator,
    slots: Vec<CacheSlot>,
    in_use: Vec<GlyphKey>,
}

impl GlyphCache {
    /// The atlas allocator's state.
    pub closed spec fn spec_allocator(self) -> AtlasAllocator {
        self.allocator
    }

    /// The resident slots, least recently used first.
    pub closed spec fn slots_seq(self) -> Seq<CacheSlot> {
        self.slots@
    }

    /// The keys protected from eviction this frame.
    pub closed spec fn in_use_seq(self) -> Seq<GlyphKey> {
        self.in_use@
    }

    pub open spec fn atlas_width(self) -> u32 {
        self.spec_allocator().spec_width()
    }

    pub open spec fn atlas_height(self) -> u32 {
        self.spec_allocator().spec_height()
    }

    /// The resident keys, in recency order.
    pub open spec fn keys(self) -> Seq<GlyphKey> {
        self.slots_seq().map_values(|s: CacheSlot| s.key)
    }

    pub open spec fn contains_key(self, key: GlyphKey) -> bool {
        exists|i: int| 0 <= i < self.slots_seq().len() && (#[trigger] self.slots_seq()[i]).key
            == key
    }

    /// The entry resident under a key (meaningful when the key is resident;
    /// keys are distinct, so the slot is unique).
    pub open spec fn entry_of(self, key: GlyphKey) -> GlyphCacheEntry {
        self.slots_seq()[key_index(self.slots_seq(), key)].entry
    }

    /// Structural invariant: keys and protected keys are distinct, protected
    /// keys are resident, every entry holds a live, well-formed allocation,
    /// and no two entries share an allocation.
    pub closed spec fn inv(self) -> bool {
        &&& self.allocator.inv()
        &&& forall|i: int, j: int|
            0 <= i < j < self.slots@.len() ==> (#[trigger] self.slots@[i]).key != (
            #[trigger] self.slots@[j]).key
        &&& forall|i: int, j: int|
            0 <= i < j < self.in_use@.len() ==> #[trigger] self.in_use@[i]
                != #[trigger] self.in_use@[j]
        &&& forall|i: int|
            0 <= i < self.in_use@.len() ==> self.keys().contains(#[trigger] self.in_use@[i])
        &&& forall|i: int|
            0 <= i < self.slots@.len() ==> self.allocator.live_seq().contains(
                (#[trigger] self.slots@[i]).entry.alloc,
            ) && entry_wf(self.slots@[i].entry)
        &&& forall|i: int, j: int|
            0 <= i < j < self.slots@.len() ==> (#[trigger] self.slots@[i]).entry.alloc != (
            #[trigger] self.slots@[j]).entry.alloc
    }

    /// A fresh cache over an empty `width` by `height` atlas.
    pub fn new(width: u32, height: u32) -> (c: GlyphCache)
        requires
            width >= 1,
            height >= 1,
        ensures
            c.inv(),
            c.atlas_width() == width,
            c.atlas_height() == height,
            c.slots_seq() == Seq::<CacheSlot>::empty(),
            c.in_use_seq() == Seq::<GlyphKey>::empty(),
            c.spec_allocator().free_seq() == seq![Rect { x: 0, y: 0, width, height }],
            c.spec_allocator().spec_free_space() == width * height,
    {
        GlyphCache { allocator: AtlasAllocator::new(width, height), slots: Vec::new(), in_use: Vec::new() }
    }

    /// Number of resident glyphs.
    pub fn len(&self) -> (n: usize)
        ensures
            n == self.slots_seq().len(),
    {
        self.slots.len()
    }

    /// Number of keys protected this frame.
    pub fn in_use_len(&self) -> (n: usize)
        ensures
            n == self.in_use_seq().len(),
    {
        self.in_use.len()
    }

    /// Free atlas space in texels.
    pub fn free_space(&self) -> (r: u64)
        requires
            self.inv(),
        ensures
            r == self.spec_allocator().spec_free_space(),
    {
        self.allocator.free_space()
    }

    /// Atlas texture size in texels.
    pub fn atlas_size(&self) -> (s: (u32, u32))
        ensures
            s.0 == self.atlas_width(),
            s.1 == self.atlas_height(),
    {
        (self.allocator.width(), self.allocator.height())
    }

    /// A resident entry's texel rectangle lies inside the atlas texture.
    pub proof fn lemma_entry_in_atlas(self, i: int)
        requires
            self.inv(),
            0 <= i < self.slots_seq().len(),
        ensures
            ({
                let e = self.slots_seq()[i].entry;
                &&& entry_wf(e)
                &&& e.alloc.rect.width > 2 * BORDER_PADDING
                &&& e.alloc.rect.height > 2 * BORDER_PADDING
                &&& e.tex_x + e.tex_width <= self.atlas_width()
                &&& e.tex_y + e.tex_height <= self.atlas_height()
            }),
    {
        let e = self.slots_seq()[i].entry;
        assert(self.spec_allocator().live_seq().contains(e.alloc));
        let li = choose|li: int|
            0 <= li < self.spec_allocator().live_seq().len() && self.spec_allocator().live_seq(
            )[li] == e.alloc;
        self.spec_allocator().lemma_inv_properties();
        assert(self.spec_allocator().live_rects()[li] == e.alloc.rect);
        assert(e.alloc.rect.within(self.atlas_width() as int, self.atlas_height() as int));
        assert(e.alloc.rect.width > 2 * BORDER_PADDING);
    }

    /// Law: two resident entries never share atlas texels — their padded
    /// rectangles are disjoint, enforced transitively by the allocator.
    pub proof fn lemma_entries_disjoint(self, i: int, j: int)
        requires
            self.inv(),
            0 <= i < self.slots_seq().len(),
            0 <= j < self.slots_seq().len(),
            i != j,
        ensures
            self.slots_seq()[i].entry.alloc.rect.disjoint(self.slots_seq()[j].entry.alloc.rect),
    {
        let ai = self.slots_seq()[i].entry.alloc;
        let aj = self.slots_seq()[j].entry.alloc;
        if i < j {
            assert(ai != aj);
        } else {
            assert(aj != ai);
        }
        assert(self.spec_allocator().live_seq().contains(ai));
        assert(self.spec_allocator().live_seq().contains(aj));
        let li = choose|li: int|
            0 <= li < self.spec_allocator().live_seq().len() && self.spec_allocator().live_seq(
            )[li] == ai;
        let lj = choose|lj: int|
            0 <= lj < self.spec_allocator().live_seq().len() && self.spec_allocator().live_seq(
            )[lj] == aj;
        self.spec_allocator().lemma_live_allocations_disjoint(li, lj);
    }

    /// Is this key resident?
    pub fn contains(&self, key: GlyphKey) -> (r: bool)
        ensures
            r == self.contains_key(key),
    {
        let n = self.slots.len();
        let mut i: usize = 0;
        while i < n
            invariant
                n == self.slots@.len(),
                i <= n,
                forall|j: int| 0 <= j < i ==> (#[trigger] self.slots@[j]).key != key,
            decreases n - i,
        {
            if self.slots[i].key == key {
                return true;
            }
            i = i + 1;
        }
        false
    }

    /// Is this key protected this frame?
    fn key_in_use(&self, key: GlyphKey) -> (r: bool)
        ensures
            r == self.in_use@.contains(key),
    {
        let n = self.in_use.len();
        let mut i: usize = 0;
        while i < n
            invariant
                n == self.in_use@.len(),
                i <= n,
                forall|j: int| 0 <= j < i ==> #[trigger] self.in_use@[j] != key,
            decreases n - i,
        {
            if self.in_use[i] == key {
                return true;
            }
            i = i + 1;
        }
        false
    }
}

/// How a lookup changes the cache: on a hit the slot moves to the
/// most-recent end unchanged and its key becomes protected; on a miss
/// nothing changes.
pub open spec fn lookup_post(
    pre: GlyphCache,
    post: GlyphCache,
    key: GlyphKey,
    r: Option<GlyphCacheEntry>,
) -> bool {
    &&& post.spec_allocator() == pre.spec_allocator()
    &&& (!pre.contains_key(key) ==> r is None && post == pre)
    &&& (pre.contains_key(key) ==> {
        &&& exists|i: int|
            0 <= i < pre.slots_seq().len() && (#[trigger] pre.slots_seq()[i]).key == key && r
                == Some(pre.slots_seq()[i].entry) && post.slots_seq() == pre.slots_seq().remove(
                i,
            ).push(pre.slots_seq()[i])
        &&& post.in_use_seq() == (if pre.in_use_seq().contains(key) {
            pre.in_use_seq()
        } else {
            pre.in_use_seq().push(key)
        })
    })
}

impl GlyphCache {
    /// Look a key up. A hit bumps the slot to most-recently-used, marks the
    /// key as in use this frame, and returns the entry unchanged; a miss
    /// changes nothing. No rasterization and no allocation happen here.
    pub fn lookup(&mut self, key: GlyphKey) -> (r: Option<GlyphCacheEntry>)
        requires
            old(self).inv(),
        ensures
            final(self).inv(),
            lookup_post(*old(self), *final(self), key, r),
            r is Some <==> old(self).contains_key(key),
    {
        let n = self.slots.len();
        let mut i: usize = 0;
        while i < n
            invariant
                self == old(self),
                self.inv(),
                n == self.slots@.len(),
                i <= n,
                forall|j: int| 0 <= j < i ==> (#[trigger] self.slots@[j]).key != key,
            decreases n - i,
        {
            if self.slots[i].key == key {
                let ghost pre = *self;
                let ghost gi = i as int;
                let slot = self.slots.remove(i);
                self.slots.push(slot);
                let already = self.key_in_use(key);
                if !already {
                    self.in_use.push(key);
                }
                proof {
                    lemma_lookup_restores_inv(pre, *self, key, gi);
                }
                return Some(slot.entry);
            }
            i = i + 1;
        }
        return None;
    }

    /// Clear the per-frame protection set. Called exactly once per frame,
    /// after the painter's draw call, never mid-composition.
    pub fn end_frame(&mut self)
        requires
            old(self).inv(),
        ensures
            final(self).inv(),
            final(self).slots_seq() == old(self).slots_seq(),
            final(self).spec_allocator() == old(self).spec_allocator(),
            final(self).in_use_seq() == Seq::<GlyphKey>::empty(),
    {
        self.in_use.clear();
    }
}

impl GlyphCache {
    /// Index of the least-recently-used slot not protected this frame.
    fn find_evictable(&self) -> (r: Option<usize>)
        ensures
            match r {
                Some(i) => i < self.slots_seq().len() && first_evictable(
                    self.slots_seq(),
                    self.in_use_seq(),
                ) == i,
                None => first_evictable(self.slots_seq(), self.in_use_seq()) == -1,
            },
    {
        proof {
            lemma_first_evictable_char(self.slots@, self.in_use@);
        }
        let n = self.slots.len();
        let mut i: usize = 0;
        while i < n
            invariant
                n == self.slots@.len(),
                i <= n,
                forall|j: int|
                    0 <= j < i ==> self.in_use@.contains((#[trigger] self.slots@[j]).key),
            decreases n - i,
        {
            if !self.key_in_use(self.slots[i].key) {
                proof {
                    lemma_first_evictable_char(self.slots@, self.in_use@);
                    let fe = first_evictable(self.slots@, self.in_use@);
                    assert(fe != -1);
                    if fe < i {
                        assert(self.in_use@.contains(self.slots@[fe].key));
                    }
                    if fe > i {
                        assert(self.in_use@.contains(self.slots@[i as int].key));
                    }
                }
                return Some(i);
            }
            i = i + 1;
        }
        proof {
            lemma_first_evictable_char(self.slots@, self.in_use@);
            let fe = first_evictable(self.slots@, self.in_use@);
            if fe >= 0 {
                assert(self.in_use@.contains(self.slots@[fe].key));
            }
        }
        return None;
    }

    /// Insert a freshly rasterized glyph under a key that is not resident.
    /// Allocates atlas space, evicting least-recently-used unprotected
    /// entries while allocation fails. On success the new entry is resident,
    /// most recently used, and protected this frame. `NoTextureSpace` means
    /// everything evictable was evicted and the glyph still does not fit:
    /// the frame's working set exceeds the atlas.
    pub fn insert(&mut self, key: GlyphKey, format: GlyphFormat, metrics: GlyphMetrics) -> (r:
        Result<GlyphCacheEntry, RasterizationError>)
        requires
            old(self).inv(),
            !old(self).contains_key(key),
            metrics.width >= 1,
            metrics.height >= 1,
        ensures
            final(self).inv(),
            final(self).atlas_width() == old(self).atlas_width(),
            final(self).atlas_height() == old(self).atlas_height(),
            ({
                let m = model_insert(
                    old(self).slots_seq(),
                    old(self).in_use_seq(),
                    old(self).spec_allocator().free_seq(),
                    metrics.width,
                    metrics.height,
                );
                match r {
                    Ok(e) => {
                        &&& m.2 == Some(e.alloc.rect)
                        &&& entry_wf(e)
                        &&& e.format == format
                        &&& e.metrics == metrics
                        &&& final(self).slots_seq() == m.0.push(CacheSlot { key, entry: e })
                        &&& final(self).in_use_seq() == old(self).in_use_seq().push(key)
                        &&& final(self).spec_allocator().free_seq() == m.1
                        &&& final(self).contains_key(key)
                    },
                    Err(err) => {
                        &&& err == RasterizationError::NoTextureSpace
                        &&& m.2 is None
                        &&& final(self).slots_seq() == m.0
                        &&& final(self).in_use_seq() == old(self).in_use_seq()
                        &&& final(self).spec_allocator().free_seq() == m.1
                    },
                }
            }),
    {
        let ghost orig = *old(self);
        let ghost w = metrics.width;
        let ghost h = metrics.height;
        loop
            invariant
                orig == *old(self),
                self.inv(),
                !self.contains_key(key),
                self.in_use@ == orig.in_use_seq(),
                self.atlas_width() == orig.atlas_width(),
                self.atlas_height() == orig.atlas_height(),
                metrics.width == w,
                metrics.height == h,
                w >= 1,
                h >= 1,
                !orig.contains_key(key),
                ({
                    let mc = model_insert(
                        self.slots@,
                        self.in_use@,
                        self.spec_allocator().free_seq(),
                        w,
                        h,
                    );
                    let mo = model_insert(
                        orig.slots_seq(),
                        orig.in_use_seq(),
                        orig.spec_allocator().free_seq(),
                        w,
                        h,
                    );
                    mc.0 == mo.0 && mc.1 == mo.1 && mc.2 == mo.2
                }),
            decreases self.slots@.len(),
        {
            let ghost pre = *self;
            let alloc_result = self.allocator.allocate(metrics.width, metrics.height);
            match alloc_result {
                Some(a) => {
                    let entry = GlyphCacheEntry {
                        alloc: a,
                        format,
                        tex_x: a.rect.x + BORDER_PADDING,
                        tex_y: a.rect.y + BORDER_PADDING,
                        tex_width: a.rect.width - 2 * BORDER_PADDING,
                        tex_height: a.rect.height - 2 * BORDER_PADDING,
                        metrics,
                    };
                    self.slots.push(CacheSlot { key, entry });
                    self.in_use.push(key);
                    proof {
                        assert forall|j: int|
                            0 <= j < pre.slots_seq().len() implies entry.alloc != (
                        #[trigger] pre.slots_seq()[j]).entry.alloc by {
                            assert(pre.spec_allocator().live_seq().contains(
                                pre.slots_seq()[j].entry.alloc,
                            ));
                            let li = choose|li: int|
                                0 <= li < pre.spec_allocator().live_seq().len()
                                    && pre.spec_allocator().live_seq()[li] == pre.slots_seq(
                                )[j].entry.alloc;
                            assert(pre.spec_allocator().live_rects()[li] == pre.slots_seq(
                            )[j].entry.alloc.rect);
                            assert(a.rect.disjoint(pre.spec_allocator().live_rects()[li]));
                        }
                        lemma_commit_restores_inv(pre, *self, key, entry);
                    }
                    return Ok(entry);
                },
                None => {
                    match self.find_evictable() {
                        None => {
                            return Err(RasterizationError::NoTextureSpace);
                        },
                        Some(i) => {
                            let ghost gi = i as int;
                            let victim = self.slots.remove(i);
                            proof {
                                lemma_first_evictable_char(pre.slots_seq(), pre.in_use_seq());
                                assert(pre.spec_allocator().live_seq().contains(
                                    victim.entry.alloc,
                                ));
                            }
                            self.allocator.free(victim.entry.alloc);
                            proof {
                                let li = choose|li: int|
                                    0 <= li < pre.spec_allocator().live_seq().len()
                                        && pre.spec_allocator().live_seq()[li]
                                        == victim.entry.alloc && self.spec_allocator().live_seq()
                                        == pre.spec_allocator().live_seq().remove(li);
                                lemma_evict_restores_inv(pre, *self, gi, victim, li);
                                // One unfolding of the model ties the states.
                                assert(model_alloc(pre.spec_allocator().free_seq(), w, h)
                                    is None);
                                assert(model_insert(
                                    pre.slots_seq(),
                                    pre.in_use_seq(),
                                    pre.spec_allocator().free_seq(),
                                    w,
                                    h,
                                ) == {
                                    let rec = model_insert(
                                        pre.slots_seq().remove(gi),
                                        pre.in_use_seq(),
                                        pre.spec_allocator().free_seq().push(
                                            victim.entry.alloc.rect,
                                        ),
                                        w,
                                        h,
                                    );
                                    (rec.0, rec.1, rec.2, seq![victim] + rec.3)
                                });
                            }
                        },
                    }
                },
            }
        }
    }
}

/// Invariant restoration for `insert`'s commit: pushing a fresh, live,
/// well-formed entry and protecting its key preserves the invariant.
proof fn lemma_commit_restores_inv(
    pre: GlyphCache,
    post: GlyphCache,
    key: GlyphKey,
    entry: GlyphCacheEntry,
)
    requires
        pre.inv(),
        !pre.contains_key(key),
        entry_wf(entry),
        post.spec_allocator().inv(),
        post.spec_allocator().live_seq() == pre.spec_allocator().live_seq().push(entry.alloc),
        post.slots_seq() == pre.slots_seq().push(CacheSlot { key, entry }),
        post.in_use_seq() == pre.in_use_seq().push(key),
        forall|j: int|
            0 <= j < pre.slots_seq().len() ==> entry.alloc != (
            #[trigger] pre.slots_seq()[j]).entry.alloc,
    ensures
        post.inv(),
        post.contains_key(key),
{
    let s = pre.slots_seq();
    let t = post.slots_seq();
    let n = s.len();
    assert(t[n as int].key == key);

    // The new key is not resident, so key distinctness is kept.
    assert forall|p: int, q: int| 0 <= p < q < t.len() implies (#[trigger] t[p]).key != (
    #[trigger] t[q]).key && t[p].entry.alloc != t[q].entry.alloc by {
        if q < n {
            assert(s[p].key != s[q].key);
        } else {
            assert(t[p] == s[p]);
            if t[p].key == key {
                assert(pre.contains_key(key));
            }
        }
    }

    // Entries stay live (the live list only grew) and well-formed.
    assert forall|k: int| 0 <= k < t.len() implies post.spec_allocator().live_seq().contains(
        (#[trigger] t[k]).entry.alloc,
    ) && entry_wf(t[k].entry) by {
        if k < n {
            let li = choose|li: int|
                0 <= li < pre.spec_allocator().live_seq().len() && pre.spec_allocator().live_seq(
                )[li] == s[k].entry.alloc;
            assert(post.spec_allocator().live_seq()[li] == s[k].entry.alloc);
        } else {
            assert(post.spec_allocator().live_seq().last() == entry.alloc);
        }
    }

    // The new key was not protected (protected keys are resident).
    assert(!pre.in_use_seq().contains(key)) by {
        if pre.in_use_seq().contains(key) {
            let k = choose|k: int|
                0 <= k < pre.in_use_seq().len() && pre.in_use_seq()[k] == key;
            assert(pre.keys().contains(key));
            let m = choose|m: int| 0 <= m < pre.keys().len() && pre.keys()[m] == key;
            assert(pre.slots_seq()[m].key == key);
        }
    }
    let u = post.in_use_seq();
    assert forall|p: int, q: int| 0 <= p < q < u.len() implies #[trigger] u[p]
        != #[trigger] u[q] by {
        if q == u.len() - 1 {
            if u[p] == key {
                assert(pre.in_use_seq().contains(key));
            }
        }
    }
    assert forall|k: int| 0 <= k < u.len() implies post.keys().contains(#[trigger] u[k]) by {
        if k < pre.in_use_seq().len() {
            let m = choose|m: int|
                0 <= m < pre.keys().len() && pre.keys()[m] == pre.in_use_seq()[k];
            assert(post.keys()[m] == u[k]);
        } else {
            assert(post.keys()[n as int] == key);
        }
    }
}

/// Invariant restoration for one eviction: removing an unprotected slot and
/// freeing its (unshared) allocation preserves the invariant, and the key
/// being inserted stays non-resident.
proof fn lemma_evict_restores_inv(
    pre: GlyphCache,
    post: GlyphCache,
    i: int,
    victim: CacheSlot,
    li: int,
)
    requires
        pre.inv(),
        0 <= i < pre.slots_seq().len(),
        victim == pre.slots_seq()[i],
        !pre.in_use_seq().contains(victim.key),
        post.slots_seq() == pre.slots_seq().remove(i),
        post.in_use_seq() == pre.in_use_seq(),
        post.spec_allocator().inv(),
        0 <= li < pre.spec_allocator().live_seq().len(),
        pre.spec_allocator().live_seq()[li] == victim.entry.alloc,
        post.spec_allocator().live_seq() == pre.spec_allocator().live_seq().remove(li),
    ensures
        post.inv(),
        forall|key: GlyphKey| !pre.contains_key(key) ==> !post.contains_key(key),
{
    let s = pre.slots_seq();
    let t = post.slots_seq();

    // Index mapping for the removed slot sequence.
    assert forall|k: int| 0 <= k < t.len() implies #[trigger] t[k] == s[if k < i {
        k
    } else {
        k + 1
    }] by {}

    assert forall|p: int, q: int| 0 <= p < q < t.len() implies (#[trigger] t[p]).key != (
    #[trigger] t[q]).key && t[p].entry.alloc != t[q].entry.alloc by {
        let sp = if p < i {
            p
        } else {
            p + 1
        };
        let sq = if q < i {
            q
        } else {
            q + 1
        };
        assert(t[p] == s[sp] && t[q] == s[sq]);
        assert(s[sp].key != s[sq].key && s[sp].entry.alloc != s[sq].entry.alloc);
    }

    // Remaining entries are still live: their allocations differ from the
    // victim's, and the live list only lost the victim's.
    assert forall|k: int| 0 <= k < t.len() implies post.spec_allocator().live_seq().contains(
        (#[trigger] t[k]).entry.alloc,
    ) && entry_wf(t[k].entry) by {
        let sk = if k < i {
            k
        } else {
            k + 1
        };
        assert(t[k] == s[sk]);
        assert(pre.spec_allocator().live_seq().contains(s[sk].entry.alloc));
        let lj = choose|lj: int|
            0 <= lj < pre.spec_allocator().live_seq().len() && pre.spec_allocator().live_seq(
            )[lj] == s[sk].entry.alloc;
        if sk < i {
            assert(s[sk].entry.alloc != s[i].entry.alloc);
        } else if sk > i {
            assert(s[i].entry.alloc != s[sk].entry.alloc);
        }
        if lj != li {
            let pj = if lj < li {
                lj
            } else {
                lj - 1
            };
            assert(post.spec_allocator().live_seq()[pj] == s[sk].entry.alloc);
        }
    }

    // Protected keys stay resident: none of them was the victim's key.
    assert forall|k: int| 0 <= k < post.in_use_seq().len() implies post.keys().contains(
        #[trigger] post.in_use_seq()[k],
    ) by {
        let u = pre.in_use_seq()[k];
        assert(pre.keys().contains(u));
        let m = choose|m: int| 0 <= m < pre.keys().len() && pre.keys()[m] == u;
        assert(s[m].key == u);
        if m == i {
            assert(pre.in_use_seq().contains(victim.key));
        } else {
            let pm = if m < i {
                m
            } else {
                m - 1
            };
            assert(t[pm] == s[m]);
            assert(post.keys()[pm] == u);
        }
    }

    // A key absent before stays absent after removal.
    assert forall|key: GlyphKey| !pre.contains_key(key) implies !post.contains_key(key) by {
        if post.contains_key(key) {
            let k = choose|k: int|
                0 <= k < t.len() && (#[trigger] t[k]).key == key;
            let sk = if k < i {
                k
            } else {
                k + 1
            };
            assert(s[sk].key == key);
        }
    }
}

/// Law: resolving the same key twice within a frame, with no intervening
/// eviction, yields the same entry — and so the same atlas allocation. The
/// second resolution is a pure cache hit: `lookup` neither rasterizes nor
/// allocates, as its signature shows.
pub proof fn lemma_cache_hit_idempotent(
    c0: GlyphCache,
    c1: GlyphCache,
    c2: GlyphCache,
    key: GlyphKey,
    e1: GlyphCacheEntry,
    e2: GlyphCacheEntry,
)
    requires
        c0.inv(),
        c1.inv(),
        lookup_post(c0, c1, key, Some(e1)),
        lookup_post(c1, c2, key, Some(e2)),
    ensures
        e2 == e1,
        e2.alloc == e1.alloc,
{
    assert(c0.contains_key(key));
    let i = choose|i: int|
        0 <= i < c0.slots_seq().len() && (#[trigger] c0.slots_seq()[i]).key == key && Some(e1)
            == Some(c0.slots_seq()[i].entry) && c1.slots_seq() == c0.slots_seq().remove(i).push(
            c0.slots_seq()[i],
        );
    let n1 = c1.slots_seq().len();
    assert(c1.slots_seq()[n1 - 1] == c0.slots_seq()[i]);
    assert(c1.contains_key(key));
    let j = choose|j: int|
        0 <= j < c1.slots_seq().len() && (#[trigger] c1.slots_seq()[j]).key == key && Some(e2)
            == Some(c1.slots_seq()[j].entry) && c2.slots_seq() == c1.slots_seq().remove(j).push(
            c1.slots_seq()[j],
        );
    if j < n1 - 1 {
        // Keys are distinct in c1, so only the last slot can hold the key.
        assert(c1.slots_seq()[j].key != c1.slots_seq()[n1 - 1].key);
    }
    assert(e2 == c1.slots_seq()[n1 - 1].entry);
}

/// A hit changes recency and protection only: the resident key set stays
/// exactly what it was.
pub proof fn lemma_lookup_preserves_keys(
    pre: GlyphCache,
    post: GlyphCache,
    key: GlyphKey,
    e: GlyphCacheEntry,
)
    requires
        lookup_post(pre, post, key, Some(e)),
    ensures
        forall|k: GlyphKey| post.contains_key(k) <==> pre.contains_key(k),
{
    assert(pre.contains_key(key));
    let i = choose|i: int|
        0 <= i < pre.slots_seq().len() && (#[trigger] pre.slots_seq()[i]).key == key && Some(e)
            == Some(pre.slots_seq()[i].entry) && post.slots_seq() == pre.slots_seq().remove(
            i,
        ).push(pre.slots_seq()[i]);
    let s = pre.slots_seq();
    let t = post.slots_seq();
    assert forall|k: GlyphKey| post.contains_key(k) implies pre.contains_key(k) by {
        let p = choose|p: int| 0 <= p < t.len() && (#[trigger] t[p]).key == k;
        if p == t.len() - 1 {
            assert(s[i].key == k);
        } else if p < i {
            assert(s[p].key == k);
        } else {
            assert(s[p + 1].key == k);
        }
    }
    assert forall|k: GlyphKey| pre.contains_key(k) implies post.contains_key(k) by {
        let p = choose|p: int| 0 <= p < s.len() && (#[trigger] s[p]).key == k;
        if p == i {
            assert(t[t.len() - 1].key == k);
        } else if p < i {
            assert(t[p].key == k);
        } else {
            assert(t[p - 1].key == k);
        }
    }
}

/// A hit returns exactly the entry resident under the key, and leaves every
/// resident key's entry what it was.
pub proof fn lemma_lookup_preserves_entries(
    pre: GlyphCache,
    post: GlyphCache,
    key: GlyphKey,
    e: GlyphCacheEntry,
)
    requires
        pre.inv(),
        lookup_post(pre, post, key, Some(e)),
    ensures
        pre.contains_key(key),
        e == pre.entry_of(key),
        forall|k: GlyphKey| pre.contains_key(k) ==> post.entry_of(k) == pre.entry_of(k),
{
    assert(pre.contains_key(key));
    let i = choose|i: int|
        0 <= i < pre.slots_seq().len() && (#[trigger] pre.slots_seq()[i]).key == key && Some(e)
            == Some(pre.slots_seq()[i].entry) && post.slots_seq() == pre.slots_seq().remove(
            i,
        ).push(pre.slots_seq()[i]);
    let s = pre.slots_seq();
    let t = post.slots_seq();
    let n = s.len();
    lemma_key_index_char(s, key);
    let ki = key_index(s, key);
    assert(ki >= 0) by {
        if ki == -1 {
            assert(s[i].key != key);
        }
    }
    assert(ki == i) by {
        if ki < i {
            assert(s[ki].key != s[i].key);
        } else if ki > i {
            assert(s[i].key != s[ki].key);
        }
    }
    assert forall|k: GlyphKey| pre.contains_key(k) implies post.entry_of(k) == pre.entry_of(
        k,
    ) by {
        lemma_key_index_char(s, k);
        lemma_key_index_char(t, k);
        let p = key_index(s, k);
        assert(p >= 0) by {
            if p == -1 {
                let w = choose|w: int|
                    0 <= w < s.len() && (#[trigger] s[w]).key == k;
                assert(s[w].key != k);
            }
        }
        // The moved sequence still holds the key somewhere.
        let q = key_index(t, k);
        assert(q >= 0) by {
            if q == -1 {
                if p == i {
                    assert(t[n - 1] == s[i]);
                    assert(t[n - 1].key != k);
                } else if p < i {
                    assert(t[p] == s[p]);
                    assert(t[p].key != k);
                } else {
                    assert(t[p - 1] == s[p]);
                    assert(t[p - 1].key != k);
                }
            }
        }
        // Map the found slot back; key distinctness makes it the same slot.
        let m = if q == n - 1 {
            i
        } else if q < i {
            q
        } else {
            q + 1
        };
        assert(t[q as int] == s[m]);
        assert(m == p) by {
            if m < p {
                assert(s[m].key != s[p].key);
            } else if m > p {
                assert(s[p].key != s[m].key);
            }
        }
    }
}

/// Law: eviction never chooses a slot protected this frame. Every slot whose
/// key is in use survives the insert, and every evicted slot's key was
/// unprotected.
pub proof fn lemma_eviction_protection(
    slots: Seq<CacheSlot>,
    used: Seq<GlyphKey>,
    free: Seq<Rect>,
    w: u32,
    h: u32,
)
    ensures
        ({
            let m = model_insert(slots, used, free, w, h);
            &&& forall|j: int|
                0 <= j < slots.len() && used.contains((#[trigger] slots[j]).key)
                    ==> m.0.contains(slots[j])
            &&& forall|j: int| 0 <= j < m.3.len() ==> !used.contains((#[trigger] m.3[j]).key)
        }),
    decreases slots.len(),
{
    let m = model_insert(slots, used, free, w, h);
    match model_alloc(free, w, h) {
        Some(_) => {
            assert forall|j: int|
                0 <= j < slots.len() && used.contains((#[trigger] slots[j]).key)
                    implies m.0.contains(slots[j]) by {
                assert(m.0[j] == slots[j]);
            }
        },
        None => {
            lemma_first_evictable_char(slots, used);
            let i = first_evictable(slots, used);
            if i < 0 || i >= slots.len() {
                assert forall|j: int|
                    0 <= j < slots.len() && used.contains((#[trigger] slots[j]).key)
                        implies m.0.contains(slots[j]) by {
                    assert(m.0[j] == slots[j]);
                }
            } else {
                let rest = slots.remove(i);
                let free2 = free.push(slots[i].entry.alloc.rect);
                lemma_eviction_protection(rest, used, free2, w, h);
                let rec = model_insert(rest, used, free2, w, h);
                assert forall|j: int|
                    0 <= j < slots.len() && used.contains((#[trigger] slots[j]).key)
                        implies m.0.contains(slots[j]) by {
                    // j != i: the evicted slot's key is not in use.
                    let rj = if j < i {
                        j
                    } else {
                        j - 1
                    };
                    assert(rest[rj] == slots[j]);
                    assert(rec.0.contains(rest[rj]));
                }
                assert forall|j: int| 0 <= j < m.3.len() implies !used.contains(
                    (#[trigger] m.3[j]).key,
                ) by {
                    if j == 0 {
                        assert(m.3[0] == slots[i]);
                    } else {
                        assert(m.3[j] == rec.3[j - 1]);
                    }
                }
            }
        },
    }
}

/// A refused insert is genuine exhaustion: every slot the model leaves
/// resident is protected this frame.
pub proof fn lemma_exhausted_all_protected(
    slots: Seq<CacheSlot>,
    used: Seq<GlyphKey>,
    free: Seq<Rect>,
    w: u32,
    h: u32,
)
    ensures
        ({
            let m = model_insert(slots, used, free, w, h);
            m.2 is None ==> forall|j: int|
                0 <= j < m.0.len() ==> used.contains((#[trigger] m.0[j]).key)
        }),
    decreases slots.len(),
{
    let m = model_insert(slots, used, free, w, h);
    if model_alloc(free, w, h) is None {
        lemma_first_evictable_char(slots, used);
        let i = first_evictable(slots, used);
        if 0 <= i < slots.len() {
            lemma_exhausted_all_protected(
                slots.remove(i),
                used,
                free.push(slots[i].entry.alloc.rect),
                w,
                h,
            );
        }
    }
}

/// Law: when every resident glyph is in use this frame and the allocation
/// does not fit, the insert is refused and no entry is evicted.
pub proof fn lemma_all_protected_nothing_evicted(
    slots: Seq<CacheSlot>,
    used: Seq<GlyphKey>,
    free: Seq<Rect>,
    w: u32,
    h: u32,
)
    requires
        forall|j: int| 0 <= j < slots.len() ==> used.contains((#[trigger] slots[j]).key),
        model_alloc(free, w, h) is None,
    ensures
        model_insert(slots, used, free, w, h) == (
            slots,
            free,
            Option::<Rect>::None,
            Seq::<CacheSlot>::empty(),
        ),
{
    lemma_first_evictable_char(slots, used);
    let i = first_evictable(slots, used);
    if 0 <= i < slots.len() {
        assert(used.contains(slots[i].key));
    }
}

/// The unprotected slots, in recency order: the candidates for eviction.
pub open spec fn evictable_slots(slots: Seq<CacheSlot>, used: Seq<GlyphKey>) -> Seq<CacheSlot>
    decreases slots.len(),
{
    if slots.len() == 0 {
        Seq::empty()
    } else {
        let rest = evictable_slots(slots.subrange(1, slots.len() as int), used);
        if used.contains(slots[0].key) {
            rest
        } else {
            seq![slots[0]] + rest
        }
    }
}

/// The first evictable slot heads the evictable sequence, and removing it
/// drops that head.
proof fn lemma_evictable_first(slots: Seq<CacheSlot>, used: Seq<GlyphKey>)
    requires
        0 <= first_evictable(slots, used) < slots.len(),
    ensures
        evictable_slots(slots, used).len() > 0,
        evictable_slots(slots, used)[0] == slots[first_evictable(slots, used)],
        evictable_slots(slots.remove(first_evictable(slots, used)), used) == evictable_slots(
            slots,
            used,
        ).subrange(1, evictable_slots(slots, used).len() as int),
    decreases slots.len(),
{
    let i = first_evictable(slots, used);
    let ev = evictable_slots(slots, used);
    let rest = slots.subrange(1, slots.len() as int);
    lemma_first_evictable_char(slots, used);
    if i == 0 {
        assert(ev == seq![slots[0]] + evictable_slots(rest, used));
        assert(slots.remove(0) =~= rest);
        assert(ev.subrange(1, ev.len() as int) =~= evictable_slots(rest, used));
    } else {
        assert(used.contains(slots[0].key));
        assert(ev == evictable_slots(rest, used));
        assert(first_evictable(rest, used) == i - 1);
        lemma_evictable_first(rest, used);
        assert(rest[i - 1] == slots[i]);
        let removed = slots.remove(i);
        assert(removed[0] == slots[0]);
        assert(removed.subrange(1, removed.len() as int) =~= rest.remove(i - 1));
        assert(evictable_slots(removed, used) == evictable_slots(rest.remove(i - 1), used));
        assert(evictable_slots(rest.remove(i - 1), used) == evictable_slots(rest, used).subrange(
            1,
            evictable_slots(rest, used).len() as int,
        ));
    }
}

/// Law: eviction proceeds strictly in recency order — the evicted slots are
/// exactly a prefix of the unprotected slots, least recently used first.
pub proof fn lemma_eviction_in_recency_order(
    slots: Seq<CacheSlot>,
    used: Seq<GlyphKey>,
    free: Seq<Rect>,
    w: u32,
    h: u32,
)
    ensures
        ({
            let m = model_insert(slots, used, free, w, h);
            &&& m.3.len() <= evictable_slots(slots, used).len()
            &&& m.3 == evictable_slots(slots, used).subrange(0, m.3.len() as int)
        }),
    decreases slots.len(),
{
    let m = model_insert(slots, used, free, w, h);
    let ev = evictable_slots(slots, used);
    match model_alloc(free, w, h) {
        Some(_) => {
            assert(m.3 =~= ev.subrange(0, 0));
        },
        None => {
            let i = first_evictable(slots, used);
            if i < 0 || i >= slots.len() {
                assert(m.3 =~= ev.subrange(0, 0));
            } else {
                lemma_first_evictable_char(slots, used);
                lemma_evictable_first(slots, used);
                let rest = slots.remove(i);
                let free2 = free.push(slots[i].entry.alloc.rect);
                lemma_eviction_in_recency_order(rest, used, free2, w, h);
                let rec = model_insert(rest, used, free2, w, h);
                let evr = evictable_slots(rest, used);
                assert(rec.3 == evr.subrange(0, rec.3.len() as int));
                assert(evr == ev.subrange(1, ev.len() as int));
                assert(rec.3.len() <= evr.len());
                assert(m.3 == seq![slots[i]] + rec.3);
                assert forall|k: int| 0 <= k < m.3.len() implies m.3[k] == ev.subrange(
                    0,
                    m.3.len() as int,
                )[k] by {
                    if k == 0 {
                        assert(m.3[0] == slots[i]);
                        assert(ev[0] == slots[i]);
                    } else {
                        assert(m.3[k] == rec.3[k - 1]);
                        assert(rec.3[k - 1] == evr.subrange(0, rec.3.len() as int)[k - 1]);
                        assert(evr[k - 1] == ev[k]);
                    }
                }
                assert(m.3 =~= ev.subrange(0, m.3.len() as int));
            }
        },
    }
}

/// Invariant restoration for a cache hit: moving a slot to the end and
/// protecting its key preserves every invariant clause.
proof fn lemma_lookup_restores_inv(pre: GlyphCache, post: GlyphCache, key: GlyphKey, i: int)
    requires
        pre.inv(),
        0 <= i < pre.slots_seq().len(),
        pre.slots_seq()[i].key == key,
        post.spec_allocator() == pre.spec_allocator(),
        post.slots_seq() == pre.slots_seq().remove(i).push(pre.slots_seq()[i]),
        post.in_use_seq() == (if pre.in_use_seq().contains(key) {
            pre.in_use_seq()
        } else {
            pre.in_use_seq().push(key)
        }),
    ensures
        post.inv(),
{
    let s = pre.slots_seq();
    let t = post.slots_seq();
    let n = s.len();
    // Each new index maps to an old index.
    assert forall|k: int| 0 <= k < t.len() implies exists|m: int|
        0 <= m < n && #[trigger] t[k] == s[m] by {
        if k == n - 1 {
            assert(t[k] == s[i]);
        } else if k < i {
            assert(t[k] == s[k]);
        } else {
            assert(t[k] == s[k + 1]);
        }
    }
    // Distinctness of keys and allocations, via the index mapping.
    assert forall|p: int, q: int| 0 <= p < q < t.len() implies (#[trigger] t[p]).key != (
    #[trigger] t[q]).key && t[p].entry.alloc != t[q].entry.alloc by {
        let mp = if q == n - 1 {
            if p < i {
                p
            } else {
                p + 1
            }
        } else {
            if p < i {
                p
            } else {
                p + 1
            }
        };
        let mq = if q == n - 1 {
            i
        } else if q < i {
            q
        } else {
            q + 1
        };
        assert(t[p] == s[mp]);
        assert(t[q] == s[mq]);
        if mp < mq {
            assert(s[mp].key != s[mq].key && s[mp].entry.alloc != s[mq].entry.alloc);
        } else {
            assert(s[mq].key != s[mp].key && s[mq].entry.alloc != s[mp].entry.alloc);
        }
    }
    // Entries stay live and well-formed.
    assert forall|k: int| 0 <= k < t.len() implies pre.spec_allocator().live_seq().contains(
        (#[trigger] t[k]).entry.alloc,
    ) && entry_wf(t[k].entry) by {
        let m = choose|m: int| 0 <= m < n && t[k] == s[m];
        assert(pre.spec_allocator().live_seq().contains(s[m].entry.alloc));
    }
    // Every key of the old slots is still resident.
    assert forall|k: GlyphKey| pre.keys().contains(k) implies post.keys().contains(k) by {
        let m = choose|m: int| 0 <= m < pre.keys().len() && pre.keys()[m] == k;
        if m == i {
            assert(post.keys()[t.len() - 1] == k);
        } else if m < i {
            assert(t[m] == s[m]);
            assert(post.keys()[m] == k);
        } else {
            assert(t[m - 1] == s[m]);
            assert(post.keys()[m - 1] == k);
        }
    }
    // The protection set stays distinct and resident.
    if !pre.in_use_seq().contains(key) {
        let u = pre.in_use_seq();
        assert forall|p: int, q: int|
            0 <= p < q < post.in_use_seq().len() implies #[trigger] post.in_use_seq()[p]
            != #[trigger] post.in_use_seq()[q] by {
            if q == u.len() {
                assert(post.in_use_seq()[q] == key);
                assert(post.in_use_seq()[p] == u[p]);
                if u[p] == key {
                    assert(u.contains(key));
                }
            }
        }
    }
    assert forall|k: int| 0 <= k < post.in_use_seq().len() implies post.keys().contains(
        #[trigger] post.in_use_seq()[k],
    ) by {
        if k < pre.in_use_seq().len() {
            assert(pre.keys().contains(pre.in_use_seq()[k]));
        } else {
            assert(post.in_use_seq()[k] == key);
            assert(pre.keys()[i] == key);
            assert(pre.keys().contains(key));
        }
    }
}

} // verus!
