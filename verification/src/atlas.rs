//! The atlas space allocator: first-fit rectangle allocation with guillotine
//! splitting over a fixed-size texture, and exact free-space accounting.
//!
//! Every requested rectangle is padded by [`BORDER_PADDING`] texels on all
//! sides so that bilinear filtering cannot bleed between neighboring glyphs.
//! Failure to allocate has no side effects: it is the signal that drives the
//! glyph cache's eviction loop, not an error.

use vstd::prelude::*;
use crate::rect::{
    Rect, all_disjoint, all_within, area_sum, cross_disjoint, lemma_all_disjoint_remove,
    lemma_area_sum_element, lemma_area_sum_nonneg, lemma_area_sum_push, lemma_area_sum_remove,
    lemma_contained_disjoint, lemma_remove_is_subset,
};

verus! {

/// Border added around each requested rectangle, in texels, on every side.
pub const BORDER_PADDING: u32 = 2;

/// The extent of a requested rectangle once the border is added on both sides.
pub open spec fn padded(extent: int) -> int {
    extent + 2 * BORDER_PADDING
}

/// A rectangle reserved inside the atlas texture. The stored rectangle is the
/// padded one; the allocation value itself is the handle handed back to
/// [`AtlasAllocator::free`]. Live allocations have pairwise disjoint, positive
/// rectangles, so the rectangle identifies the allocation.
#[derive(Debug, Copy, Clone, PartialEq, Eq, Structural)]
pub struct AtlasAllocation {
    pub rect: Rect,
}

/// Does a free rectangle have room for a `pw` by `ph` padded request?
pub open spec fn fits(r: Rect, pw: int, ph: int) -> bool {
    pw <= r.width && ph <= r.height
}

/// Index of the first free rectangle that fits, or -1 when none does.
pub open spec fn find_fit(free: Seq<Rect>, pw: int, ph: int) -> int
    decreases free.len(),
{
    if free.len() == 0 {
        -1
    } else if fits(free[0], pw, ph) {
        0
    } else {
        let rest = find_fit(free.subrange(1, free.len() as int), pw, ph);
        if rest < 0 {
            -1
        } else {
            rest + 1
        }
    }
}

pub proof fn lemma_find_fit_char(free: Seq<Rect>, pw: int, ph: int)
    ensures
        find_fit(free, pw, ph) == -1 || 0 <= find_fit(free, pw, ph) < free.len(),
        find_fit(free, pw, ph) >= 0 ==> fits(free[find_fit(free, pw, ph)], pw, ph),
        forall|j: int|
            0 <= j < find_fit(free, pw, ph) ==> !fits(#[trigger] free[j], pw, ph),
        find_fit(free, pw, ph) == -1 ==> forall|j: int|
            0 <= j < free.len() ==> !fits(#[trigger] free[j], pw, ph),
    decreases free.len(),
{
    if free.len() > 0 && !fits(free[0], pw, ph) {
        let rest = free.subrange(1, free.len() as int);
        lemma_find_fit_char(rest, pw, ph);
        let ff = find_fit(free, pw, ph);
        let rf = find_fit(rest, pw, ph);
        if rf < 0 {
            assert forall|j: int| 0 <= j < free.len() implies !fits(
                #[trigger] free[j],
                pw,
                ph,
            ) by {
                if j > 0 {
                    assert(free[j] == rest[j - 1]);
                    assert(!fits(rest[j - 1], pw, ph));
                }
            }
        } else {
            assert(ff == rf + 1);
            assert(free[ff] == rest[rf]);
            assert forall|j: int| 0 <= j < ff implies !fits(#[trigger] free[j], pw, ph) by {
                if j > 0 {
                    assert(free[j] == rest[j - 1]);
                    assert(!fits(rest[j - 1], pw, ph));
                }
            }
        }
    }
}

/// The outcome of one allocation on the free list alone: the new free list
/// and the reserved (padded) rectangle. The chosen free rectangle is removed
/// and the two guillotine remainders (right of the reservation, and the full-
/// width strip below it) are kept when they are not empty.
pub open spec fn model_alloc(free: Seq<Rect>, w: u32, h: u32) -> Option<(Seq<Rect>, Rect)> {
    if w < 1 || h < 1 {
        None
    } else {
        let pw = padded(w as int);
        let ph = padded(h as int);
        let i = find_fit(free, pw, ph);
        if i < 0 {
            None
        } else {
            let f = free[i];
            let a = Rect { x: f.x, y: f.y, width: pw as u32, height: ph as u32 };
            let r1 = Rect {
                x: (f.x + pw) as u32,
                y: f.y,
                width: (f.width - pw) as u32,
                height: ph as u32,
            };
            let r2 = Rect {
                x: f.x,
                y: (f.y + ph) as u32,
                width: f.width,
                height: (f.height - ph) as u32,
            };
            let free1 = free.remove(i);
            let free2 = if r1.width > 0 {
                free1.push(r1)
            } else {
                free1
            };
            let free3 = if r2.height > 0 {
                free2.push(r2)
            } else {
                free2
            };
            Some((free3, a))
        }
    }
}

/// A 2D rectangle allocator over a fixed-size texture.
pub struct AtlasAllocator {
    width: u32,
    height: u32,
    free: Vec<Rect>,
    live: Vec<AtlasAllocation>,
    free_area: u64,
}

impl AtlasAllocator {
    /// Atlas texture width in texels.
    pub closed spec fn spec_width(self) -> u32 {
        self.width
    }

    /// Atlas texture height in texels.
    pub closed spec fn spec_height(self) -> u32 {
        self.height
    }

    /// The free rectangles, in first-fit search order.
    pub closed spec fn free_seq(self) -> Seq<Rect> {
        self.free@
    }

    /// The live allocations, in allocation order.
    pub closed spec fn live_seq(self) -> Seq<AtlasAllocation> {
        self.live@
    }

    /// The rectangles of the live allocations.
    pub open spec fn live_rects(self) -> Seq<Rect> {
        self.live_seq().map_values(|a: AtlasAllocation| a.rect)
    }

    /// Total area of the free rectangles, in texels.
    pub open spec fn spec_free_space(self) -> int {
        area_sum(self.free_seq())
    }

    /// Structural invariant: free and live rectangles tile the atlas without
    /// overlap and the cached free-area count is exact.
    pub closed spec fn inv(self) -> bool {
        &&& all_within(self.free@, self.width as int, self.height as int)
        &&& all_within(self.live_rects(), self.width as int, self.height as int)
        &&& all_disjoint(self.free@)
        &&& all_disjoint(self.live_rects())
        &&& cross_disjoint(self.free@, self.live_rects())
        &&& forall|i: int|
            0 <= i < self.free@.len() ==> (#[trigger] self.free@[i]).width >= 1
                && self.free@[i].height >= 1
        &&& forall|i: int|
            0 <= i < self.live_rects().len() ==> (#[trigger] self.live_rects()[i]).width > 2
                * BORDER_PADDING && self.live_rects()[i].height > 2 * BORDER_PADDING
        &&& self.free_area == area_sum(self.free@)
        &&& area_sum(self.free@) + area_sum(self.live_rects()) == self.width * self.height
    }

    /// What the invariant guarantees, for callers that keep `inv` abstract.
    pub proof fn lemma_inv_properties(self)
        requires
            self.inv(),
        ensures
            all_disjoint(self.live_rects()),
            all_disjoint(self.free_seq()),
            cross_disjoint(self.free_seq(), self.live_rects()),
            all_within(self.live_rects(), self.spec_width() as int, self.spec_height() as int),
            all_within(self.free_seq(), self.spec_width() as int, self.spec_height() as int),
            area_sum(self.free_seq()) + area_sum(self.live_rects()) == self.spec_width()
                * self.spec_height(),
            forall|i: int|
                0 <= i < self.live_rects().len() ==> (#[trigger] self.live_rects()[i]).width > 2
                    * BORDER_PADDING && self.live_rects()[i].height > 2 * BORDER_PADDING,
    {
    }

    /// A fresh allocator whose whole `width` by `height` texture is free.
    pub fn new(width: u32, height: u32) -> (a: AtlasAllocator)
        requires
            width >= 1,
            height >= 1,
        ensures
            a.inv(),
            a.spec_width() == width,
            a.spec_height() == height,
            a.live_seq() == Seq::<AtlasAllocation>::empty(),
            a.free_seq() == seq![Rect { x: 0, y: 0, width, height }],
            a.spec_free_space() == width * height,
    {
        proof {
            assert((width as int) * (height as int) <= u64::MAX) by (nonlinear_arith)
                requires
                    width <= u32::MAX,
                    height <= u32::MAX,
            ;
        }
        let full = Rect { x: 0, y: 0, width, height };
        let mut free: Vec<Rect> = Vec::new();
        free.push(full);
        let a = AtlasAllocator {
            width,
            height,
            free,
            live: Vec::new(),
            free_area: width as u64 * height as u64,
        };
        proof {
            assert(a.free@ =~= seq![full]);
            assert(a.free@.drop_last() =~= Seq::<Rect>::empty());
            assert(a.live_rects() =~= Seq::<Rect>::empty());
            assert(area_sum(Seq::<Rect>::empty()) == 0);
            assert(area_sum(a.free@) == full.area());
            assert(area_sum(a.live_rects()) == 0);
            assert(full.within(width as int, height as int));
            assert(a.free_seq() == seq![Rect { x: 0, y: 0, width, height }]);
        }
        a
    }

    /// Atlas texture width in texels.
    pub fn width(&self) -> (w: u32)
        ensures
            w == self.spec_width(),
    {
        self.width
    }

    /// Atlas texture height in texels.
    pub fn height(&self) -> (h: u32)
        ensures
            h == self.spec_height(),
    {
        self.height
    }

    /// Total free area left, in texels. Fragmentation can make an allocation
    /// fail even when this is large.
    pub fn free_space(&self) -> (r: u64)
        requires
            self.inv(),
        ensures
            r == self.spec_free_space(),
    {
        self.free_area
    }

    /// Reserve space for a `w` by `h` rectangle (padded on all sides by
    /// [`BORDER_PADDING`]). Returns `None`, changing nothing, exactly when no
    /// free rectangle has room for the padded request.
    pub fn allocate(&mut self, w: u32, h: u32) -> (r: Option<AtlasAllocation>)
        requires
            old(self).inv(),
        ensures
            final(self).inv(),
            final(self).spec_width() == old(self).spec_width(),
            final(self).spec_height() == old(self).spec_height(),
            match model_alloc(old(self).free_seq(), w, h) {
                None => r is None && *final(self) == *old(self),
                Some((new_free, rect)) => {
                    &&& r == Some(AtlasAllocation { rect })
                    &&& final(self).free_seq() == new_free
                    &&& final(self).live_seq() == old(self).live_seq().push(
                        AtlasAllocation { rect },
                    )
                },
            },
            (r is Some) <==> (w >= 1 && h >= 1 && exists|i: int|
                0 <= i < old(self).free_seq().len() && fits(
                    #[trigger] old(self).free_seq()[i],
                    padded(w as int),
                    padded(h as int),
                )),
            r matches Some(a) ==> {
                &&& a.rect.width == padded(w as int)
                &&& a.rect.height == padded(h as int)
                &&& a.rect.within(old(self).spec_width() as int, old(self).spec_height() as int)
                &&& forall|j: int|
                    0 <= j < old(self).live_rects().len() ==> a.rect.disjoint(
                        #[trigger] old(self).live_rects()[j],
                    )
                &&& final(self).spec_free_space() == old(self).spec_free_space() - a.rect.area()
            },
    {
        proof {
            lemma_find_fit_char(self.free@, padded(w as int), padded(h as int));
        }
        if w == 0 || h == 0 {
            return None;
        }
        if w > u32::MAX - 2 * BORDER_PADDING || h > u32::MAX - 2 * BORDER_PADDING {
            // The padded extent exceeds any possible free rectangle.
            return None;
        }
        let pw = w + 2 * BORDER_PADDING;
        let ph = h + 2 * BORDER_PADDING;

        let mut i: usize = 0;
        let ghost gpw = padded(w as int);
        let ghost gph = padded(h as int);
        loop
            invariant
                self == old(self),
                self.inv(),
                i <= self.free@.len(),
                pw == gpw,
                ph == gph,
                gpw == padded(w as int),
                gph == padded(h as int),
                forall|j: int| 0 <= j < i ==> !fits(#[trigger] self.free@[j], gpw, gph),
            ensures
                self == old(self),
                i <= self.free@.len(),
                i < self.free@.len() ==> fits(self.free@[i as int], gpw, gph),
                i == self.free@.len() ==> forall|j: int|
                    0 <= j < self.free@.len() ==> !fits(#[trigger] self.free@[j], gpw, gph),
            decreases self.free@.len() - i,
        {
            if i >= self.free.len() {
                break;
            }
            let c = self.free[i];
            if pw <= c.width && ph <= c.height {
                break;
            }
            i = i + 1;
        }

        proof {
            lemma_find_fit_char(self.free@, gpw, gph);
        }
        if i == self.free.len() {
            assert(find_fit(self.free@, gpw, gph) == -1);
            return None;
        }

        let ghost gi = i as int;
        assert(find_fit(self.free@, gpw, gph) == gi);
        assert(self.free@[gi].within(self.width as int, self.height as int));

        let f = self.free[i];
        let a_rect = Rect { x: f.x, y: f.y, width: pw, height: ph };
        let r1_width = f.width - pw;
        let r2_height = f.height - ph;

        let ghost old_free = self.free@;
        let ghost old_live_rects = self.live_rects();

        proof {
            lemma_area_sum_remove(old_free, gi);
            lemma_area_sum_nonneg(old_free.remove(gi));
            lemma_area_sum_element(old_free, gi);
            assert(a_rect.area() + (r1_width as int) * (gph as int) + (f.width as int) * (
            r2_height as int) == f.area()) by (nonlinear_arith)
                requires
                    a_rect.width == gpw,
                    a_rect.height == gph,
                    r1_width == f.width - gpw,
                    r2_height == f.height - gph,
                    gpw <= f.width,
                    gph <= f.height,
            ;
            assert(a_rect.area() <= f.area()) by (nonlinear_arith)
                requires
                    a_rect.width == gpw,
                    a_rect.height == gph,
                    gpw <= f.width,
                    gph <= f.height,
                    gpw >= 0,
                    gph >= 0,
            ;
        }

        self.free.remove(i);
        if r1_width > 0 {
            self.free.push(
                Rect { x: f.x + pw, y: f.y, width: r1_width, height: ph },
            );
        }
        if r2_height > 0 {
            self.free.push(
                Rect { x: f.x, y: f.y + ph, width: f.width, height: r2_height },
            );
        }
        let area = pw as u64 * ph as u64;
        proof {
            assert(area == a_rect.area());
            assert(self.free_area >= area);
        }
        self.free_area = self.free_area - area;
        self.live.push(AtlasAllocation { rect: a_rect });

        proof {
            self.lemma_allocate_restores_inv(*old(self), f, gi, a_rect, r1_width, r2_height);
        }
        Some(AtlasAllocation { rect: a_rect })
    }

    /// Invariant restoration for `allocate`, plus the facts its `ensures`
    /// states about the new allocation.
    proof fn lemma_allocate_restores_inv(
        self,
        pre: AtlasAllocator,
        f: Rect,
        i: int,
        a_rect: Rect,
        r1_width: u32,
        r2_height: u32,
    )
        requires
            pre.inv(),
            0 <= i < pre.free@.len(),
            f == pre.free@[i],
            a_rect.x == f.x,
            a_rect.y == f.y,
            a_rect.width >= 1 + 2 * BORDER_PADDING,
            a_rect.height >= 1 + 2 * BORDER_PADDING,
            a_rect.width <= f.width,
            a_rect.height <= f.height,
            r1_width == f.width - a_rect.width,
            r2_height == f.height - a_rect.height,
            self.width == pre.width,
            self.height == pre.height,
            self.free@ == {
                let free1 = pre.free@.remove(i);
                let free2 = if r1_width > 0 {
                    free1.push(
                        Rect {
                            x: (f.x + a_rect.width) as u32,
                            y: f.y,
                            width: r1_width,
                            height: a_rect.height,
                        },
                    )
                } else {
                    free1
                };
                if r2_height > 0 {
                    free2.push(
                        Rect {
                            x: f.x,
                            y: (f.y + a_rect.height) as u32,
                            width: f.width,
                            height: r2_height,
                        },
                    )
                } else {
                    free2
                }
            },
            self.live@ == pre.live@.push(AtlasAllocation { rect: a_rect }),
            self.free_area == pre.free_area - a_rect.area(),
        ensures
            self.inv(),
            a_rect.within(pre.width as int, pre.height as int),
            forall|j: int|
                0 <= j < pre.live_rects().len() ==> a_rect.disjoint(
                    #[trigger] pre.live_rects()[j],
                ),
            area_sum(self.free@) == area_sum(pre.free@) - a_rect.area(),
    {
        let pw = a_rect.width as int;
        let ph = a_rect.height as int;
        let r1 = Rect { x: (f.x + a_rect.width) as u32, y: f.y, width: r1_width, height: a_rect.height };
        let r2 = Rect { x: f.x, y: (f.y + a_rect.height) as u32, width: f.width, height: r2_height };
        let free1 = pre.free@.remove(i);

        // Containment in the atlas, so the piece coordinates do not wrap.
        assert(f.within(pre.width as int, pre.height as int));
        assert(f.x + a_rect.width <= u32::MAX && f.y + a_rect.height <= u32::MAX);

        // The three pieces are contained in the chosen free rectangle.
        assert(a_rect.contained_in(f));
        assert(r1.contained_in(f));
        assert(r2.contained_in(f));

        // Containment in the atlas.
        assert(f.within(pre.width as int, pre.height as int));

        // Everything previously disjoint from f is disjoint from the pieces.
        assert forall|k: int| 0 <= k < free1.len() implies f.disjoint(#[trigger] free1[k]) by {
            lemma_remove_is_subset(pre.free@, i, k);
            let j = choose|j: int|
                0 <= j < pre.free@.len() && j != i && free1[k] == #[trigger] pre.free@[j];
            assert(pre.free@[i].disjoint(pre.free@[j]) || pre.free@[j].disjoint(pre.free@[i]));
        }
        assert forall|k: int| 0 <= k < pre.live_rects().len() implies f.disjoint(
            #[trigger] pre.live_rects()[k],
        ) by {
            assert(cross_disjoint(pre.free@, pre.live_rects()));
        }

        // Pairwise disjointness of the remaining free rectangles.
        lemma_all_disjoint_remove(pre.free@, i);

        assert forall|j: int|
            0 <= j < pre.live_rects().len() implies a_rect.disjoint(
            #[trigger] pre.live_rects()[j],
        ) by {
            lemma_contained_disjoint(a_rect, f, pre.live_rects()[j]);
        }

        // The new free list: check each clause of the invariant.
        let newf = self.free@;
        assert forall|k: int| 0 <= k < newf.len() implies (#[trigger] newf[k]).within(
            self.width as int,
            self.height as int,
        ) && newf[k].width >= 1 && newf[k].height >= 1 by {
            if k < free1.len() {
                assert(newf[k] == free1[k]);
                lemma_remove_is_subset(pre.free@, i, k);
            }
        }
        assert(all_disjoint(newf)) by {
            assert forall|p: int, q: int| 0 <= p < q < newf.len() implies (
            #[trigger] newf[p]).disjoint(#[trigger] newf[q]) by {
                if q < free1.len() {
                    assert(all_disjoint(free1));
                } else {
                    // q is r1 or r2; p is an old rectangle, r1, or both pushes.
                    if p < free1.len() {
                        lemma_contained_disjoint(newf[q], f, free1[p]);
                    } else {
                        // p == r1, q == r2: they are disjoint by coordinates.
                        assert(newf[p] == r1 && newf[q] == r2);
                    }
                }
            }
        }
        let newlive = self.live_rects();
        assert(newlive =~= pre.live_rects().push(a_rect));
        assert(all_disjoint(newlive)) by {
            assert forall|p: int, q: int| 0 <= p < q < newlive.len() implies (
            #[trigger] newlive[p]).disjoint(#[trigger] newlive[q]) by {
                if q < pre.live_rects().len() {
                    assert(all_disjoint(pre.live_rects()));
                } else {
                    assert(newlive[q] == a_rect);
                    lemma_contained_disjoint(a_rect, f, pre.live_rects()[p]);
                    assert(a_rect.disjoint(newlive[p]));
                }
            }
        }
        assert(cross_disjoint(newf, newlive)) by {
            assert forall|p: int, q: int|
                0 <= p < newf.len() && 0 <= q < newlive.len() implies (
            #[trigger] newf[p]).disjoint(#[trigger] newlive[q]) by {
                let fr = newf[p];
                let lr = newlive[q];
                if q < pre.live_rects().len() {
                    if p < free1.len() {
                        lemma_remove_is_subset(pre.free@, i, p);
                        assert(cross_disjoint(pre.free@, pre.live_rects()));
                    } else {
                        lemma_contained_disjoint(fr, f, pre.live_rects()[q]);
                    }
                } else {
                    assert(lr == a_rect);
                    if p < free1.len() {
                        lemma_contained_disjoint(a_rect, f, free1[p]);
                        assert(fr.disjoint(a_rect) || a_rect.disjoint(fr));
                    } else {
                        assert(fr == r1 || fr == r2);
                    }
                }
            }
        }
        assert forall|k: int| 0 <= k < newlive.len() implies (#[trigger] newlive[k]).within(
            self.width as int,
            self.height as int,
        ) && newlive[k].width > 2 * BORDER_PADDING && newlive[k].height > 2 * BORDER_PADDING by {
            if k < pre.live_rects().len() {
                assert(pre.live_rects()[k].within(pre.width as int, pre.height as int));
            }
        }

        // Area accounting.
        lemma_area_sum_remove(pre.free@, i);
        assert(a_rect.area() + r1.area() + r2.area() == f.area()) by (nonlinear_arith)
            requires
                a_rect.width == pw,
                a_rect.height == ph,
                r1.width == f.width - pw,
                r1.height == ph,
                r2.width == f.width,
                r2.height == f.height - ph,
                pw <= f.width,
                ph <= f.height,
        ;
        if r1_width > 0 {
            lemma_area_sum_push(free1, r1);
        } else {
            let w1 = r1.width as int;
            let h1 = r1.height as int;
            assert(w1 * h1 == 0) by (nonlinear_arith)
                requires
                    w1 == 0,
            ;
            assert(r1.area() == 0);
        }
        let free2 = if r1_width > 0 {
            free1.push(r1)
        } else {
            free1
        };
        if r2_height > 0 {
            lemma_area_sum_push(free2, r2);
        } else {
            let w2 = r2.width as int;
            let h2 = r2.height as int;
            assert(w2 * h2 == 0) by (nonlinear_arith)
                requires
                    h2 == 0,
            ;
            assert(r2.area() == 0);
        }
        assert(area_sum(newf) == area_sum(pre.free@) - a_rect.area());
        lemma_area_sum_push(pre.live_rects(), a_rect);
        assert(area_sum(newlive) == area_sum(pre.live_rects()) + a_rect.area());
    }

    /// Law: across any sequence of allocate and free calls, live allocations
    /// are pairwise non-overlapping, border padding included.
    pub proof fn lemma_live_allocations_disjoint(self, i: int, j: int)
        requires
            self.inv(),
            0 <= i < self.live_seq().len(),
            0 <= j < self.live_seq().len(),
            i != j,
        ensures
            self.live_seq()[i].rect.disjoint(self.live_seq()[j].rect),
    {
        assert(self.live_rects()[i] == self.live_seq()[i].rect);
        assert(self.live_rects()[j] == self.live_seq()[j].rect);
        if i < j {
            assert(all_disjoint(self.live_rects()));
            assert(self.live_rects()[i].disjoint(self.live_rects()[j]));
        } else {
            assert(all_disjoint(self.live_rects()));
            assert(self.live_rects()[j].disjoint(self.live_rects()[i]));
        }
    }

    /// Law: once every allocation has been freed, the free space equals the
    /// whole atlas area again.
    pub proof fn lemma_empty_allocator_is_all_free(self)
        requires
            self.inv(),
            self.live_seq().len() == 0,
        ensures
            self.spec_free_space() == self.spec_width() * self.spec_height(),
    {
        assert(self.live_rects() =~= Seq::<Rect>::empty());
        assert(area_sum(Seq::<Rect>::empty()) == 0);
    }

    /// Return an allocation's rectangle to the free list. The allocation must
    /// be live; it stops being live, and its whole padded area is free again.
    pub fn free(&mut self, allocation: AtlasAllocation)
        requires
            old(self).inv(),
            old(self).live_seq().contains(allocation),
        ensures
            final(self).inv(),
            final(self).spec_width() == old(self).spec_width(),
            final(self).spec_height() == old(self).spec_height(),
            final(self).free_seq() == old(self).free_seq().push(allocation.rect),
            exists|i: int|
                0 <= i < old(self).live_seq().len() && old(self).live_seq()[i] == allocation
                    && final(self).live_seq() == old(self).live_seq().remove(i),
            final(self).spec_free_space() == old(self).spec_free_space()
                + allocation.rect.area(),
    {
        let n = self.live.len();
        let mut i: usize = 0;
        loop
            invariant
                self == old(self),
                self.inv(),
                n == self.live@.len(),
                i <= n,
                self.live@.contains(allocation),
                forall|j: int| 0 <= j < i ==> self.live@[j] != allocation,
            ensures
                self == old(self),
                i < self.live@.len(),
                self.live@[i as int] == allocation,
            decreases n - i,
        {
            if i >= n {
                proof {
                    let w = choose|w: int|
                        0 <= w < self.live@.len() && self.live@[w] == allocation;
                    assert(self.live@[w] != allocation);
                }
                // Unreachable: the allocation is live.
                assert(false);
            }
            if self.live[i] == allocation {
                break;
            }
            i = i + 1;
        }

        let ghost gi = i as int;
        let ghost pre = *self;

        proof {
            // The freed rectangle's area fits in the free-area counter.
            lemma_area_sum_element(pre.live_rects(), gi);
            lemma_area_sum_nonneg(pre.free@);
            assert(pre.live_rects()[gi] == allocation.rect);
            assert((pre.width as int) * (pre.height as int) <= u64::MAX) by (nonlinear_arith)
                requires
                    pre.width <= u32::MAX,
                    pre.height <= u32::MAX,
            ;
        }

        self.live.remove(i);
        self.free.push(allocation.rect);
        let area = allocation.rect.width as u64 * allocation.rect.height as u64;
        self.free_area = self.free_area + area;

        proof {
            let newlive = self.live_rects();
            let oldlive = pre.live_rects();
            assert(newlive =~= oldlive.remove(gi));
            lemma_area_sum_remove(oldlive, gi);
            lemma_area_sum_push(pre.free@, allocation.rect);

            // Disjointness and containment survive removal and the push.
            assert forall|p: int, q: int| 0 <= p < q < newlive.len() implies (
            #[trigger] newlive[p]).disjoint(#[trigger] newlive[q]) by {
                let sp = if p < gi { p } else { p + 1 };
                let sq = if q < gi { q } else { q + 1 };
                assert(newlive[p] == oldlive[sp]);
                assert(newlive[q] == oldlive[sq]);
                assert(all_disjoint(oldlive));
            }
            let newf = self.free@;
            assert forall|p: int, q: int| 0 <= p < q < newf.len() implies (
            #[trigger] newf[p]).disjoint(#[trigger] newf[q]) by {
                if q < pre.free@.len() {
                    assert(all_disjoint(pre.free@));
                } else {
                    assert(newf[q] == allocation.rect);
                    assert(cross_disjoint(pre.free@, oldlive));
                    assert(pre.free@[p].disjoint(oldlive[gi]));
                }
            }
            assert forall|p: int, q: int|
                0 <= p < newf.len() && 0 <= q < newlive.len() implies (
            #[trigger] newf[p]).disjoint(#[trigger] newlive[q]) by {
                let sq = if q < gi { q } else { q + 1 };
                assert(newlive[q] == oldlive[sq]);
                if p < pre.free@.len() {
                    assert(cross_disjoint(pre.free@, oldlive));
                } else {
                    assert(newf[p] == allocation.rect);
                    assert(all_disjoint(oldlive));
                    assert(oldlive[gi].disjoint(oldlive[sq]) || oldlive[sq].disjoint(
                        oldlive[gi],
                    ));
                }
            }
            assert forall|k: int| 0 <= k < newf.len() implies (#[trigger] newf[k]).within(
                self.width as int,
                self.height as int,
            ) && newf[k].width >= 1 && newf[k].height >= 1 by {
                if k < pre.free@.len() {
                } else {
                    assert(newf[k] == allocation.rect);
                    assert(oldlive[gi].within(pre.width as int, pre.height as int));
                    assert(oldlive[gi].width > 2 * BORDER_PADDING);
                }
            }
            assert forall|k: int| 0 <= k < newlive.len() implies (#[trigger] newlive[k]).within(
                self.width as int,
                self.height as int,
            ) && newlive[k].width > 2 * BORDER_PADDING && newlive[k].height > 2 * BORDER_PADDING by {
                let sk = if k < gi { k } else { k + 1 };
                assert(newlive[k] == oldlive[sk]);
            }
        }
    }
}

} // verus!
