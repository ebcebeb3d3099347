//! Axis-aligned rectangles in atlas texture space, with the disjointness
//! and area bookkeeping the atlas space allocator is proved against.

use vstd::prelude::*;

verus! {

/// An axis-aligned rectangle with its origin at the top-left corner,
/// in texel coordinates of the atlas texture.
#[derive(Debug, Copy, Clone, PartialEq, Eq, Structural)]
pub struct Rect {
    pub x: u32,
    pub y: u32,
    pub width: u32,
    pub height: u32,
}

impl Rect {
    /// Area in texels.
    pub open spec fn area(self) -> int {
        self.width * self.height
    }

    /// The rectangle lies inside a `width` by `height` texture.
    pub open spec fn within(self, width: int, height: int) -> bool {
        self.x + self.width <= width && self.y + self.height <= height
    }

    /// No texel belongs to both rectangles.
    pub open spec fn disjoint(self, other: Rect) -> bool {
        ||| self.x + self.width <= other.x
        ||| other.x + other.width <= self.x
        ||| self.y + self.height <= other.y
        ||| other.y + other.height <= self.y
    }

    /// Every texel of `self` is a texel of `outer`.
    pub open spec fn contained_in(self, outer: Rect) -> bool {
        outer.x <= self.x && self.x + self.width <= outer.x + outer.width
            && outer.y <= self.y && self.y + self.height <= outer.y + outer.height
    }
}

/// A rectangle contained in one of two disjoint rectangles is disjoint
/// from the other.
pub proof fn lemma_contained_disjoint(inner: Rect, outer: Rect, other: Rect)
    requires
        inner.contained_in(outer),
        outer.disjoint(other),
    ensures
        inner.disjoint(other),
{
}

/// The rectangles of a sequence, pairwise disjoint.
pub open spec fn all_disjoint(s: Seq<Rect>) -> bool {
    forall|i: int, j: int| 0 <= i < j < s.len() ==> #[trigger] s[i].disjoint(#[trigger] s[j])
}

/// Every rectangle of `a` is disjoint from every rectangle of `b`.
pub open spec fn cross_disjoint(a: Seq<Rect>, b: Seq<Rect>) -> bool {
    forall|i: int, j: int|
        0 <= i < a.len() && 0 <= j < b.len() ==> #[trigger] a[i].disjoint(#[trigger] b[j])
}

/// Every rectangle of the sequence lies inside a `width` by `height` texture.
pub open spec fn all_within(s: Seq<Rect>, width: int, height: int) -> bool {
    forall|i: int| 0 <= i < s.len() ==> #[trigger] s[i].within(width, height)
}

/// Total area of a sequence of rectangles.
pub open spec fn area_sum(s: Seq<Rect>) -> int
    decreases s.len(),
{
    if s.len() == 0 {
        0
    } else {
        area_sum(s.drop_last()) + s.last().area()
    }
}

pub proof fn lemma_area_sum_push(s: Seq<Rect>, r: Rect)
    ensures
        area_sum(s.push(r)) == area_sum(s) + r.area(),
{
    assert(s.push(r).drop_last() =~= s);
}

pub proof fn lemma_area_sum_nonneg(s: Seq<Rect>)
    ensures
        area_sum(s) >= 0,
    decreases s.len(),
{
    if s.len() > 0 {
        lemma_area_sum_nonneg(s.drop_last());
    }
}

pub proof fn lemma_area_sum_remove(s: Seq<Rect>, i: int)
    requires
        0 <= i < s.len(),
    ensures
        area_sum(s.remove(i)) == area_sum(s) - s[i].area(),
    decreases s.len(),
{
    if i == s.len() - 1 {
        assert(s.remove(i) =~= s.drop_last());
    } else {
        assert(s.remove(i).drop_last() =~= s.drop_last().remove(i));
        lemma_area_sum_remove(s.drop_last(), i);
    }
}

/// Each element's area is at most the total.
pub proof fn lemma_area_sum_element(s: Seq<Rect>, i: int)
    requires
        0 <= i < s.len(),
    ensures
        s[i].area() <= area_sum(s),
{
    lemma_area_sum_remove(s, i);
    lemma_area_sum_nonneg(s.remove(i));
}

/// Removing an element keeps the remaining rectangles pairwise disjoint.
pub proof fn lemma_all_disjoint_remove(s: Seq<Rect>, i: int)
    requires
        all_disjoint(s),
        0 <= i < s.len(),
    ensures
        all_disjoint(s.remove(i)),
{
    let t = s.remove(i);
    assert forall|a: int, b: int| 0 <= a < b < t.len() implies #[trigger] t[a].disjoint(
        #[trigger] t[b],
    ) by {
        let sa = if a < i { a } else { a + 1 };
        let sb = if b < i { b } else { b + 1 };
        assert(t[a] == s[sa]);
        assert(t[b] == s[sb]);
    }
}

/// Every element of `s.remove(i)` is an element of `s`.
pub proof fn lemma_remove_is_subset(s: Seq<Rect>, i: int, k: int)
    requires
        0 <= i < s.len(),
        0 <= k < s.len() - 1,
    ensures
        exists|j: int| 0 <= j < s.len() && j != i && s.remove(i)[k] == #[trigger] s[j],
{
    let j = if k < i { k } else { k + 1 };
    assert(s.remove(i)[k] == s[j]);
}

} // verus!
