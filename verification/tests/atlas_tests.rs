use simple_game::atlas::{AtlasAllocation, AtlasAllocator, BORDER_PADDING};

fn overlaps(a: &AtlasAllocation, b: &AtlasAllocation) -> bool {
    let (ax0, ay0) = (a.rect.x, a.rect.y);
    let (ax1, ay1) = (a.rect.x + a.rect.width, a.rect.y + a.rect.height);
    let (bx0, by0) = (b.rect.x, b.rect.y);
    let (bx1, by1) = (b.rect.x + b.rect.width, b.rect.y + b.rect.height);
    ax0 < bx1 && bx0 < ax1 && ay0 < by1 && by0 < ay1
}

#[test]
fn fresh_allocator_is_all_free() {
    let a = AtlasAllocator::new(100, 50);
    assert_eq!(a.free_space(), 5000);
}

#[test]
fn padding_constant_is_two_texels() {
    assert_eq!(BORDER_PADDING, 2);
}

#[test]
fn allocation_is_padded_on_all_sides() {
    let mut a = AtlasAllocator::new(100, 100);
    let r = a.allocate(6, 6).unwrap();
    // 2 texels of border on each side.
    assert_eq!(r.rect.width, 10);
    assert_eq!(r.rect.height, 10);
    assert_eq!(a.free_space(), 10000 - 100);
}

#[test]
fn allocations_never_overlap() {
    // Live allocations stay pairwise disjoint, padding included, across
    // interleaved allocate and free calls.
    let mut a = AtlasAllocator::new(64, 64);
    let mut live: Vec<AtlasAllocation> = Vec::new();
    for i in 0..4 {
        live.push(a.allocate(8 + i, 4).unwrap());
    }
    let freed = live.remove(1);
    a.free(freed);
    live.push(a.allocate(3, 3).unwrap());
    live.push(a.allocate(5, 9).unwrap());
    for i in 0..live.len() {
        for j in 0..live.len() {
            if i != j {
                assert!(!overlaps(&live[i], &live[j]));
            }
        }
    }
}

#[test]
fn freeing_everything_restores_the_whole_area() {
    let mut a = AtlasAllocator::new(128, 128);
    let mut live = Vec::new();
    for _ in 0..5 {
        live.push(a.allocate(10, 7).unwrap());
    }
    assert!(a.free_space() < 128 * 128);
    for alloc in live {
        a.free(alloc);
    }
    assert_eq!(a.free_space(), 128 * 128);
}

#[test]
fn free_returns_exactly_the_padded_area() {
    let mut a = AtlasAllocator::new(100, 100);
    let r = a.allocate(6, 16).unwrap();
    let before = a.free_space();
    a.free(r);
    assert_eq!(a.free_space(), before + 10 * 20);
}

#[test]
fn failure_has_no_side_effects() {
    let mut a = AtlasAllocator::new(20, 20);
    let first = a.allocate(16, 16);
    assert!(first.is_some());
    let space = a.free_space();
    // No room left for another padded rectangle of this size.
    assert!(a.allocate(16, 16).is_none());
    assert_eq!(a.free_space(), space);
}

#[test]
fn zero_sized_requests_are_refused() {
    let mut a = AtlasAllocator::new(50, 50);
    assert!(a.allocate(0, 5).is_none());
    assert!(a.allocate(5, 0).is_none());
    assert_eq!(a.free_space(), 2500);
}

#[test]
fn oversized_requests_are_refused() {
    let mut a = AtlasAllocator::new(50, 50);
    // 47 + 4 texels of padding exceeds the 50-texel extent.
    assert!(a.allocate(47, 10).is_none());
    assert!(a.allocate(10, 47).is_none());
    assert!(a.allocate(46, 46).is_some());
}

#[test]
fn fragmentation_can_refuse_despite_free_space() {
    let mut a = AtlasAllocator::new(20, 20);
    let r = a.allocate(12, 12).unwrap();
    // 144 texels are free, but in two thin strips: no 10 by 10 rectangle.
    assert_eq!(a.free_space(), 144);
    assert!(a.allocate(6, 6).is_none());
    a.free(r);
    assert!(a.allocate(6, 6).is_some());
}
