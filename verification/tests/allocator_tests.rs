//! Unit and byte-range allocator behaviour: round trips, uniqueness,
//! alignment, and the segment tree's cached-bit consistency.

use kernel_rt::allocator::{Allocator, VectorAllocator};
use kernel_rt::allocator::bitmap_vector_allocator::BitmapVectorAllocator;
use kernel_rt::allocator::segtree_allocator::SegmentTreeAllocator;
use kernel_rt::allocator::stacked_allocator::StackedAllocator;

fn drain<A: Allocator>(a: &mut A, capacity: usize) -> Vec<usize> {
    let mut seen = vec![false; capacity];
    let mut order = Vec::new();
    for _ in 0..capacity {
        let i = a.allocate().expect("a free unit must exist");
        assert!(i < capacity, "unit out of range: {}", i);
        assert!(!seen[i], "unit {} handed out twice", i);
        seen[i] = true;
        order.push(i);
    }
    assert_eq!(a.allocate(), None, "allocator must be exhausted");
    order
}

#[test]
fn stacked_allocator_round_trip() {
    let mut a = StackedAllocator::new(4);
    let first = drain(&mut a, 4);
    for &i in &first {
        a.dealloc(i);
    }
    drain(&mut a, 4);
}

#[test]
fn stacked_allocator_pops_ranges_in_order() {
    // A fresh allocator holds one range; units come off its front.
    let mut a = StackedAllocator::new(3);
    assert_eq!(a.allocate(), Some(0));
    assert_eq!(a.allocate(), Some(1));
    assert_eq!(a.allocate(), Some(2));
    assert_eq!(a.allocate(), None);
}

#[test]
fn stacked_allocator_prefers_most_recently_freed() {
    let mut a = StackedAllocator::new(8);
    let x = a.allocate().unwrap();
    let y = a.allocate().unwrap();
    a.dealloc(x);
    a.dealloc(y);
    assert_eq!(a.allocate(), Some(y));
    assert_eq!(a.allocate(), Some(x));
}

#[test]
fn stacked_allocator_zero_capacity() {
    let mut a = StackedAllocator::new(0);
    assert_eq!(a.allocate(), None);
}

#[test]
fn segtree_allocator_round_trip_with_padding() {
    // 5 units pad out to 8 leaves; the padding must never be handed out.
    let mut a = SegmentTreeAllocator::new(5);
    let first = drain(&mut a, 5);
    for &i in &first {
        a.dealloc(i);
    }
    drain(&mut a, 5);
}

#[test]
fn segtree_allocator_prefers_left() {
    let mut a = SegmentTreeAllocator::new(4);
    assert_eq!(a.allocate(), Some(0));
    assert_eq!(a.allocate(), Some(1));
    assert_eq!(a.allocate(), Some(2));
    assert_eq!(a.allocate(), Some(3));
    a.dealloc(1);
    assert_eq!(a.allocate(), Some(1));
}

#[test]
fn segtree_allocator_returns_the_minimum_free_unit() {
    let mut a = SegmentTreeAllocator::new(6);
    for expected in 0..6 {
        assert_eq!(a.allocate(), Some(expected));
    }
    a.dealloc(4);
    a.dealloc(2);
    a.dealloc(5);
    assert_eq!(a.allocate(), Some(2));
    assert_eq!(a.allocate(), Some(4));
    assert_eq!(a.allocate(), Some(5));
}

#[test]
fn segtree_allocator_pads_to_a_power_of_two() {
    let a = SegmentTreeAllocator::new(6);
    assert_eq!(a.leaf_count(), 8);
    let a = SegmentTreeAllocator::new(8);
    assert_eq!(a.leaf_count(), 8);
    let a = SegmentTreeAllocator::new(0);
    assert_eq!(a.leaf_count(), 1);
}

#[test]
fn bitmap_allocator_first_fit() {
    let mut a = BitmapVectorAllocator::new(32);
    assert_eq!(a.allocate(4, 1), Some(0));
    assert_eq!(a.allocate(4, 1), Some(4));
    a.dealloc(0, 4, 1);
    // The freed low range is the smallest aligned fit again.
    assert_eq!(a.allocate(2, 2), Some(0));
    assert_eq!(a.allocate(2, 2), Some(2));
}

fn check_tree_propagation(a: &SegmentTreeAllocator) {
    let leaves = a.leaf_count();
    for j in 1..leaves {
        assert_eq!(
            a.node(j),
            a.node(2 * j) && a.node(2 * j + 1),
            "node {} does not cache the AND of its children",
            j
        );
    }
}

#[test]
fn segtree_allocator_propagates_after_every_operation() {
    let mut a = SegmentTreeAllocator::new(6);
    check_tree_propagation(&a);
    let mut held = Vec::new();
    for _ in 0..6 {
        held.push(a.allocate().unwrap());
        check_tree_propagation(&a);
    }
    for &i in held.iter() {
        a.dealloc(i);
        check_tree_propagation(&a);
    }
    a.allocate().unwrap();
    check_tree_propagation(&a);
}

#[test]
fn bitmap_allocator_alignment_and_disjointness() {
    let mut a = BitmapVectorAllocator::new(64);
    let mut live: Vec<(usize, usize)> = Vec::new();
    for (size, align) in [(5usize, 4usize), (3, 8), (1, 1), (16, 16), (7, 2)] {
        let start = a.allocate(size, align).expect("range must fit");
        assert_eq!(start % align, 0, "offset {} not {}-aligned", start, align);
        for &(s, e) in &live {
            assert!(start + size <= s || e <= start, "ranges overlap");
        }
        live.push((start, start + size));
    }
}

#[test]
fn bitmap_allocator_reuses_freed_range() {
    let mut a = BitmapVectorAllocator::new(16);
    let x = a.allocate(8, 1).unwrap();
    let y = a.allocate(8, 1).unwrap();
    assert_eq!(a.allocate(1, 1), None);
    a.dealloc(x, 8, 1);
    assert_eq!(a.allocate(8, 1), Some(x));
    a.dealloc(y, 8, 1);
    a.dealloc(x, 8, 1);
    assert_eq!(a.allocate(16, 1), Some(0));
}

#[test]
fn bitmap_allocator_caps_capacity() {
    let mut a = BitmapVectorAllocator::new(100000);
    assert_eq!(a.allocate(4096, 1), Some(0));
    assert_eq!(a.allocate(1, 1), None);
}

#[test]
fn bitmap_allocator_rejects_unalignable_request() {
    let mut a = BitmapVectorAllocator::new(16);
    assert_eq!(a.allocate(1, 1), Some(0));
    // The only 16-aligned candidate is taken at its first byte.
    assert_eq!(a.allocate(16, 16), None);
    assert_eq!(a.allocate(8, 8), Some(8));
}
