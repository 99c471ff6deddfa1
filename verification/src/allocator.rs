//! Capability contracts for allocation: a unit allocator handing out
//! page-granularity indices one at a time, and a byte-range allocator taking
//! an explicit size and alignment per request.

pub mod bitmap_vector_allocator;
pub mod segtree_allocator;
pub mod stacked_allocator;

use vstd::prelude::*;

verus! {

/// Largest capacity any unit allocator is asked to manage; keeps the
/// segment tree's doubled leaf count within `usize`.
pub const CAPACITY_LIMIT: usize = 0x2000_0000;

/// The set of every unit index an allocator of the given capacity manages.
pub open spec fn all_units(capacity: nat) -> Set<int> {
    vstd::set_lib::set_int_range(0, capacity as int)
}

/// A unit allocator: manages `capacity` indivisible units. An index is
/// handed out at most once until a matching `dealloc`; releasing an index
/// that is not currently allocated is a caller bug, excluded by `requires`.
pub trait Allocator: Sized {
    /// How many units this allocator manages.
    spec fn capacity(&self) -> nat;

    /// The indices currently handed out.
    spec fn allocated(&self) -> Set<int>;

    /// The implementation's internal bookkeeping invariant.
    spec fn wf(&self) -> bool;

    /// Creates an allocator with every unit in `0..capacity` free.
    fn new(capacity: usize) -> (r: Self)
        requires
            capacity <= CAPACITY_LIMIT,
        ensures
            r.wf(),
            r.capacity() == capacity,
            r.allocated() == Set::<int>::empty(),
    ;

    /// Hands out one currently free unit, or returns `None` exactly when
    /// every unit is allocated.
    fn allocate(&mut self) -> (r: Option<usize>)
        requires
            old(self).wf(),
        ensures
            final(self).wf(),
            final(self).capacity() == old(self).capacity(),
            match r {
                Some(index) => {
                    &&& index < old(self).capacity()
                    &&& !old(self).allocated().contains(index as int)
                    &&& final(self).allocated() == old(self).allocated().insert(index as int)
                },
                None => {
                    &&& final(self).allocated() == old(self).allocated()
                    &&& old(self).allocated() == all_units(old(self).capacity())
                },
            },
    ;

    /// Returns a previously allocated unit to the free pool.
    fn dealloc(&mut self, index: usize)
        requires
            old(self).wf(),
            old(self).allocated().contains(index as int),
        ensures
            final(self).wf(),
            final(self).capacity() == old(self).capacity(),
            final(self).allocated() == old(self).allocated().remove(index as int),
    ;
}

/// A byte-range allocator: manages `capacity` bytes and serves requests of
/// an explicit `size` and `align`. Live ranges never overlap; releasing
/// bytes that are not currently allocated is a caller bug, excluded by
/// `requires`.
pub trait VectorAllocator: Sized {
    /// How many bytes this allocator manages.
    spec fn capacity(&self) -> nat;

    /// The byte indices currently handed out.
    spec fn occupied(&self) -> Set<int>;

    /// The implementation's internal bookkeeping invariant.
    spec fn wf(&self) -> bool;

    /// Creates an allocator with every byte it manages free; an
    /// implementation may cap the capacity it accepts.
    fn new(capacity: usize) -> (r: Self)
        ensures
            r.wf(),
            r.capacity() <= capacity,
            r.occupied() == Set::<int>::empty(),
    ;

    /// Hands out `size` contiguous free bytes at an `align`-aligned offset,
    /// or returns `None` exactly when no such range exists.
    fn allocate(&mut self, size: usize, align: usize) -> (r: Option<usize>)
        requires
            old(self).wf(),
            1 <= size,
            1 <= align,
        ensures
            final(self).wf(),
            final(self).capacity() == old(self).capacity(),
            match r {
                Some(start) => {
                    &&& start % align == 0
                    &&& start + size <= old(self).capacity()
                    &&& forall|i: int|
                        start <= i < start + size ==> !old(self).occupied().contains(i)
                    &&& final(self).occupied() == old(self).occupied().union(
                        vstd::set_lib::set_int_range(start as int, start + size),
                    )
                },
                None => {
                    &&& final(self).occupied() == old(self).occupied()
                    &&& forall|s: int|
                        0 <= s && #[trigger] (s % align as int) == 0 && s + size
                            <= old(self).capacity() ==> exists|i: int|
                            s <= i < s + size && old(self).occupied().contains(i)
                },
            },
    ;

    /// Returns a previously allocated byte range to the free pool.
    fn dealloc(&mut self, start: usize, size: usize, align: usize)
        requires
            old(self).wf(),
            1 <= size,
            start + size <= old(self).capacity(),
            forall|i: int| start <= i < start + size ==> old(self).occupied().contains(i),
        ensures
            final(self).wf(),
            final(self).capacity() == old(self).capacity(),
            final(self).occupied() == old(self).occupied().difference(
                vstd::set_lib::set_int_range(start as int, start + size),
            ),
    ;
}

/// An allocator can always hand out another unit while fewer than
/// `capacity` units are live: a strict subset of `all_units` is not
/// `all_units`, so `alloc`'s `None` case is unreachable.
pub proof fn lemma_alloc_available(capacity: nat, allocated: Set<int>)
    requires
        allocated.subset_of(all_units(capacity)),
        allocated.finite(),
        allocated.len() < capacity,
    ensures
        allocated != all_units(capacity),
{
    vstd::set_lib::lemma_int_range(0, capacity as int);
    assert(all_units(capacity).len() == capacity);
    if allocated == all_units(capacity) {
        assert(allocated.len() == capacity);
    }
}

} // verus!
