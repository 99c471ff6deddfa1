//! A byte-range allocator over a fixed 4096-bit field, one bit per byte.
//!
//! `alloc(size, align)` linearly scans aligned candidate offsets for a
//! contiguous run of free bits and marks the first one found; `dealloc`
//! clears the run. The bit field lives in a `[u8; 512]` driven through the
//! `bit_field` crate.

use vstd::prelude::*;
use vstd::set_lib::set_int_range;
use crate::allocator::VectorAllocator;
use crate::bits::{bit_get, bitmap_get_bit, bitmap_set_bit};

verus! {

/// Number of bits in the bitmap: the most bytes this allocator can manage.
pub const BITMAP_SIZE: usize = 4096;

/// Two multiples of `align` are at least `align` apart.
proof fn lemma_aligned_step(s: int, start: int, align: int)
    requires
        align >= 1,
        s % align == 0,
        start % align == 0,
        s > start,
    ensures
        s >= start + align,
{
    vstd::arithmetic::div_mod::lemma_fundamental_div_mod(s, align);
    vstd::arithmetic::div_mod::lemma_fundamental_div_mod(start, align);
    let ks = s / align;
    let kt = start / align;
    assert(s >= start + align) by (nonlinear_arith)
        requires
            s == align * ks,
            start == align * kt,
            s > start,
            align >= 1,
    ;
}

/// A byte-range allocator marking each byte's occupancy with one bit.
pub struct BitmapVectorAllocator {
    capacity: usize,
    bitmap: [u8; 512],
}

impl BitmapVectorAllocator {
    /// Checks that the bytes `start..start + size` are all free.
    fn range_free(&self, start: usize, size: usize) -> (r: bool)
        requires
            self.wf(),
            start + size <= self.capacity,
        ensures
            r == forall|i: int| start <= i < start + size ==> !self.occupied().contains(i),
    {
        let mut i: usize = start;
        while i < start + size
            invariant
                self.wf(),
                start <= i <= start + size,
                start + size <= self.capacity,
                forall|j: int| start <= j < i ==> !self.occupied().contains(j),
            decreases start + size - i,
        {
            if bitmap_get_bit(&self.bitmap, i) {
                proof {
                    assert(self.occupied().contains(i as int));
                }
                return false;
            }
            i = i + 1;
        }
        true
    }

    /// Finds the lowest `align`-aligned offset whose next `size` bytes are
    /// all free, scanning candidates `align` apart from offset 0.
    fn find_free_start(&self, size: usize, align: usize) -> (r: Option<usize>)
        requires
            self.wf(),
            1 <= size,
            1 <= align,
        ensures
            match r {
                Some(start) => {
                    &&& start % align == 0
                    &&& start + size <= self.capacity
                    &&& forall|i: int|
                        start <= i < start + size ==> !self.occupied().contains(i)
                    &&& forall|s: int|
                        0 <= s < start && #[trigger] (s % align as int) == 0 && s + size
                            <= self.capacity ==> exists|i: int|
                            s <= i < s + size && self.occupied().contains(i)
                },
                None => forall|s: int|
                    0 <= s && #[trigger] (s % align as int) == 0 && s + size <= self.capacity
                        ==> exists|i: int| s <= i < s + size && self.occupied().contains(i),
            },
    {
        let mut start: usize = 0;
        loop
            invariant
                self.wf(),
                1 <= size,
                1 <= align,
                start % align == 0,
                start <= self.capacity,
                forall|s: int|
                    0 <= s < start && #[trigger] (s % align as int) == 0 && s + size
                        <= self.capacity ==> exists|i: int|
                        s <= i < s + size && self.occupied().contains(i),
            decreases self.capacity - start,
        {
            if size > self.capacity - start {
                proof {
                    assert forall|s: int|
                        0 <= s && #[trigger] (s % align as int) == 0 && s + size
                            <= self.capacity implies exists|i: int|
                        s <= i < s + size && self.occupied().contains(i) by {
                        assert(s < start);
                    }
                }
                return None;
            }
            if self.range_free(start, size) {
                return Some(start);
            }
            proof {
                assert forall|s: int|
                    0 <= s < start + align && #[trigger] (s % align as int) == 0 && s + size
                        <= self.capacity implies exists|i: int|
                    s <= i < s + size && self.occupied().contains(i) by {
                    if s > start {
                        lemma_aligned_step(s, start as int, align as int);
                    }
                }
            }
            if align > self.capacity - start {
                proof {
                    assert forall|s: int|
                        0 <= s && #[trigger] (s % align as int) == 0 && s + size
                            <= self.capacity implies exists|i: int|
                        s <= i < s + size && self.occupied().contains(i) by {
                        assert(s < start + align);
                    }
                }
                return None;
            }
            start = start + align;
            proof {
                vstd::arithmetic::div_mod::lemma_mod_multiples_vanish(
                    1,
                    (start - align) as int,
                    align as int,
                );
            }
        }
    }

    /// Marks the bytes `start..start + size` with `value`.
    fn set_range(&mut self, start: usize, size: usize, value: bool)
        requires
            old(self).wf(),
            start + size <= old(self).capacity,
        ensures
            final(self).wf(),
            final(self).capacity == old(self).capacity,
            forall|j: int|
                0 <= j < final(self).capacity && !(start <= j < start + size)
                    ==> final(self).occupied().contains(j) == old(self).occupied().contains(j),
            forall|j: int|
                start <= j < start + size ==> final(self).occupied().contains(j) == value,
    {
        let mut i: usize = start;
        while i < start + size
            invariant
                self.capacity == old(self).capacity,
                self.wf(),
                start <= i <= start + size,
                start + size <= self.capacity,
                forall|j: int|
                    0 <= j < self.capacity && !(start <= j < i) ==> self.occupied().contains(j)
                        == old(self).occupied().contains(j),
                forall|j: int| start <= j < i ==> self.occupied().contains(j) == value,
            decreases start + size - i,
        {
            let ghost pre = *self;
            bitmap_set_bit(&mut self.bitmap, i, value);
            proof {
                assert forall|j: int| start <= j <= i implies self.occupied().contains(j)
                    == value by {
                    if j < i {
                        assert(pre.occupied().contains(j) == value);
                        assert(bit_get(self.bitmap@, j) == bit_get(pre.bitmap@, j));
                    } else {
                        assert(bit_get(self.bitmap@, i as int) == value);
                    }
                }
            }
            i = i + 1;
        }
    }
}

impl VectorAllocator for BitmapVectorAllocator {
    closed spec fn capacity(&self) -> nat {
        self.capacity as nat
    }

    closed spec fn occupied(&self) -> Set<int> {
        Set::new(|i: int| 0 <= i < self.capacity && bit_get(self.bitmap@, i))
    }

    closed spec fn wf(&self) -> bool {
        self.capacity <= BITMAP_SIZE
    }

    fn new(capacity: usize) -> (r: Self) {
        let r = BitmapVectorAllocator {
            capacity: if capacity < BITMAP_SIZE {
                capacity
            } else {
                BITMAP_SIZE
            },
            bitmap: [0u8; 512],
        };
        proof {
            broadcast use vstd::array::group_array_axioms;

            assert(forall|k: u8| k < 8 ==> 0u8 & ((1u8 << k) as u8) == 0) by (bit_vector);
            assert forall|i: int| 0 <= i < r.capacity implies !bit_get(r.bitmap@, i) by {
                assert(r.bitmap@[i / 8] == 0u8);
                assert(0 <= i % 8 < 8);
            }
            assert(r.occupied() =~= Set::<int>::empty());
        }
        r
    }

    fn allocate(&mut self, size: usize, align: usize) -> (r: Option<usize>)
        ensures
            r matches Some(start) ==> forall|s: int|
                0 <= s < start && #[trigger] (s % align as int) == 0 && s + size <= old(
                    self,
                ).capacity() ==> exists|i: int| s <= i < s + size && old(self).occupied().contains(
                    i,
                ),
    {
        match self.find_free_start(size, align) {
            Some(start) => {
                self.set_range(start, size, true);
                proof {
                    assert(self.occupied() =~= old(self).occupied().union(
                        set_int_range(start as int, start + size),
                    ));
                }
                Some(start)
            },
            None => None,
        }
    }

    fn dealloc(&mut self, start: usize, size: usize, _align: usize) {
        self.set_range(start, size, false);
        proof {
            assert(self.occupied() =~= old(self).occupied().difference(
                set_int_range(start as int, start + size),
            ));
        }
    }
}

} // verus!
