//! The physical-frame allocator and the handle it hands out.
//!
//! The allocator wraps one unit [`Allocator`] over the frame range above
//! the kernel image. Each allocation yields a [`FrameTracker`]: an owned
//! handle for exactly one frame, taken back by value through
//! [`FrameAllocator::dealloc`], so a frame cannot be returned twice.

use vstd::prelude::*;
use crate::allocator::Allocator;
use crate::memory::address::{PhysicalAddress, PhysicalPageNumber};
use crate::memory::config::PAGE_SIZE;
use crate::memory::{MemoryError, MemoryResult};

verus! {

/// Largest frame number the allocator accepts; keeps every frame address
/// inside `u64`.
pub const FRAME_LIMIT: u64 = 0x1_0000_0000;

/// An owned physical frame. It exists only by coming out of
/// [`FrameAllocator::alloc`], and giving it back consumes it.
pub struct FrameTracker {
    ppn: PhysicalPageNumber,
}

impl FrameTracker {
    /// The frame's number.
    pub closed spec fn ppn(&self) -> int {
        self.ppn.0 as int
    }

    /// The frame's physical address.
    pub fn address(&self) -> (r: PhysicalAddress)
        requires
            self.ppn() <= FRAME_LIMIT,
        ensures
            r.0 == self.ppn() * PAGE_SIZE,
    {
        self.ppn.address()
    }

    /// The frame's physical page number.
    pub fn page_number(&self) -> (r: PhysicalPageNumber)
        ensures
            r.0 == self.ppn(),
    {
        self.ppn
    }
}

/// Allocates and reclaims physical frames from a fixed range, delegating
/// the choice of frame to a unit allocator.
pub struct FrameAllocator<T: Allocator> {
    start_ppn: PhysicalPageNumber,
    allocator: T,
}

impl<T: Allocator> FrameAllocator<T> {
    /// The first managed frame number.
    pub closed spec fn start(&self) -> int {
        self.start_ppn.0 as int
    }

    /// How many frames are managed.
    pub closed spec fn capacity(&self) -> nat {
        self.allocator.capacity()
    }

    /// The frame numbers currently handed out.
    pub closed spec fn allocated_frames(&self) -> Set<int> {
        self.allocator.allocated().map(|offset: int| self.start() + offset)
    }

    pub closed spec fn wf(&self) -> bool {
        &&& self.allocator.wf()
        &&& self.start() + self.allocator.capacity() <= FRAME_LIMIT
    }

    /// Creates the allocator for the frames `start..end`, all free.
    pub fn new(start: PhysicalPageNumber, end: PhysicalPageNumber) -> (r: Self)
        requires
            start.0 <= end.0 <= FRAME_LIMIT,
            end.0 - start.0 <= crate::allocator::CAPACITY_LIMIT as u64,
        ensures
            r.wf(),
            r.start() == start.0,
            r.capacity() == end.0 - start.0,
            r.allocated_frames() == Set::<int>::empty(),
    {
        let r = FrameAllocator { start_ppn: start, allocator: T::new((end.0 - start.0) as usize) };
        proof {
            assert(r.allocated_frames() =~= Set::<int>::empty());
        }
        r
    }

    /// Hands out one free frame, or `Err(OutOfMemory)` exactly when every
    /// managed frame is live.
    pub fn allocate(&mut self) -> (r: MemoryResult<FrameTracker>)
        requires
            old(self).wf(),
        ensures
            final(self).wf(),
            final(self).start() == old(self).start(),
            final(self).capacity() == old(self).capacity(),
            match r {
                Ok(frame) => {
                    &&& old(self).start() <= frame.ppn() < old(self).start() + old(
                        self,
                    ).capacity()
                    &&& !old(self).allocated_frames().contains(frame.ppn())
                    &&& final(self).allocated_frames() == old(self).allocated_frames().insert(
                        frame.ppn(),
                    )
                },
                Err(e) => {
                    &&& e == MemoryError::OutOfMemory
                    &&& final(self).allocated_frames() == old(self).allocated_frames()
                    &&& old(self).allocated_frames().len() == old(self).capacity()
                },
            },
    {
        proof {
            vstd::set_lib::lemma_int_range(0, old(self).capacity() as int);
        }
        match self.allocator.allocate() {
            Some(offset) => {
                let frame = FrameTracker {
                    ppn: PhysicalPageNumber(self.start_ppn.0 + offset as u64),
                };
                proof {
                    assert(!old(self).allocated_frames().contains(frame.ppn())) by {
                        if old(self).allocated_frames().contains(frame.ppn()) {
                            let o = choose|o: int|
                                old(self).allocator.allocated().contains(o) && frame.ppn()
                                    == old(self).start() + o;
                            assert(o == offset);
                        }
                    }
                    assert forall|x: int| self.allocated_frames().contains(x) implies old(
                        self,
                    ).allocated_frames().insert(frame.ppn()).contains(x) by {
                        let o = choose|o: int|
                            self.allocator.allocated().contains(o) && x == self.start() + o;
                        if o != offset {
                            assert(old(self).allocator.allocated().contains(o));
                            assert(old(self).allocated_frames().contains(x));
                        }
                    }
                    assert forall|x: int|
                        old(self).allocated_frames().insert(frame.ppn()).contains(x) implies self
                        .allocated_frames().contains(x) by {
                        if x == frame.ppn() {
                            assert(self.allocator.allocated().contains(offset as int));
                            assert(self.allocated_frames().contains(self.start() + offset));
                        } else {
                            let o = choose|o: int|
                                old(self).allocator.allocated().contains(o) && x == old(
                                    self,
                                ).start() + o;
                            assert(self.allocator.allocated().contains(o));
                            assert(self.allocated_frames().contains(self.start() + o));
                        }
                    }
                    assert(self.allocated_frames() =~= old(self).allocated_frames().insert(
                        frame.ppn(),
                    ));
                }
                Ok(frame)
            },
            None => {
                proof {
                    assert(old(self).allocator.allocated() =~= crate::allocator::all_units(
                        old(self).capacity(),
                    ));
                    vstd::set_lib::lemma_int_range(0, old(self).capacity() as int);
                    assert(old(self).allocated_frames().len() == old(self).capacity()) by {
                        crate::memory::frame::lemma_shift_len(
                            old(self).allocator.allocated(),
                            old(self).start(),
                        );
                    }
                }
                Err(MemoryError::OutOfMemory)
            },
        }
    }

    /// Takes a frame back, consuming its handle.
    pub fn dealloc(&mut self, frame: FrameTracker)
        requires
            old(self).wf(),
            old(self).allocated_frames().contains(frame.ppn()),
            old(self).start() <= frame.ppn() < old(self).start() + old(self).capacity(),
        ensures
            final(self).wf(),
            final(self).start() == old(self).start(),
            final(self).capacity() == old(self).capacity(),
            final(self).allocated_frames() == old(self).allocated_frames().remove(frame.ppn()),
    {
        proof {
            assert(old(self).allocator.allocated().contains(frame.ppn() - old(self).start())) by {
                let o = choose|o: int|
                    old(self).allocator.allocated().contains(o) && frame.ppn() == old(
                        self,
                    ).start() + o;
            }
        }
        let offset = (frame.ppn.0 - self.start_ppn.0) as usize;
        self.allocator.dealloc(offset);
        proof {
            assert forall|x: int| self.allocated_frames().contains(x) implies old(
                self,
            ).allocated_frames().remove(frame.ppn()).contains(x) by {
                let o = choose|o: int|
                    self.allocator.allocated().contains(o) && x == self.start() + o;
                assert(old(self).allocator.allocated().contains(o));
                assert(old(self).allocated_frames().contains(x));
            }
            assert forall|x: int|
                old(self).allocated_frames().remove(frame.ppn()).contains(x) implies self
                .allocated_frames().contains(x) by {
                let o = choose|o: int|
                    old(self).allocator.allocated().contains(o) && x == old(self).start() + o;
                assert(o != offset as int);
                assert(self.allocator.allocated().contains(o));
                assert(self.allocated_frames().contains(self.start() + o));
            }
            assert(self.allocated_frames() =~= old(self).allocated_frames().remove(frame.ppn()));
        }
    }
}

/// Shifting a finite set of offsets by a constant keeps its size.
pub proof fn lemma_shift_len(s: Set<int>, shift: int)
    requires
        s.finite(),
    ensures
        s.map(|offset: int| shift + offset).len() == s.len(),
        s.map(|offset: int| shift + offset).finite(),
    decreases s.len(),
{
    if s.len() == 0 {
        assert(s =~= Set::empty());
        assert(s.map(|offset: int| shift + offset) =~= Set::empty());
    } else {
        let x = s.choose();
        lemma_shift_len(s.remove(x), shift);
        assert(s.remove(x).map(|offset: int| shift + offset) =~= s.map(
            |offset: int| shift + offset,
        ).remove(shift + x));
        assert(s.map(|offset: int| shift + offset).contains(shift + x));
    }
}

} // verus!
