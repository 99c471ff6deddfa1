//! Physical and virtual memory model: address and page-number types, the
//! kernel's memory constants, the address-space segment bookkeeping that
//! processes allocate stacks from, and the physical-frame allocator.

pub mod address;
pub mod config;
pub mod frame;

use vstd::prelude::*;
use crate::memory::address::VirtualAddress;

verus! {

/// Why a memory operation failed.
#[derive(Clone, Copy, Debug, PartialEq, Eq, Structural)]
pub enum MemoryError {
    /// No physical frame is left to allocate.
    OutOfMemory,
    /// No virtual address range fits the request.
    AddressExhausted,
}

pub type MemoryResult<T> = Result<T, MemoryError>;

/// Access rights of one mapped segment.
#[derive(Clone, Copy, Debug, PartialEq, Eq, Structural)]
pub struct Flags {
    pub readable: bool,
    pub writable: bool,
    pub user: bool,
}

/// A half-open virtual address range `start..end`.
#[derive(Clone, Copy, Debug, PartialEq, Eq, Structural)]
pub struct VirtualRange {
    pub start: VirtualAddress,
    pub end: VirtualAddress,
}

/// One mapped region of an address space.
#[derive(Clone, Copy, Debug, PartialEq, Eq, Structural)]
pub struct Segment {
    pub range: VirtualRange,
    pub flags: Flags,
}

/// Do two half-open ranges share an address?
pub open spec fn ranges_overlap(a_start: int, a_end: int, b_start: int, b_end: int) -> bool {
    a_start < b_end && b_start < a_end
}

/// The largest segment end address, and at least `floor`.
pub open spec fn max_segment_end(segments: Seq<Segment>, floor: int) -> int
    decreases segments.len(),
{
    if segments.len() == 0 {
        floor
    } else {
        let rest = max_segment_end(segments.drop_last(), floor);
        if segments.last().range.end.0 > rest {
            segments.last().range.end.0 as int
        } else {
            rest
        }
    }
}

/// `max_segment_end` bounds every segment's end and never drops below its
/// floor.
pub proof fn lemma_max_segment_end(segments: Seq<Segment>, floor: int)
    ensures
        max_segment_end(segments, floor) >= floor,
        forall|k: int|
            0 <= k < segments.len() ==> (#[trigger] segments[k]).range.end.0 <= max_segment_end(
                segments,
                floor,
            ),
    decreases segments.len(),
{
    if segments.len() > 0 {
        lemma_max_segment_end(segments.drop_last(), floor);
        assert forall|k: int|
            0 <= k < segments.len() implies (#[trigger] segments[k]).range.end.0
            <= max_segment_end(segments, floor) by {
            if k < segments.len() - 1 {
                assert(segments.drop_last()[k] == segments[k]);
            }
        }
    }
}

/// The segments mapped into one address space. The page tables themselves
/// are the mapping layer's business; what processes rely on here is which
/// virtual ranges are taken.
pub struct MemorySet {
    segments: Vec<Segment>,
}

impl MemorySet {
    pub closed spec fn segments(&self) -> Seq<Segment> {
        self.segments@
    }

    /// An address space with nothing mapped yet.
    pub fn new() -> (r: Self)
        ensures
            r.segments() == Seq::<Segment>::empty(),
    {
        MemorySet { segments: Vec::new() }
    }

    /// Does `start..end` overlap any mapped segment?
    pub fn overlap_with(&self, start: u64, end: u64) -> (r: bool)
        ensures
            r == exists|k: int|
                0 <= k < self.segments().len() && ranges_overlap(
                    (#[trigger] self.segments()[k]).range.start.0 as int,
                    self.segments()[k].range.end.0 as int,
                    start as int,
                    end as int,
                ),
    {
        let n = self.segments.len();
        let mut k: usize = 0;
        while k < n
            invariant
                n == self.segments@.len(),
                k <= n,
                forall|j: int|
                    0 <= j < k ==> !ranges_overlap(
                        (#[trigger] self.segments@[j]).range.start.0 as int,
                        self.segments@[j].range.end.0 as int,
                        start as int,
                        end as int,
                    ),
            decreases n - k,
        {
            let seg = self.segments[k];
            if seg.range.start.0 < end && start < seg.range.end.0 {
                proof {
                    assert(0 <= k < self.segments().len() && ranges_overlap(
                        (#[trigger] self.segments()[k as int]).range.start.0 as int,
                        self.segments()[k as int].range.end.0 as int,
                        start as int,
                        end as int,
                    ));
                }
                return true;
            }
            k = k + 1;
        }
        false
    }

    /// Records one more mapped segment.
    pub fn add_segment(&mut self, segment: Segment)
        ensures
            final(self).segments() == old(self).segments().push(segment),
    {
        self.segments.push(segment);
    }
}

} // verus!
