//! A process: an address-space owner and resource container shared by its
//! threads.

use vstd::prelude::*;
use crate::memory::{Flags, MemoryError, MemoryResult, MemorySet, Segment, VirtualRange};
use crate::memory::address::VirtualAddress;
use crate::memory::config::PAGE_SIZE;

verus! {

/// Lowest virtual address handed out to thread stacks.
pub const ALLOC_BASE: u64 = 0x100_0000;

/// One open file of a process; its index in the descriptor list is the
/// file descriptor number.
#[derive(Clone, Copy, Debug, PartialEq, Eq, Structural)]
pub enum Descriptor {
    /// The console input stream.
    Stdin,
    /// The console output stream.
    Stdout,
    /// A file loaded from the filesystem, by its slot in the kernel's
    /// file table.
    File(usize),
}

/// The mutable part of a process.
pub struct ProcessInner {
    /// The address space its threads share.
    pub memory_set: MemorySet,
    /// The open files; the index is the file descriptor number.
    pub descriptors: Vec<Descriptor>,
}

/// A process: whether its threads run in user mode, and its shared
/// resources.
pub struct Process {
    pub is_user: bool,
    pub inner: ProcessInner,
}

/// `size` rounded up to whole pages.
pub open spec fn page_round(size: int) -> int {
    ((size + PAGE_SIZE - 1) / (PAGE_SIZE as int)) * (PAGE_SIZE as int)
}

impl Process {
    /// Creates the kernel process: supervisor mode, console streams open.
    pub fn new_kernel() -> (r: MemoryResult<Process>)
        ensures
            r matches Ok(p) && !p.is_user && p.inner.descriptors@ == seq![
                Descriptor::Stdin,
                Descriptor::Stdout,
            ] && p.inner.memory_set.segments() == Seq::<Segment>::empty(),
    {
        let mut descriptors: Vec<Descriptor> = Vec::new();
        descriptors.push(Descriptor::Stdin);
        descriptors.push(Descriptor::Stdout);
        proof {
            assert(descriptors@ =~= seq![Descriptor::Stdin, Descriptor::Stdout]);
        }
        Ok(Process { is_user: false, inner: ProcessInner { memory_set: MemorySet::new(), descriptors } })
    }

    /// Creates a user process around a loaded executable image: user mode,
    /// console streams open. Loading the image bytes into the address
    /// space is the loader's business.
    pub fn new_user() -> (r: MemoryResult<Process>)
        ensures
            r matches Ok(p) && p.is_user && p.inner.descriptors@ == seq![
                Descriptor::Stdin,
                Descriptor::Stdout,
            ] && p.inner.memory_set.segments() == Seq::<Segment>::empty(),
    {
        let mut descriptors: Vec<Descriptor> = Vec::new();
        descriptors.push(Descriptor::Stdin);
        descriptors.push(Descriptor::Stdout);
        proof {
            assert(descriptors@ =~= seq![Descriptor::Stdin, Descriptor::Stdout]);
        }
        Ok(Process { is_user: true, inner: ProcessInner { memory_set: MemorySet::new(), descriptors } })
    }

    /// Finds an unused stretch of the address space of `size` bytes
    /// (rounded up to whole pages), records it as a segment with the
    /// given access rights plus the process's own user bit, and returns
    /// the requested range. Fails only when no address range below
    /// `u64::MAX` fits: success is guaranteed while the address space is
    /// not exhausted.
    pub fn alloc_page_range(&mut self, size: u64, flags: Flags) -> (r: MemoryResult<VirtualRange>)
        requires
            1 <= size,
        ensures
            final(self).is_user == old(self).is_user,
            final(self).inner.descriptors@ == old(self).inner.descriptors@,
            match r {
                Ok(range) => {
                    &&& range.start.0 % PAGE_SIZE == 0
                    &&& range.end.0 == range.start.0 + size
                    &&& range.start.0 + page_round(size as int) <= u64::MAX
                    &&& forall|k: int|
                        0 <= k < old(self).inner.memory_set.segments().len()
                            ==> !crate::memory::ranges_overlap(
                            (#[trigger] old(self).inner.memory_set.segments()[k]).range.start.0
                                as int,
                            old(self).inner.memory_set.segments()[k].range.end.0 as int,
                            range.start.0 as int,
                            range.start.0 + page_round(size as int),
                        )
                    &&& final(self).inner.memory_set.segments() == old(
                        self,
                    ).inner.memory_set.segments().push(
                        Segment {
                            range: VirtualRange {
                                start: range.start,
                                end: VirtualAddress(
                                    (range.start.0 + page_round(size as int)) as u64,
                                ),
                            },
                            flags: Flags {
                                readable: flags.readable,
                                writable: flags.writable,
                                user: old(self).is_user,
                            },
                        },
                    )
                },
                Err(e) => {
                    &&& e == MemoryError::AddressExhausted
                    &&& *final(self) == *old(self)
                },
            },
            crate::memory::max_segment_end(
                old(self).inner.memory_set.segments(),
                ALLOC_BASE as int,
            ) + 2 * page_round(size as int) <= u64::MAX ==> r is Ok,
    {
        if size > u64::MAX - (PAGE_SIZE - 1) {
            proof {
                assert(2 * page_round(size as int) > u64::MAX);
            }
            return Err(MemoryError::AddressExhausted);
        }
        let alloc_size = ((size + (PAGE_SIZE - 1)) / PAGE_SIZE) * PAGE_SIZE;
        proof {
            assert(alloc_size == page_round(size as int));
            assert(size <= alloc_size) by {
                vstd::arithmetic::div_mod::lemma_fundamental_div_mod(
                    size as int + (PAGE_SIZE - 1),
                    PAGE_SIZE as int,
                );
            }
            assert(alloc_size % PAGE_SIZE == 0) by {
                vstd::arithmetic::div_mod::lemma_mod_multiples_basic(
                    (size as int + (PAGE_SIZE - 1)) / (PAGE_SIZE as int),
                    PAGE_SIZE as int,
                );
            }
        }
        let ghost m = crate::memory::max_segment_end(
            self.inner.memory_set.segments(),
            ALLOC_BASE as int,
        );
        proof {
            crate::memory::lemma_max_segment_end(
                self.inner.memory_set.segments(),
                ALLOC_BASE as int,
            );
        }
        let mut start: u64 = ALLOC_BASE;
        loop
            invariant
                *self == *old(self),
                1 <= size <= alloc_size,
                alloc_size == page_round(size as int),
                alloc_size % PAGE_SIZE == 0,
                start % PAGE_SIZE == 0,
                ALLOC_BASE <= start,
                start <= m + alloc_size,
                m == crate::memory::max_segment_end(
                    self.inner.memory_set.segments(),
                    ALLOC_BASE as int,
                ),
                m >= ALLOC_BASE,
                forall|k: int|
                    0 <= k < self.inner.memory_set.segments().len()
                        ==> (#[trigger] self.inner.memory_set.segments()[k]).range.end.0 <= m,
            decreases m + alloc_size - start,
        {
            if start > u64::MAX - alloc_size {
                proof {
                    assert(m + 2 * page_round(size as int) > u64::MAX);
                }
                return Err(MemoryError::AddressExhausted);
            }
            let end = start + alloc_size;
            if !self.inner.memory_set.overlap_with(start, end) {
                let range_start = VirtualAddress(start);
                self.inner.memory_set.add_segment(
                    Segment {
                        range: VirtualRange { start: range_start, end: VirtualAddress(end) },
                        flags: Flags {
                            readable: flags.readable,
                            writable: flags.writable,
                            user: self.is_user,
                        },
                    },
                );
                return Ok(VirtualRange { start: range_start, end: VirtualAddress(start + size) });
            }
            proof {
                let k = choose|k: int|
                    0 <= k < self.inner.memory_set.segments().len() && crate::memory::ranges_overlap(
                        (#[trigger] self.inner.memory_set.segments()[k]).range.start.0 as int,
                        self.inner.memory_set.segments()[k].range.end.0 as int,
                        start as int,
                        end as int,
                    );
                assert(start < self.inner.memory_set.segments()[k].range.end.0);
                vstd::arithmetic::div_mod::lemma_mod_adds(
                    start as int,
                    alloc_size as int,
                    PAGE_SIZE as int,
                );
            }
            start = start + alloc_size;
        }
    }
}

} // verus!
