//! Address and page-number types, kept distinct so the compiler catches a
//! physical address used where a virtual one belongs, with the conversions
//! between them.
//!
//! Kernel space aliases all of physical memory at a fixed linear offset, so
//! physical and virtual quantities convert by adding or subtracting
//! `KERNEL_MAP_OFFSET` (or its page-count form).

use vstd::prelude::*;
use crate::bits::{bits_range, u64_get_bits};
use crate::memory::config::{KERNEL_MAP_OFFSET, PAGE_SIZE};

verus! {

/// An address in some virtual address space.
#[derive(Copy, Clone, Debug, Default, Eq, PartialEq, Ord, PartialOrd, Hash, Structural)]
pub struct VirtualAddress(pub u64);

/// An address in physical memory.
#[derive(Copy, Clone, Debug, Default, Eq, PartialEq, Ord, PartialOrd, Hash, Structural)]
pub struct PhysicalAddress(pub u64);

/// The number of a virtual page: its address divided by `PAGE_SIZE`.
#[derive(Copy, Clone, Debug, Default, Eq, PartialEq, Ord, PartialOrd, Hash, Structural)]
pub struct VirtualPageNumber(pub u64);

/// The number of a physical page (frame).
#[derive(Copy, Clone, Debug, Default, Eq, PartialEq, Ord, PartialOrd, Hash, Structural)]
pub struct PhysicalPageNumber(pub u64);

impl VirtualAddress {
    /// The offset of this address inside its page.
    pub fn page_offset(&self) -> (r: u64)
        ensures
            r == self.0 % PAGE_SIZE,
    {
        self.0 % PAGE_SIZE
    }

    /// Zero is never a valid address.
    pub fn valid(&self) -> (r: bool)
        ensures
            r == (self.0 != 0),
    {
        self.0 != 0
    }

    /// The physical address this kernel-space alias maps to.
    pub fn to_physical(self) -> (r: PhysicalAddress)
        requires
            self.0 >= KERNEL_MAP_OFFSET,
        ensures
            r.0 == self.0 - KERNEL_MAP_OFFSET,
    {
        PhysicalAddress(self.0 - KERNEL_MAP_OFFSET)
    }
}

impl PhysicalAddress {
    /// The offset of this address inside its frame.
    pub fn page_offset(&self) -> (r: u64)
        ensures
            r == self.0 % PAGE_SIZE,
    {
        self.0 % PAGE_SIZE
    }

    /// The kernel-space virtual alias of this physical address.
    pub fn to_virtual(self) -> (r: VirtualAddress)
        requires
            self.0 + KERNEL_MAP_OFFSET <= u64::MAX,
        ensures
            r.0 == self.0 + KERNEL_MAP_OFFSET,
    {
        VirtualAddress(self.0 + KERNEL_MAP_OFFSET)
    }
}

impl VirtualPageNumber {
    /// The first address of this page.
    pub fn address(self) -> (r: VirtualAddress)
        requires
            self.0 * PAGE_SIZE <= u64::MAX,
        ensures
            r.0 == self.0 * PAGE_SIZE,
    {
        VirtualAddress(self.0 * PAGE_SIZE)
    }

    /// The page number of a page-aligned address.
    pub fn from_address(address: VirtualAddress) -> (r: Self)
        requires
            address.0 % PAGE_SIZE == 0,
        ensures
            r.0 == address.0 / PAGE_SIZE,
    {
        VirtualPageNumber(address.0 / PAGE_SIZE)
    }

    /// The page number of the page containing `address`.
    pub fn floor(address: VirtualAddress) -> (r: Self)
        ensures
            r.0 == address.0 / PAGE_SIZE,
    {
        VirtualPageNumber(address.0 / PAGE_SIZE)
    }

    /// The number of pages needed to cover addresses below `address`.
    pub fn ceil(address: VirtualAddress) -> (r: Self)
        ensures
            r.0 == address.0 / PAGE_SIZE + if address.0 % PAGE_SIZE != 0 {
                1int
            } else {
                0int
            },
    {
        VirtualPageNumber(
            address.0 / PAGE_SIZE + if address.0 % PAGE_SIZE != 0 {
                1
            } else {
                0
            },
        )
    }

    /// The physical page this kernel-space page aliases.
    pub fn to_physical(self) -> (r: PhysicalPageNumber)
        requires
            self.0 >= KERNEL_MAP_OFFSET / PAGE_SIZE,
        ensures
            r.0 == self.0 - KERNEL_MAP_OFFSET / PAGE_SIZE,
    {
        PhysicalPageNumber(self.0 - KERNEL_MAP_OFFSET / PAGE_SIZE)
    }

    /// The three page-table indices of this page number, root level first:
    /// bits `18..27`, `9..18` and `0..9`.
    pub fn levels(self) -> (r: [u64; 3])
        ensures
            r@.len() == 3,
            r@[0] == bits_range(self.0, 18, 27),
            r@[1] == bits_range(self.0, 9, 18),
            r@[2] == bits_range(self.0, 0, 9),
    {
        let r = [
            u64_get_bits(self.0, 18, 27),
            u64_get_bits(self.0, 9, 18),
            u64_get_bits(self.0, 0, 9),
        ];
        proof {
            broadcast use vstd::array::group_array_axioms;

        }
        r
    }
}

impl PhysicalPageNumber {
    /// The first address of this frame.
    pub fn address(self) -> (r: PhysicalAddress)
        requires
            self.0 * PAGE_SIZE <= u64::MAX,
        ensures
            r.0 == self.0 * PAGE_SIZE,
    {
        PhysicalAddress(self.0 * PAGE_SIZE)
    }

    /// The frame number of a page-aligned physical address.
    pub fn from_address(address: PhysicalAddress) -> (r: Self)
        requires
            address.0 % PAGE_SIZE == 0,
        ensures
            r.0 == address.0 / PAGE_SIZE,
    {
        PhysicalPageNumber(address.0 / PAGE_SIZE)
    }

    /// The frame number of the frame containing `address`.
    pub fn floor(address: PhysicalAddress) -> (r: Self)
        ensures
            r.0 == address.0 / PAGE_SIZE,
    {
        PhysicalPageNumber(address.0 / PAGE_SIZE)
    }

    /// The number of frames needed to cover addresses below `address`.
    pub fn ceil(address: PhysicalAddress) -> (r: Self)
        ensures
            r.0 == address.0 / PAGE_SIZE + if address.0 % PAGE_SIZE != 0 {
                1int
            } else {
                0int
            },
    {
        PhysicalPageNumber(
            address.0 / PAGE_SIZE + if address.0 % PAGE_SIZE != 0 {
                1
            } else {
                0
            },
        )
    }

    /// The kernel-space virtual page aliasing this frame.
    pub fn to_virtual(self) -> (r: VirtualPageNumber)
        requires
            self.0 + KERNEL_MAP_OFFSET / PAGE_SIZE <= u64::MAX,
        ensures
            r.0 == self.0 + KERNEL_MAP_OFFSET / PAGE_SIZE,
    {
        VirtualPageNumber(self.0 + KERNEL_MAP_OFFSET / PAGE_SIZE)
    }
}

} // verus!
