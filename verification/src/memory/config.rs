//! Memory layout constants of the target machine.

use vstd::prelude::*;

verus! {

/// Size of one page / frame in bytes; a power of two.
pub const PAGE_SIZE: u64 = 4096;

/// First physical address of DRAM.
pub const MEMORY_START_ADDRESS: u64 = 0x8000_0000;

/// One past the last usable physical address (128 MiB of DRAM).
pub const MEMORY_END_ADDRESS: u64 = 0x8800_0000;

/// Linear offset from a physical address to its kernel-space virtual alias.
pub const KERNEL_MAP_OFFSET: u64 = 0xffff_ffff_0000_0000;

/// Bytes reserved for the kernel's own dynamic allocations (8 MiB).
pub const KERNEL_HEAP_SIZE: usize = 0x80_0000;

} // verus!
