//! Processes, threads and the processor that multiplexes them.

pub mod kernel_stack;
pub mod processor;
pub mod process;
pub mod thread;

use vstd::prelude::*;

verus! {

/// Bytes of stack each thread gets (512 KiB).
pub const STACK_SIZE: u64 = 0x8_0000;

/// Bytes of the shared kernel stack that interrupt handling runs on.
pub const KERNEL_STACK_SIZE: usize = 0x8_0000;

} // verus!
