//! A small preemptible-kernel runtime core: pluggable unit and byte-range
//! allocators, FIFO and Stride schedulers, and the process/thread/processor
//! state machine that multiplexes a single hart among cooperating threads.

pub mod allocator;
pub mod bits;
pub mod drivers;
pub mod fs;
pub mod kernel;
pub mod interrupt;
pub mod memory;
pub mod process;
pub mod scheduler;




