//! The interrupt boundary: the saved register context that trap entry
//! hands to the kernel, the events a trap can report, and the handler
//! decisions that drive the processor's state machine.

pub mod context;
pub mod handler;
pub mod timer;
