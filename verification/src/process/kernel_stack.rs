//! The shared kernel stack that interrupt handling runs on.
//!
//! Only one thread traps at a time on a single hart, so one stack serves
//! them all. What the scheduler cares about is the context staged at its
//! top: the register set the trap-return path will restore next.

use vstd::prelude::*;
use crate::interrupt::context::Context;

verus! {

/// The kernel stack, seen as the slot for the context to restore next.
/// The raw bytes under it belong to the trap entry code.
pub struct KernelStack {
    top: Option<Context>,
}

impl KernelStack {
    /// The context staged for the next trap return, if any.
    pub closed spec fn staged(&self) -> Option<Context> {
        self.top
    }

    /// A kernel stack with nothing staged.
    pub fn new() -> (r: Self)
        ensures
            r.staged() is None,
    {
        KernelStack { top: None }
    }

    /// Stages `context` at the top of the stack; the trap-return path
    /// restores what is staged here.
    pub fn push_context(&mut self, context: Context)
        ensures
            final(self).staged() == Some(context),
    {
        self.top = Some(context);
    }

    /// Takes the staged context; the trap-return path consumes it to
    /// restore registers.
    pub fn take_staged(&mut self) -> (r: Option<Context>)
        ensures
            r == old(self).staged(),
            final(self).staged() is None,
    {
        self.top.take()
    }
}

} // verus!
