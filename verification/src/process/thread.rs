//! A thread: an execution context owned by a process.

use vstd::prelude::*;
use crate::interrupt::context::Context;
use crate::memory::{Flags, MemoryResult, VirtualRange};
use crate::process::STACK_SIZE;
use crate::process::process::Process;
use crate::scheduler::ThreadID;

verus! {

/// The mutable part of a thread.
pub struct ThreadInner {
    /// The saved registers — `Some` exactly while the thread is not
    /// running.
    pub context: Option<Context>,
    /// Whether the thread waits for an external event, out of the
    /// scheduler's pool.
    pub sleeping: bool,
    /// Whether the thread has ended and waits to be reaped.
    pub dead: bool,
    /// The scheduling priority (the Stride ticket count).
    pub priority: usize,
}

/// A thread: its identity, its stack, its owning process (by index into
/// the kernel's process table) and its mutable state.
pub struct Thread {
    /// Monotonic identifier; always positive, so negative values can
    /// carry errors.
    pub id: ThreadID,
    /// The virtual address range of its stack, owned by its process.
    pub stack: VirtualRange,
    /// The owning process's slot in the kernel's process table.
    pub process: usize,
    pub inner: ThreadInner,
}

impl Thread {
    /// A thread record is well formed when its saved context (if any)
    /// carries the full register file and its priority leaves room for
    /// the Stride divisor.
    pub open spec fn wf(&self) -> bool {
        &&& match self.inner.context {
            Some(c) => c.wf(),
            None => true,
        }
        &&& self.inner.priority < usize::MAX
        &&& self.id >= 1
    }

    /// Creates a thread in `process`: allocates its stack from the
    /// process, builds its initial context at its entry point, and starts
    /// it ready (not sleeping, not dead). Fails only when no stack range
    /// fits in the address space.
    pub fn new(
        process: &mut Process,
        process_id: usize,
        id: ThreadID,
        entry_point: u64,
        arguments: Option<&Vec<u64>>,
        priority: usize,
    ) -> (r: MemoryResult<Thread>)
        requires
            id >= 1,
            priority < usize::MAX,
            match arguments {
                Some(a) => a@.len() <= 8,
                None => true,
            },
        ensures
            final(process).is_user == old(process).is_user,
            final(process).inner.descriptors@ == old(process).inner.descriptors@,
            match r {
                Ok(t) => {
                    &&& t.wf()
                    &&& t.id == id
                    &&& t.process == process_id
                    &&& !t.inner.sleeping
                    &&& !t.inner.dead
                    &&& t.inner.priority == priority
                    &&& t.stack.end.0 == t.stack.start.0 + STACK_SIZE
                    &&& final(process).inner.memory_set.segments() == old(
                        process,
                    ).inner.memory_set.segments().push(
                        crate::memory::Segment {
                            range: VirtualRange {
                                start: t.stack.start,
                                end: crate::memory::address::VirtualAddress(
                                    (t.stack.start.0 + crate::process::process::page_round(
                                        STACK_SIZE as int,
                                    )) as u64,
                                ),
                            },
                            flags: Flags {
                                readable: true,
                                writable: true,
                                user: old(process).is_user,
                            },
                        },
                    )
                    &&& forall|k: int|
                        0 <= k < old(process).inner.memory_set.segments().len()
                            ==> !crate::memory::ranges_overlap(
                            (#[trigger] old(process).inner.memory_set.segments()[k]).range.start.0
                                as int,
                            old(process).inner.memory_set.segments()[k].range.end.0 as int,
                            t.stack.start.0 as int,
                            t.stack.start.0 + crate::process::process::page_round(
                                STACK_SIZE as int,
                            ),
                        )
                    &&& t.inner.context matches Some(c) && c.wf() && c.x@[2] == t.stack.end.0
                        && c.sepc == entry_point && c.sstatus.spp_user == old(process).is_user
                        && c.sstatus.spie
                },
                Err(_) => *final(process) == *old(process),
            },
            crate::memory::max_segment_end(
                old(process).inner.memory_set.segments(),
                crate::process::process::ALLOC_BASE as int,
            ) + 2 * crate::process::process::page_round(STACK_SIZE as int) <= u64::MAX ==> r is Ok,
    {
        let stack = match process.alloc_page_range(
            STACK_SIZE,
            Flags { readable: true, writable: true, user: false },
        ) {
            Ok(stack) => stack,
            Err(e) => {
                return Err(e);
            },
        };
        let context = Context::new(stack.end.0, entry_point, arguments, process.is_user);
        Ok(
            Thread {
                id,
                stack,
                process: process_id,
                inner: ThreadInner {
                    context: Some(context),
                    sleeping: false,
                    dead: false,
                    priority,
                },
            },
        )
    }

    /// Takes the saved context to run the thread; activating its
    /// process's page table and staging the context on the kernel stack
    /// are the caller's next steps.
    pub fn prepare(&mut self) -> (c: Context)
        requires
            old(self).inner.context is Some,
        ensures
            final(self).inner.context is None,
            Some(c) == old(self).inner.context,
            final(self).id == old(self).id,
            final(self).stack == old(self).stack,
            final(self).process == old(self).process,
            final(self).inner.sleeping == old(self).inner.sleeping,
            final(self).inner.dead == old(self).inner.dead,
            final(self).inner.priority == old(self).inner.priority,
    {
        let c = self.inner.context.take().unwrap();
        c
    }

    /// Saves the context of the thread when it is interrupted; parking a
    /// thread that already holds a saved context is a caller bug,
    /// excluded by `requires`.
    pub fn park(&mut self, context: Context)
        requires
            old(self).inner.context is None,
        ensures
            final(self).inner.context == Some(context),
            final(self).id == old(self).id,
            final(self).stack == old(self).stack,
            final(self).process == old(self).process,
            final(self).inner.sleeping == old(self).inner.sleeping,
            final(self).inner.dead == old(self).inner.dead,
            final(self).inner.priority == old(self).inner.priority,
    {
        self.inner.context = Some(context);
    }

    /// Creates an almost identical copy of this thread in the same
    /// process: a fresh stack, and a clone of the trapped context whose
    /// stack pointer is moved to the same offset in the new stack and
    /// whose first argument register is zeroed, so the child resumes the
    /// syscall with return value 0. Copying the parent's stack bytes into
    /// the new range is the memory layer's step. Fails only when no stack
    /// range fits.
    pub fn fork(
        &self,
        process: &mut Process,
        new_id: ThreadID,
        current_context: &Context,
    ) -> (r: MemoryResult<Thread>)
        requires
            new_id >= 1,
            self.wf(),
            current_context.wf(),
            self.stack.start.0 <= current_context.x@[2] <= self.stack.end.0,
            self.stack.end.0 == self.stack.start.0 + STACK_SIZE,
        ensures
            final(process).is_user == old(process).is_user,
            final(process).inner.descriptors@ == old(process).inner.descriptors@,
            match r {
                Ok(t) => {
                    &&& t.wf()
                    &&& t.id == new_id
                    &&& t.process == self.process
                    &&& !t.inner.sleeping
                    &&& !t.inner.dead
                    &&& t.inner.priority == self.inner.priority
                    &&& t.stack.end.0 == t.stack.start.0 + STACK_SIZE
                    &&& final(process).inner.memory_set.segments() == old(
                        process,
                    ).inner.memory_set.segments().push(
                        crate::memory::Segment {
                            range: VirtualRange {
                                start: t.stack.start,
                                end: crate::memory::address::VirtualAddress(
                                    (t.stack.start.0 + crate::process::process::page_round(
                                        STACK_SIZE as int,
                                    )) as u64,
                                ),
                            },
                            flags: Flags {
                                readable: true,
                                writable: true,
                                user: old(process).is_user,
                            },
                        },
                    )
                    &&& forall|k: int|
                        0 <= k < old(process).inner.memory_set.segments().len()
                            ==> !crate::memory::ranges_overlap(
                            (#[trigger] old(process).inner.memory_set.segments()[k]).range.start.0
                                as int,
                            old(process).inner.memory_set.segments()[k].range.end.0 as int,
                            t.stack.start.0 as int,
                            t.stack.start.0 + crate::process::process::page_round(
                                STACK_SIZE as int,
                            ),
                        )
                    &&& t.inner.context matches Some(c) && c.wf() && c.x@[2] == t.stack.start.0
                        + (current_context.x@[2] - self.stack.start.0) && c.x@[10] == 0 && c.sepc
                        == current_context.sepc && c.sstatus == current_context.sstatus && forall|
                        i: int,
                    |
                        0 <= i < 32 && i != 2 && i != 10 ==> c.x@[i] == current_context.x@[i]
                },
                Err(_) => *final(process) == *old(process),
            },
            crate::memory::max_segment_end(
                old(process).inner.memory_set.segments(),
                crate::process::process::ALLOC_BASE as int,
            ) + 2 * crate::process::process::page_round(STACK_SIZE as int) <= u64::MAX ==> r is Ok,
    {
        let stack = match process.alloc_page_range(
            STACK_SIZE,
            Flags { readable: true, writable: true, user: false },
        ) {
            Ok(stack) => stack,
            Err(e) => {
                return Err(e);
            },
        };
        let mut context = current_context.duplicate();
        context.set_sp(stack.start.0 + (current_context.sp() - self.stack.start.0));
        let mut a0: Vec<u64> = Vec::new();
        a0.push(0);
        context.set_arguments(&a0);
        proof {
            assert(context.x@[10 + 0int] == a0@[0]);
        }
        Ok(
            Thread {
                id: new_id,
                stack,
                process: self.process,
                inner: ThreadInner {
                    context: Some(context),
                    sleeping: false,
                    dead: false,
                    priority: self.inner.priority,
                },
            },
        )
    }
}

} // verus!
