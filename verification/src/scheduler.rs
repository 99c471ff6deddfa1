//! Capability contract for scheduling: admit a thread, pick the next one to
//! run, evict one, reprioritize one. Two interchangeable algorithms are
//! provided (FIFO round-robin and Stride fairness scheduling), selected at
//! startup through [`SchedulerImpl`].

pub mod fifo_scheduler;
pub mod stride_scheduler;

use vstd::prelude::*;
use crate::scheduler::fifo_scheduler::{FifoScheduler, fifo_rotate};
use crate::scheduler::stride_scheduler::{
    StrideScheduler, StrideThread, stride_select, stride_reprioritize, lemma_best_upto_range,
    min_pass_index,
};

verus! {

/// A thread handle: signed so that negative values can carry error codes
/// through the syscall interface.
pub type ThreadID = isize;

/// The scheduling policy chosen at startup, with the pool it manages.
pub enum SchedulerImpl {
    Fifo(FifoScheduler),
    Stride(StrideScheduler),
}

impl SchedulerImpl {
    /// The handles currently admitted, in the policy's own pool order.
    pub open spec fn pool(&self) -> Seq<ThreadID> {
        match self {
            SchedulerImpl::Fifo(f) => f.queue(),
            SchedulerImpl::Stride(s) => s.thread_ids(),
        }
    }

    pub open spec fn wf(&self) -> bool {
        match self {
            SchedulerImpl::Fifo(f) => true,
            SchedulerImpl::Stride(s) => s.wf(),
        }
    }

    /// Admits `thread` to the pool; never fails. FIFO ignores the
    /// priority; Stride uses it as the ticket count.
    pub fn add_thread(&mut self, thread: ThreadID, priority: usize)
        requires
            old(self).wf(),
            priority < usize::MAX,
        ensures
            final(self).wf(),
            final(self).pool() == old(self).pool().push(thread),
            (*old(self)) is Fifo <==> (*final(self)) is Fifo,
            (*final(self)) is Stride ==> {
                &&& final(self)->Stride_0.entries() == old(self)->Stride_0.entries().push(
                    StrideThread {
                        ticket: priority,
                        pass: (old(self)->Stride_0.current_min() as usize),
                        thread,
                    },
                )
                &&& final(self)->Stride_0.current_min() == old(self)->Stride_0.current_min()
            },
    {
        match self {
            SchedulerImpl::Fifo(f) => f.add_thread(thread, priority),
            SchedulerImpl::Stride(s) => s.add_thread(thread, priority),
        }
    }

    /// Picks the thread to run next, or returns `None` exactly when the
    /// pool is empty. The picked thread stays in the pool: FIFO moves it
    /// from the front to the back; Stride advances its pass.
    pub fn get_next(&mut self) -> (r: Option<ThreadID>)
        requires
            old(self).wf(),
        ensures
            final(self).wf(),
            (*old(self)) is Fifo <==> (*final(self)) is Fifo,
            r is Some <==> old(self).pool().len() > 0,
            r matches Some(t) ==> old(self).pool().contains(t),
            final(self).pool().to_multiset() == old(self).pool().to_multiset(),
            old(self).pool().len() == 0 ==> final(self).pool() == old(self).pool(),
            (*final(self)) is Fifo && old(self).pool().len() > 0 ==> {
                &&& r == Some(old(self).pool()[0])
                &&& final(self).pool() == fifo_rotate(old(self).pool())
            },
            (*final(self)) is Stride && old(self).pool().len() > 0 ==> stride_select(
                old(self)->Stride_0.entries(),
                old(self)->Stride_0.big_stride(),
                r,
                final(self)->Stride_0.entries(),
                final(self)->Stride_0.current_min(),
            ),
    {
        let r = match self {
            SchedulerImpl::Fifo(f) => f.get_next(),
            SchedulerImpl::Stride(s) => s.get_next(),
        };
        proof {
            if old(self).pool().len() > 0 {
                if (*old(self)) is Fifo {
                    assert(old(self).pool().contains(old(self).pool()[0]));
                } else {
                    let pre = old(self)->Stride_0.entries();
                    lemma_best_upto_range(pre, pre.len() as int);
                    let best = min_pass_index(pre);
                    assert(old(self).pool()[best] == pre[best].thread);
                    assert(old(self).pool().contains(pre[best].thread));
                }
            }
        }
        r
    }

    /// Evicts the one pool entry whose handle is `*thread`; admitting a
    /// handle twice and then evicting it, or evicting a handle that was
    /// never admitted, is a caller bug, excluded by `requires`.
    pub fn remove_thread(&mut self, thread: &ThreadID)
        requires
            old(self).wf(),
            old(self).pool().to_multiset().count(*thread) == 1,
        ensures
            final(self).wf(),
            (*old(self)) is Fifo <==> (*final(self)) is Fifo,
            final(self).pool().to_multiset() == old(self).pool().to_multiset().remove(*thread),
            exists|k: int|
                {
                    &&& 0 <= k < old(self).pool().len()
                    &&& old(self).pool()[k] == *thread
                    &&& final(self).pool() == old(self).pool().remove(k)
                },
    {
        match self {
            SchedulerImpl::Fifo(f) => f.remove_thread(thread),
            SchedulerImpl::Stride(s) => s.remove_thread(thread),
        }
    }

    /// Reprioritizes `thread`: a no-op for FIFO, a ticket update for every
    /// matching Stride entry.
    pub fn set_priority(&mut self, thread: ThreadID, priority: usize)
        requires
            old(self).wf(),
            priority < usize::MAX,
        ensures
            final(self).wf(),
            (*old(self)) is Fifo <==> (*final(self)) is Fifo,
            final(self).pool() == old(self).pool(),
            (*final(self)) is Fifo ==> *final(self) == *old(self),
            (*final(self)) is Stride ==> {
                &&& final(self)->Stride_0.entries() == stride_reprioritize(
                    old(self)->Stride_0.entries(),
                    thread,
                    priority,
                )
                &&& final(self)->Stride_0.current_min() == old(self)->Stride_0.current_min()
            },
    {
        match self {
            SchedulerImpl::Fifo(f) => f.set_priority(thread, priority),
            SchedulerImpl::Stride(s) => s.set_priority(thread, priority),
        }
    }
}

} // verus!
