//! Interrupt handling: how each trap cause drives the processor's state
//! machine, and how a syscall's verdict is applied to the trapped thread.
//!
//! Trap entry saves the running thread's registers and classifies the
//! cause; the handler decides, and the context staged on the kernel stack
//! afterwards is what the trap-return path restores — possibly a different
//! thread's.

use vstd::prelude::*;
use crate::interrupt::context::Context;
use crate::kernel::Kernel;
use crate::process::processor::ProcessorError;
use crate::scheduler::ThreadID;

verus! {

/// A classified trap cause, with what the kernel reads of it: the faulting
/// address of a load fault, or the character behind an external
/// (keyboard) interrupt.
#[derive(Clone, Copy, Debug, PartialEq, Eq, Structural)]
pub enum Event {
    /// An `ebreak`: step over it and continue.
    Breakpoint,
    /// A load from a bad address: the thread is killed.
    LoadFault { stval: u64 },
    /// The timer fired: the running thread is preempted.
    SupervisorTimer,
    /// A keyboard byte arrived. 3 (ctrl-C) kills the running thread; `f`
    /// forks it; anything else is echoed by the console layer.
    SupervisorExternal { c: u64 },
    /// Any other cause: unrecoverable for the thread, which is killed.
    Other,
}

/// Does this event terminate the running thread?
pub open spec fn event_kills(event: Event) -> bool {
    match event {
        Event::LoadFault { .. } => true,
        Event::Other => true,
        Event::SupervisorExternal { c } => c == 3,
        _ => false,
    }
}

impl Kernel {
    /// Evicts the running thread and schedules the next one, staging its
    /// context for the trap return.
    fn reap_current_and_schedule(&mut self) -> (r: Result<(), ProcessorError>)
        requires
            old(self).interrupt_ready(),
            old(self).processor.current()->0 != old(self).processor.idle(),
        ensures
            final(self).processes@ == old(self).processes@,
            final(self).thread_counter == old(self).thread_counter,
            final(self).stdin == old(self).stdin,
            final(self).files@ == old(self).files@,
            final(self).processor.idle() == old(self).processor.idle(),
            final(self).processor.sleeping() == old(self).processor.sleeping(),
            final(self).timer == old(self).timer,
            final(self).processor.pool().to_multiset() == old(self).processor.pool().to_multiset().remove(old(self).processor.current()->0),
            match r {
                Ok(_) => {
                    &&& final(self).interrupt_ready()
                    &&& final(self).kernel_stack.staged() is Some
                    &&& final(self).processor.current() is Some
                    &&& final(self).processor.current() != old(self).processor.current()
                },
                Err(e) => {
                    &&& e == ProcessorError::AllThreadsTerminated
                    &&& final(self).processor.pool().len() == 0
                    &&& final(self).processor.sleeping() == Set::<ThreadID>::empty()
                },
            },
    {
        let ghost pre = *old(self);
        let tid = self.processor.current_thread();
        proof {
            assert(pre.processor.pool().contains(tid));
        }
        self.processor.kill_current_thread();
        let ghost killed = *self;
        proof {
            broadcast use vstd::seq_lib::group_to_multiset_ensures;

            let pk = pre.processor.index_of(tid);
            assert forall|k: int|
                0 <= k < killed.processor.table().len() && (
                killed.processor.pool().contains(
                    (#[trigger] killed.processor.table()[k]).id,
                ) || killed.processor.table()[k].id == killed.processor.idle()) implies killed
                .processor.table()[k].inner.context is Some by {
                if k != pk {
                    assert(killed.processor.table()[k] == pre.processor.table()[k]);
                    if killed.processor.pool().contains(pre.processor.table()[k].id) {
                        assert(killed.processor.pool().to_multiset().count(
                            pre.processor.table()[k].id,
                        ) > 0);
                        assert(pre.processor.pool().contains(pre.processor.table()[k].id));
                        assert(!pre.processor.table()[k].inner.dead) by {
                            if pre.processor.table()[k].inner.dead {
                                assert(pre.processor.current() == Some(
                                    pre.processor.table()[k].id,
                                ));
                            }
                        }
                    } else {
                        assert(pre.processor.table()[k].id == pre.processor.idle());
                        assert(!pre.processor.table()[k].inner.dead) by {
                            assert(pre.processor.thread_view(pre.processor.idle()) == pre
                                .processor.table()[pre.processor.index_of(pre.processor.idle())]);
                            assert(pre.processor.index_of(pre.processor.idle()) == k);
                        }
                        assert(pre.processor.current() != Some(pre.processor.table()[k].id));
                    }
                } else {
                    assert(!killed.processor.pool().contains(killed.processor.table()[k].id)) by {
                        assert(killed.processor.pool().to_multiset().count(tid)
                            == pre.processor.pool().to_multiset().count(tid) - 1);
                        assert(pre.processor.pool().to_multiset().count(tid) <= 1);
                    }
                    assert(killed.processor.table()[k].id == tid);
                    assert(tid != killed.processor.idle());
                }
            }
        }
        let c = match self.processor.prepare_next_thread() {
            Ok(c) => c,
            Err(e) => {
                return Err(e);
            },
        };
        self.kernel_stack.push_context(c);
        proof {
            broadcast use vstd::seq_lib::group_to_multiset_ensures;

            assert forall|t: ThreadID|
                #[trigger] pre.processor.pool().contains(t) && t != tid implies killed
                .processor.pool().contains(t) by {
                assert(pre.processor.pool().to_multiset().count(t) > 0);
                assert(killed.processor.pool().to_multiset().count(t) > 0);
            }
            assert forall|t: ThreadID| #[trigger] killed.processor.pool().contains(t) implies pre
                .processor.pool().contains(t) || t == tid by {
                assert(killed.processor.pool().to_multiset().count(t) > 0);
                if t != tid {
                    assert(pre.processor.pool().to_multiset().count(t) > 0);
                }
            }
            assert(!killed.processor.pool().contains(tid)) by {
                assert(killed.processor.pool().to_multiset().count(tid) == pre
                    .processor.pool().to_multiset().count(tid) - 1);
                assert(pre.processor.pool().to_multiset().count(tid) <= 1);
            }
            self.lemma_after_schedule(pre, killed, tid);
            assert(self.processor.current() != pre.processor.current()) by {
                let t = self.processor.current()->0;
                if killed.processor.pool().len() > 0 {
                    assert(killed.processor.pool().contains(t));
                } else {
                    assert(t == killed.processor.idle());
                }
            }
        }
        Ok(())
    }

    /// After a kill (or park) followed by `prepare_next_thread`, the
    /// interrupt-ready predicate holds again.
    proof fn lemma_after_schedule(&self, pre: Kernel, mid: Kernel, tid: ThreadID)
        requires
            pre.interrupt_ready(),
            pre.processor.current() == Some(tid),
            self.processor.wf(),
            self.processor.current() is Some,
            mid.processor.table().len() == pre.processor.table().len(),
            mid.processor.idle() == pre.processor.idle(),
            mid.processor.sleeping() == pre.processor.sleeping(),
            self.processor.idle() == mid.processor.idle(),
            self.processor.sleeping() == mid.processor.sleeping(),
            self.processor.pool().to_multiset() == mid.processor.pool().to_multiset(),
            self.processes@ == pre.processes@,
            self.thread_counter == pre.thread_counter,
            self.stdin == pre.stdin,
            self.files@ == pre.files@,
            // the step from pre to mid touched at most `tid`'s record:
            forall|j: int|
                0 <= j < pre.processor.table().len() && pre.processor.table()[j].id != tid
                    ==> mid.processor.table()[j] == pre.processor.table()[j],
            forall|j: int|
                0 <= j < mid.processor.table().len() ==> (#[trigger] mid.processor.table()[j]).id
                    == pre.processor.table()[j].id,
            forall|j: int|
                0 <= j < mid.processor.table().len()
                    ==> (#[trigger] mid.processor.table()[j]).process
                    == pre.processor.table()[j].process,
            // tid's record after the step: context saved unless dead, flags lawful:
            forall|j: int|
                0 <= j < mid.processor.table().len() && mid.processor.table()[j].id == tid ==> ((
                #[trigger] mid.processor.table()[j]).inner.dead || mid.processor.table()[j].inner.context is Some),
            forall|j: int|
                0 <= j < mid.processor.table().len() ==> ((#[trigger] mid.processor.table()[j]).inner.dead
                    ==> !mid.processor.pool().contains(mid.processor.table()[j].id)),
            forall|j: int|
                0 <= j < mid.processor.table().len() && pre.processor.table()[j].id != tid ==> ((
                #[trigger] mid.processor.table()[j]).inner.dead == pre.processor.table()[j].inner.dead),
            forall|j: int|
                0 <= j < mid.processor.table().len() && mid.processor.table()[j].id == tid
                    ==> (pre.processor.table()[j].inner.dead
                    ==> (#[trigger] mid.processor.table()[j]).inner.dead),
            forall|j: int|
                0 <= j < mid.processor.table().len() && mid.processor.table()[j].id == tid && !(
                #[trigger] mid.processor.table()[j]).inner.dead ==> (mid.processor.pool().contains(
                    tid,
                ) || tid == mid.processor.idle()),
            // tid stays schedulable or is dead; pool shrank by at most tid:
            forall|t: ThreadID|
                #[trigger] mid.processor.pool().contains(t) ==> pre.processor.pool().contains(t)
                    || t == tid,
            forall|t: ThreadID|
                #[trigger] pre.processor.pool().contains(t) && t != tid
                    ==> mid.processor.pool().contains(t),
            // prepare_next_thread's effect from mid to self:
            self.processor.table() == crate::process::processor::table_with_context(
                mid.processor.table(),
                mid.processor.index_of(self.processor.current()->0),
                None,
            ),
            mid.processor.has_thread(self.processor.current()->0),
            mid.processor.pool().contains(self.processor.current()->0)
                || self.processor.current()->0 == mid.processor.idle(),
        ensures
            self.interrupt_ready(),
    {
        broadcast use vstd::seq_lib::group_to_multiset_ensures;

        let cur = self.processor.current()->0;
        let ck = mid.processor.index_of(cur);
        assert(0 <= ck < mid.processor.table().len() && mid.processor.table()[ck].id == cur);
        assert forall|j: int|
            0 <= j < self.processor.table().len() implies (#[trigger] self.processor.table()[j]).id
            == pre.processor.table()[j].id by {
            if j != ck {
                assert(self.processor.table()[j] == mid.processor.table()[j]);
            }
        }
        assert(self.wf()) by {
            assert forall|k: int|
                0 <= k < self.processor.table().len() implies (
            #[trigger] self.processor.table()[k]).id < self.thread_counter by {
                assert(self.processor.table()[k].id == pre.processor.table()[k].id);
            }
            assert forall|k: int|
                0 <= k < self.processor.table().len() implies (
            #[trigger] self.processor.table()[k]).process < self.processes@.len() by {
                if k != ck {
                    assert(self.processor.table()[k] == mid.processor.table()[k]);
                }
                assert(self.processor.table()[k].process == pre.processor.table()[k].process);
            }
            assert forall|w: int|
                0 <= w < self.stdin.condvar.watchers().len() implies self
                .processor.sleeping().contains(#[trigger] self.stdin.condvar.watchers()[w]) by {
                assert(pre.stdin.condvar.watchers()[w] == self.stdin.condvar.watchers()[w]);
                assert(pre.processor.sleeping().contains(pre.stdin.condvar.watchers()[w]));
            }
        }
        assert(self.discipline()) by {
            assert forall|k: int|
                0 <= k < self.processor.table().len() && !(
            #[trigger] self.processor.table()[k]).inner.dead implies ((
            self.processor.table()[k].inner.context is None) <==> self.processor.current() == Some(
                self.processor.table()[k].id,
            )) by {
                if k == ck {
                } else {
                    assert(self.processor.table()[k] == mid.processor.table()[k]);
                    assert(self.processor.table()[k].id != cur) by {
                        if k < ck {
                            assert(pre.processor.table()[k].id != pre.processor.table()[ck].id);
                        } else {
                            assert(pre.processor.table()[ck].id != pre.processor.table()[k].id);
                        }
                    }
                    if pre.processor.table()[k].id == tid {
                        assert(mid.processor.table()[k].inner.context is Some);
                    } else {
                        assert(mid.processor.table()[k] == pre.processor.table()[k]);
                        assert(pre.processor.current() != Some(pre.processor.table()[k].id));
                    }
                }
            }
        }
        assert(self.dead_unscheduled()) by {
            assert forall|k: int|
                0 <= k < self.processor.table().len() && (
            #[trigger] self.processor.table()[k]).inner.dead implies !self
                .processor.pool().contains(self.processor.table()[k].id) || self
                .processor.current() == Some(self.processor.table()[k].id) by {
                if k != ck {
                    assert(self.processor.table()[k] == mid.processor.table()[k]);
                    if self.processor.pool().contains(self.processor.table()[k].id) {
                        assert(self.processor.pool().to_multiset().count(
                            self.processor.table()[k].id,
                        ) > 0);
                        assert(mid.processor.pool().contains(mid.processor.table()[k].id));
                    }
                }
            }
        }
        assert(self.dead_awake()) by {
            assert forall|k: int|
                0 <= k < self.processor.table().len() && (
            #[trigger] self.processor.table()[k]).inner.dead implies !self
                .processor.sleeping().contains(self.processor.table()[k].id) by {
                if k == ck {
                    assert(mid.processor.table()[ck].inner.dead);
                    assert(!mid.processor.pool().contains(cur) || true);
                    if pre.processor.table()[ck].id == tid {
                        assert(pre.processor.sleeping().contains(tid) ==> false) by {
                            if pre.processor.sleeping().contains(tid) {
                                assert(!pre.processor.pool().contains(tid));
                            }
                        }
                        assert(!pre.processor.sleeping().contains(tid)) by {
                            assert(pre.processor.settled());
                        }
                    } else {
                        assert(mid.processor.table()[ck] == pre.processor.table()[ck]);
                        assert(!pre.processor.sleeping().contains(pre.processor.table()[ck].id))
                            by {
                            assert(pre.dead_awake());
                        }
                    }
                } else {
                    assert(self.processor.table()[k] == mid.processor.table()[k]);
                    if pre.processor.table()[k].id == tid {
                        assert(!pre.processor.sleeping().contains(tid)) by {
                            assert(pre.processor.settled());
                        }
                    } else {
                        assert(mid.processor.table()[k] == pre.processor.table()[k]);
                        assert(!pre.processor.sleeping().contains(pre.processor.table()[k].id))
                            by {
                            assert(pre.dead_awake());
                        }
                    }
                }
            }
        }
        assert(self.processor.settled()) by {
            assert forall|t: ThreadID|
                self.processor.live(t) && t != self.processor.idle() implies self
                .processor.pool().contains(t) || self.processor.sleeping().contains(t) || self
                .processor.current() == Some(t) by {
                let k = self.processor.index_of(t);
                assert(0 <= k < self.processor.table().len() && self.processor.table()[k].id == t);
                if t != cur {
                    assert(self.processor.table()[k] == mid.processor.table()[k]);
                    assert(!mid.processor.table()[k].inner.dead);
                    if pre.processor.table()[k].id == tid {
                        assert(!pre.processor.table()[k].inner.dead);
                        assert(pre.processor.settled());
                        assert(pre.processor.pool().contains(tid) || tid == pre.processor.idle());
                        if tid != pre.processor.idle() {
                            assert(mid.processor.pool().contains(tid));
                            assert(self.processor.pool().to_multiset().count(tid) > 0);
                            assert(self.processor.pool().contains(tid));
                        }
                    } else {
                        assert(mid.processor.table()[k] == pre.processor.table()[k]);
                        assert(pre.processor.live(t)) by {
                            assert(pre.processor.index_of(t) == k) by {
                                let kp = pre.processor.index_of(t);
                                assert(0 <= kp < pre.processor.table().len()
                                    && pre.processor.table()[kp].id == t);
                                if kp != k {
                                    assert(pre.processor.table()[kp].id != pre
                                        .processor.table()[k].id);
                                }
                            }
                        }
                        assert(pre.processor.pool().contains(t) || pre
                            .processor.sleeping().contains(t) || pre.processor.current() == Some(
                            t,
                        ));
                        if pre.processor.pool().contains(t) && t != tid {
                            assert(mid.processor.pool().contains(t));
                            assert(self.processor.pool().to_multiset().count(t) > 0);
                            assert(self.processor.pool().contains(t));
                        }
                    }
                }
            }
            assert(!self.processor.sleeping().contains(cur)) by {
                if self.processor.sleeping().contains(cur) {
                    assert(mid.processor.pool().contains(cur) ==> !mid
                        .processor.sleeping().contains(cur));
                }
            }
            assert(cur != self.processor.idle() ==> self.processor.pool().contains(cur)) by {
                if cur != self.processor.idle() {
                    assert(mid.processor.pool().contains(cur));
                    assert(self.processor.pool().to_multiset().count(cur) > 0);
                }
            }
        }
    }

    /// Preempts the running thread: its context is saved, the scheduler
    /// picks who runs next (possibly the same thread), and that thread's
    /// context is staged.
    fn switch_thread(&mut self, context: Context) -> (r: Result<(), ProcessorError>)
        requires
            old(self).interrupt_ready(),
            !old(self).processor.thread_view(old(self).processor.current()->0).inner.dead,
            context.wf(),
        ensures
            final(self).processes@ == old(self).processes@,
            final(self).thread_counter == old(self).thread_counter,
            final(self).stdin == old(self).stdin,
            final(self).files@ == old(self).files@,
            final(self).processor.idle() == old(self).processor.idle(),
            final(self).processor.sleeping() == old(self).processor.sleeping(),
            final(self).timer == old(self).timer,
            final(self).processor.pool().to_multiset() == old(self).processor.pool().to_multiset(),
            match r {
                Ok(_) => {
                    &&& final(self).interrupt_ready()
                    &&& final(self).kernel_stack.staged() is Some
                    &&& final(self).processor.current() is Some
                    &&& (old(self).processor.sched() is Fifo && old(self).processor.pool().len()
                        > 0 ==> final(self).processor.current() == Some(
                        old(self).processor.pool()[0],
                    ))
                    &&& (old(self).processor.sched() is Stride && old(self).processor.pool().len()
                        > 0 ==> crate::scheduler::stride_scheduler::stride_select(
                        old(self).processor.sched()->Stride_0.entries(),
                        old(self).processor.sched()->Stride_0.big_stride(),
                        final(self).processor.current(),
                        final(self).processor.sched()->Stride_0.entries(),
                        final(self).processor.sched()->Stride_0.current_min(),
                    ))
                },
                Err(e) => {
                    &&& e == ProcessorError::AllThreadsTerminated
                    &&& final(self).processor.pool().len() == 0
                    &&& final(self).processor.sleeping() == Set::<ThreadID>::empty()
                },
            },
    {
        let ghost pre = *old(self);
        let tid = self.processor.current_thread();
        proof {
            let pk = pre.processor.index_of(tid);
            assert(pre.processor.table()[pk].inner.context is None) by {
                assert(!pre.processor.table()[pk].inner.dead);
            }
        }
        self.processor.park_current_thread(context);
        let ghost mid = *self;
        proof {
            broadcast use vstd::seq_lib::group_to_multiset_ensures;

            let pk = pre.processor.index_of(tid);
            assert forall|k: int|
                0 <= k < mid.processor.table().len() && (mid.processor.pool().contains(
                    (#[trigger] mid.processor.table()[k]).id,
                ) || mid.processor.table()[k].id == mid.processor.idle()) implies mid
                .processor.table()[k].inner.context is Some by {
                if k != pk {
                    assert(mid.processor.table()[k] == pre.processor.table()[k]);
                    assert(pre.processor.table()[k].id != tid) by {
                        if k < pk {
                            assert(pre.processor.table()[k].id != pre.processor.table()[pk].id);
                        } else {
                            assert(pre.processor.table()[pk].id != pre.processor.table()[k].id);
                        }
                    }
                    assert(!pre.processor.table()[k].inner.dead) by {
                        if pre.processor.table()[k].inner.dead {
                            if mid.processor.pool().contains(pre.processor.table()[k].id) {
                                assert(pre.dead_unscheduled());
                            } else {
                                assert(pre.processor.table()[k].id == pre.processor.idle());
                                assert(pre.processor.index_of(pre.processor.idle()) == k);
                            }
                        }
                    }
                }
            }
        }
        let c = match self.processor.prepare_next_thread() {
            Ok(c) => c,
            Err(e) => {
                return Err(e);
            },
        };
        self.kernel_stack.push_context(c);
        proof {
            self.lemma_after_schedule(pre, mid, tid);
        }
        Ok(())
    }

    /// Handles one classified trap. The thread is first reaped if it
    /// already flagged itself dead; otherwise a breakpoint steps over the
    /// instruction, the timer preempts, a fault or a ctrl-C kills, an `f`
    /// forks, and any other input byte just resumes the thread (the
    /// console layer echoes it). The context to restore ends up staged on
    /// the kernel stack.
    pub fn handle_interrupt(&mut self, context: Context, event: Event) -> (r: Result<
        (),
        ProcessorError,
    >)
        requires
            old(self).interrupt_ready(),
            context.wf(),
            event_kills(event) || old(self).processor.thread_view(
                old(self).processor.current()->0,
            ).inner.dead ==> old(self).processor.current()->0 != old(self).processor.idle(),
            event is Breakpoint ==> context.sepc + 2 <= u64::MAX,
            event matches Event::SupervisorExternal { c } && c == 102 ==> {
                &&& old(self).thread_counter < ThreadID::MAX
                &&& old(self).processor.thread_view(
                    old(self).processor.current()->0,
                ).stack.start.0 <= context.x@[2] <= old(self).processor.thread_view(
                    old(self).processor.current()->0,
                ).stack.end.0
                &&& crate::memory::max_segment_end(
                    old(self).processes@[old(self).processor.thread_view(
                        old(self).processor.current()->0,
                    ).process as int].inner.memory_set.segments(),
                    crate::process::process::ALLOC_BASE as int,
                ) + 2 * crate::process::process::page_round(
                    crate::process::STACK_SIZE as int,
                ) <= u64::MAX
            },
        ensures
            match r {
                Ok(_) => final(self).interrupt_ready() && final(self).kernel_stack.staged()
                    is Some,
                Err(e) => {
                    &&& e == ProcessorError::AllThreadsTerminated
                    &&& final(self).processor.pool().len() == 0
                    &&& final(self).processor.sleeping() == Set::<ThreadID>::empty()
                },
            },
            !(old(self).processor.thread_view(old(self).processor.current()->0).inner.dead
                || event_kills(event) || (event matches Event::SupervisorExternal { c } && c
                == 102)) ==> final(self).processor.pool().to_multiset() == old(self).processor.pool().to_multiset(),
            (old(self).processor.thread_view(old(self).processor.current()->0).inner.dead
                || event_kills(event)) ==> final(self).processor.pool().to_multiset() == old(self).processor.pool().to_multiset().remove(old(self).processor.current()->0),
            event is SupervisorTimer && !old(self).processor.thread_view(
                old(self).processor.current()->0,
            ).inner.dead ==> final(self).timer.ticks() == (if old(self).timer.ticks() < u64::MAX {
                old(self).timer.ticks() + 1
            } else {
                old(self).timer.ticks() as int
            }),
            (event is SupervisorTimer && !old(self).processor.thread_view(
                old(self).processor.current()->0,
            ).inner.dead && r is Ok) ==> {
                &&& (old(self).processor.sched() is Fifo && old(self).processor.pool().len() > 0
                    ==> final(self).processor.current() == Some(old(self).processor.pool()[0]))
                &&& (old(self).processor.sched() is Stride && old(self).processor.pool().len() > 0
                    ==> crate::scheduler::stride_scheduler::stride_select(
                    old(self).processor.sched()->Stride_0.entries(),
                    old(self).processor.sched()->Stride_0.big_stride(),
                    final(self).processor.current(),
                    final(self).processor.sched()->Stride_0.entries(),
                    final(self).processor.sched()->Stride_0.current_min(),
                ))
            },
            (event is Breakpoint && !old(self).processor.thread_view(
                old(self).processor.current()->0,
            ).inner.dead) ==> (final(self).processor == old(self).processor
                && (final(self).kernel_stack.staged() matches Some(c2) && c2.x@ == context.x@
                && c2.sepc == context.sepc + 2 && c2.sstatus == context.sstatus)),
            (event matches Event::SupervisorExternal { c } && c == 102 && !old(self).processor.thread_view(old(self).processor.current()->0).inner.dead) ==> (r is Ok
                && final(self).processor.pool().to_multiset() == old(self).processor.pool().to_multiset().insert(old(self).thread_counter) && final(self).thread_counter == old(self).thread_counter + 1 && final(self).kernel_stack.staged()
                == Some(context) && final(self).processor.current() == old(self).processor.current()),
            (event matches Event::SupervisorExternal { c } && c != 102 && c != 3 && !old(self).processor.thread_view(old(self).processor.current()->0).inner.dead) ==> (final(self).processor == old(self).processor && final(self).kernel_stack.staged() == Some(
                context,
            )),
    {
        if self.processor.current_is_dead() {
            proof {
                let cur = old(self).processor.current()->0;
                assert(old(self).processor.pool().contains(cur)) by {
                    assert(cur != old(self).processor.idle()) by {
                        let k = old(self).processor.index_of(cur);
                        if cur == old(self).processor.idle() {
                            assert(!old(self).processor.thread_view(
                                old(self).processor.idle(),
                            ).inner.dead);
                        }
                    }
                }
            }
            return self.reap_current_and_schedule();
        }
        match event {
            Event::Breakpoint => {
                let mut ctx = context;
                ctx.sepc = ctx.sepc + 2;
                self.kernel_stack.push_context(ctx);
                Ok(())
            },
            Event::SupervisorTimer => {
                self.timer.tick();
                self.switch_thread(context)
            },
            Event::SupervisorExternal { c } => {
                if c == 3 {
                    proof {
                        assert(old(self).processor.pool().contains(
                            old(self).processor.current()->0,
                        ));
                    }
                    self.reap_current_and_schedule()
                } else if c == 102 {
                    let res = self.sys_fork(&context);
                    proof {
                        assert(res is Ok);
                    }
                    self.kernel_stack.push_context(context);
                    proof {
                        broadcast use vstd::seq_lib::group_to_multiset_ensures;

                        self.lemma_ready_after_spawn(*old(self), old(self).thread_counter);
                    }
                    Ok(())
                } else {
                    self.kernel_stack.push_context(context);
                    Ok(())
                }
            },
            Event::LoadFault { stval: _ } => {
                proof {
                    assert(old(self).processor.pool().contains(
                        old(self).processor.current()->0,
                    ));
                }
                self.reap_current_and_schedule()
            },
            Event::Other => {
                proof {
                    assert(old(self).processor.pool().contains(
                        old(self).processor.current()->0,
                    ));
                }
                self.reap_current_and_schedule()
            },
        }
    }

    /// Admitting one fresh, ready thread keeps the interrupt-ready state.
    proof fn lemma_ready_after_spawn(&self, pre: Kernel, new_id: ThreadID)
        requires
            pre.interrupt_ready(),
            self.wf(),
            self.processor.current() == pre.processor.current(),
            self.processor.idle() == pre.processor.idle(),
            self.processor.sleeping() == pre.processor.sleeping(),
            self.processor.pool() == pre.processor.pool().push(new_id),
            self.processor.table().len() == pre.processor.table().len() + 1,
            forall|j: int|
                0 <= j < pre.processor.table().len() ==> #[trigger] self.processor.table()[j]
                    == pre.processor.table()[j],
            self.processor.table().last().id == new_id,
            !self.processor.table().last().inner.dead,
            self.processor.table().last().inner.context is Some,
            !pre.processor.has_thread(new_id),
        ensures
            self.discipline(),
            self.dead_unscheduled(),
            self.dead_awake(),
            self.processor.settled(),
            self.interrupt_ready(),
    {
        broadcast use vstd::seq_lib::group_to_multiset_ensures;

        let n = pre.processor.table().len() as int;
        assert(self.discipline()) by {
            assert forall|k: int|
                0 <= k < self.processor.table().len() && !(
            #[trigger] self.processor.table()[k]).inner.dead implies ((
            self.processor.table()[k].inner.context is None) <==> self.processor.current() == Some(
                self.processor.table()[k].id,
            )) by {
                if k < n {
                    assert(self.processor.table()[k] == pre.processor.table()[k]);
                } else {
                    assert(self.processor.current() == pre.processor.current());
                    assert(pre.processor.current() matches Some(t) ==> pre.processor.has_thread(
                        t,
                    ));
                    assert(self.processor.current() != Some(new_id));
                }
            }
        }
        assert(self.dead_unscheduled()) by {
            assert forall|k: int|
                0 <= k < self.processor.table().len() && (
            #[trigger] self.processor.table()[k]).inner.dead implies !self
                .processor.pool().contains(self.processor.table()[k].id) || self
                .processor.current() == Some(self.processor.table()[k].id) by {
                if k < n {
                    assert(self.processor.table()[k] == pre.processor.table()[k]);
                    if self.processor.pool().contains(pre.processor.table()[k].id) {
                        assert(pre.processor.pool().contains(pre.processor.table()[k].id)
                            || pre.processor.table()[k].id == new_id) by {
                            assert(self.processor.pool().to_multiset() =~= pre
                                .processor.pool().to_multiset().insert(new_id));
                            if pre.processor.table()[k].id != new_id {
                                assert(self.processor.pool().to_multiset().count(
                                    pre.processor.table()[k].id,
                                ) > 0);
                                assert(pre.processor.pool().to_multiset().count(
                                    pre.processor.table()[k].id,
                                ) > 0);
                            }
                        }
                        assert(pre.processor.table()[k].id != new_id) by {
                            if pre.processor.table()[k].id == new_id {
                                assert(pre.processor.has_thread(new_id));
                            }
                        }
                    }
                }
            }
        }
        assert(self.dead_awake()) by {
            assert forall|k: int|
                0 <= k < self.processor.table().len() && (
            #[trigger] self.processor.table()[k]).inner.dead implies !self
                .processor.sleeping().contains(self.processor.table()[k].id) by {
                if k < n {
                    assert(self.processor.table()[k] == pre.processor.table()[k]);
                    assert(pre.dead_awake());
                }
            }
        }
        assert(self.processor.settled()) by {
            assert forall|t: ThreadID|
                self.processor.live(t) && t != self.processor.idle() implies self
                .processor.pool().contains(t) || self.processor.sleeping().contains(t) || self
                .processor.current() == Some(t) by {
                let k = self.processor.index_of(t);
                assert(0 <= k < self.processor.table().len() && self.processor.table()[k].id == t);
                if k < n {
                    assert(self.processor.table()[k] == pre.processor.table()[k]);
                    assert(pre.processor.live(t)) by {
                        assert(pre.processor.index_of(t) == k) by {
                            let kp = pre.processor.index_of(t);
                            assert(pre.processor.has_thread(t)) by {
                                assert(pre.processor.table()[k].id == t);
                            }
                            assert(0 <= kp < pre.processor.table().len()
                                && pre.processor.table()[kp].id == t);
                            if kp != k {
                                assert(self.processor.table()[kp] == pre.processor.table()[kp]);
                                assert(self.processor.table()[kp].id != self
                                    .processor.table()[k].id);
                            }
                        }
                    }
                    if pre.processor.pool().contains(t) {
                        assert(self.processor.pool().contains(t)) by {
                            let i = choose|i: int|
                                0 <= i < pre.processor.pool().len() && pre.processor.pool()[i]
                                    == t;
                            assert(self.processor.pool()[i] == t);
                        }
                    }
                } else {
                    assert(t == new_id);
                    assert(self.processor.pool().contains(new_id)) by {
                        assert(self.processor.pool().last() == new_id);
                    }
                }
            }
            assert(self.processor.current() matches Some(c2) ==> !self
                .processor.sleeping().contains(c2) && (c2 != self.processor.idle()
                ==> self.processor.pool().contains(c2))) by {
                match self.processor.current() {
                    Some(c2) => {
                        if c2 != self.processor.idle() {
                            assert(pre.processor.pool().contains(c2));
                            let i = choose|i: int|
                                0 <= i < pre.processor.pool().len() && pre.processor.pool()[i]
                                    == c2;
                            assert(self.processor.pool()[i] == c2);
                        }
                    },
                    None => {},
                }
            }
        }
    }
}

} // verus!
