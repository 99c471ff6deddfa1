//! A condition variable: threads that called a blocking syscall sleep here
//! until an external event (such as input arriving) wakes the front one.

use std::collections::VecDeque;
use vstd::prelude::*;
use crate::process::processor::Processor;
use crate::scheduler::ThreadID;

verus! {

/// The threads waiting on this condition, in arrival order.
pub struct Condvar {
    watchers: VecDeque<ThreadID>,
}

impl Condvar {
    /// The waiting threads, front first.
    pub closed spec fn watchers(&self) -> Seq<ThreadID> {
        self.watchers@
    }

    /// Every watcher is asleep in `processor`, and none is queued twice.
    pub open spec fn wf_with(&self, processor: &Processor) -> bool {
        &&& forall|w: int|
            0 <= w < self.watchers().len() ==> processor.sleeping().contains(
                #[trigger] self.watchers()[w],
            )
        &&& self.watchers().no_duplicates()
    }

    /// A condition variable nobody waits on.
    pub fn new() -> (r: Self)
        ensures
            r.watchers() == Seq::<ThreadID>::empty(),
    {
        Condvar { watchers: VecDeque::new() }
    }

    /// Puts the running thread to sleep waiting on this condition: it
    /// joins the watcher queue and leaves the scheduler pool.
    pub fn wait(&mut self, processor: &mut Processor)
        requires
            old(processor).wf(),
            old(processor).current() is Some,
            old(processor).pool().contains(old(processor).current()->0),
            old(self).wf_with(old(processor)),
        ensures
            final(processor).wf(),
            final(self).watchers() == old(self).watchers().push(old(processor).current()->0),
            final(self).wf_with(final(processor)),
            final(processor).table() == crate::process::processor::table_with_sleeping(
                old(processor).table(),
                old(processor).index_of(old(processor).current()->0),
                true,
            ),
            final(processor).pool().to_multiset() == old(processor).pool().to_multiset().remove(
                old(processor).current()->0,
            ),
            final(processor).sleeping() == old(processor).sleeping().insert(
                old(processor).current()->0,
            ),
            final(processor).current() == old(processor).current(),
            final(processor).idle() == old(processor).idle(),
    {
        let tid = processor.current_thread();
        proof {
            broadcast use vstd::seq_lib::group_to_multiset_ensures;

            assert(!old(self).watchers().contains(tid)) by {
                if old(self).watchers().contains(tid) {
                    assert(old(processor).sleeping().contains(tid));
                    assert(!old(processor).pool().contains(tid));
                }
            }
        }
        self.watchers.push_back(tid);
        processor.sleep_current_thread();
        proof {
            broadcast use vstd::seq_lib::group_to_multiset_ensures;

            assert forall|w: int| 0 <= w < self.watchers().len() implies processor
                .sleeping().contains(#[trigger] self.watchers()[w]) by {
                if w < self.watchers().len() - 1 {
                    assert(old(self).watchers().contains(old(self).watchers()[w]));
                }
            }
            assert(self.watchers().no_duplicates()) by {
                assert forall|i: int, j: int|
                    0 <= i < j < self.watchers().len() implies self.watchers()[i] != self
                    .watchers()[j] by {
                    if j < self.watchers().len() - 1 {
                        assert(old(self).watchers()[i] != old(self).watchers()[j]);
                    } else {
                        assert(old(self).watchers().contains(old(self).watchers()[i]));
                    }
                }
            }
        }
    }

    /// Wakes the watcher at the front of the queue, if any: it re-enters
    /// the scheduler pool, eligible but not preempting anyone.
    pub fn notify_one(&mut self, processor: &mut Processor)
        requires
            old(processor).wf(),
            old(self).wf_with(old(processor)),
        ensures
            final(processor).wf(),
            final(self).wf_with(final(processor)),
            old(self).watchers().len() == 0 ==> final(self).watchers() == old(self).watchers()
                && *final(processor) == *old(processor),
            old(self).watchers().len() > 0 ==> {
                &&& final(self).watchers() == old(self).watchers().drop_first()
                &&& final(processor).pool() == old(processor).pool().push(
                    old(self).watchers()[0],
                )
                &&& final(processor).sleeping() == old(processor).sleeping().remove(
                    old(self).watchers()[0],
                )
                &&& final(processor).table()
                    == crate::process::processor::table_with_sleeping(
                    old(processor).table(),
                    old(processor).index_of(old(self).watchers()[0]),
                    false,
                )
                &&& final(processor).current() == old(processor).current()
            },
            final(processor).idle() == old(processor).idle(),
    {
        if let Some(thread) = self.watchers.pop_front() {
            proof {
                assert(old(self).watchers()[0] == thread);
                assert(old(processor).sleeping().contains(thread));
            }
            processor.wake_thread(thread);
            proof {
                assert(self.watchers() =~= old(self).watchers().drop_first());
                assert forall|w: int| 0 <= w < self.watchers().len() implies processor
                    .sleeping().contains(#[trigger] self.watchers()[w]) by {
                    assert(self.watchers()[w] == old(self).watchers()[w + 1]);
                    assert(old(self).watchers()[w + 1] != thread);
                }
                assert(self.watchers().no_duplicates()) by {
                    assert forall|i: int, j: int|
                        0 <= i < j < self.watchers().len() implies self.watchers()[i] != self
                        .watchers()[j] by {
                        assert(old(self).watchers()[i + 1] != old(self).watchers()[j + 1]);
                    }
                }
            }
        }
    }
}

} // verus!
