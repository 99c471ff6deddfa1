//! The FIFO round-robin scheduler: a queue in admission order.
//!
//! `get_next` pops the front and immediately re-pushes it to the back, so
//! repeated polling without removal cycles through every admitted thread.
//! The priority argument is ignored.

use std::collections::VecDeque;
use vstd::prelude::*;
use crate::scheduler::ThreadID;

verus! {

/// One polling step: the front of the queue moves to the back.
pub open spec fn fifo_rotate(q: Seq<ThreadID>) -> Seq<ThreadID>
    recommends
        q.len() > 0,
{
    q.drop_first().push(q[0])
}

/// `n` polling steps.
pub open spec fn fifo_rotate_n(q: Seq<ThreadID>, n: int) -> Seq<ThreadID>
    decreases n,
{
    if n <= 0 {
        q
    } else {
        fifo_rotate_n(fifo_rotate(q), n - 1)
    }
}

/// FIFO fairness: for threads admitted in order and polled without
/// removal, the `k`-th poll returns the `k`-th admitted thread — each
/// exactly once, in admission order, before any repeats.
pub proof fn lemma_fifo_fairness(q: Seq<ThreadID>, k: int)
    requires
        0 <= k < q.len(),
    ensures
        fifo_rotate_n(q, k).len() == q.len(),
        fifo_rotate_n(q, k)[0] == q[k],
    decreases k,
{
    if k > 0 {
        lemma_fifo_fairness(fifo_rotate(q), k - 1);
        assert(fifo_rotate(q)[k - 1] == q[k]);
    }
}

/// The FIFO scheduler's pool: a queue, served from the front.
pub struct FifoScheduler {
    pool: VecDeque<ThreadID>,
}

impl FifoScheduler {
    /// The queued handles, front first.
    pub closed spec fn queue(&self) -> Seq<ThreadID> {
        self.pool@
    }

    /// Admits a thread at the back of the queue; the priority is ignored.
    pub fn add_thread(&mut self, thread: ThreadID, _priority: usize)
        ensures
            final(self).queue() == old(self).queue().push(thread),
    {
        self.pool.push_back(thread);
    }

    /// Pops the front of the queue, re-pushes it to the back and returns
    /// it; `None` exactly when the queue is empty.
    pub fn get_next(&mut self) -> (r: Option<ThreadID>)
        ensures
            old(self).queue().len() == 0 ==> r is None && final(self).queue()
                == old(self).queue(),
            old(self).queue().len() > 0 ==> r == Some(old(self).queue()[0]) && final(self).queue()
                == fifo_rotate(old(self).queue()),
            final(self).queue().to_multiset() == old(self).queue().to_multiset(),
    {
        let r = if let Some(thread) = self.pool.pop_front() {
            self.pool.push_back(thread);
            Some(thread)
        } else {
            None
        };
        proof {
            broadcast use vstd::seq_lib::group_to_multiset_ensures;

            let q = old(self).queue();
            if q.len() > 0 {
                assert(q.drop_first() =~= q.remove(0));
                assert(self.queue() =~= fifo_rotate(q));
                assert(q.remove(0).to_multiset() == q.to_multiset().remove(q[0]));
                assert(q.to_multiset().contains(q[0]));
                assert(self.queue().to_multiset() =~= q.to_multiset());
            }
        }
        r
    }

    /// Evicts the one queue entry equal to `*thread`.
    pub fn remove_thread(&mut self, thread: &ThreadID)
        requires
            old(self).queue().to_multiset().count(*thread) == 1,
        ensures
            final(self).queue().to_multiset() == old(self).queue().to_multiset().remove(*thread),
            exists|k: int|
                {
                    &&& 0 <= k < old(self).queue().len()
                    &&& old(self).queue()[k] == *thread
                    &&& final(self).queue() == old(self).queue().remove(k)
                },
    {
        proof {
            broadcast use vstd::seq_lib::group_to_multiset_ensures;

        }
        let n = self.pool.len();
        let mut k: usize = 0;
        while k < n
            invariant
                n == self.queue().len(),
                self == old(self),
                k <= n,
                forall|j: int| 0 <= j < k ==> old(self).queue()[j] != *thread,
            decreases n - k,
        {
            if self.pool[k] == *thread {
                self.pool.remove(k);
                proof {
                    broadcast use vstd::seq_lib::group_to_multiset_ensures;

                }
                return ;
            }
            k = k + 1;
        }
        proof {
            broadcast use vstd::seq_lib::group_to_multiset_ensures;

            assert(!old(self).queue().contains(*thread));
            assert(false);
        }
    }

    /// Priorities are not part of this policy; nothing changes.
    pub fn set_priority(&mut self, _thread: ThreadID, _priority: usize)
        ensures
            *final(self) == *old(self),
    {
    }
}

/// `Default` creates an empty scheduler.
impl Default for FifoScheduler {
    fn default() -> (r: Self)
        ensures
            r.queue() == Seq::<ThreadID>::empty(),
    {
        FifoScheduler { pool: VecDeque::new() }
    }
}

} // verus!
