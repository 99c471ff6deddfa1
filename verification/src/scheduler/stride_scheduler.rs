//! The Stride scheduler: proportional-share fairness by virtual time.
//!
//! Each entry carries a `ticket` (priority weight) and a `pass`
//! (accumulated virtual time). `get_next` picks the entry with the least
//! pass — on ties, the one latest in pool order — and advances its pass by
//! `big_stride / (ticket + 1)`, or by the full `big_stride` for ticket 0.
//! Higher tickets mean smaller steps, so they are selected more often.

use vstd::prelude::*;
use crate::scheduler::ThreadID;

verus! {

/// A pool entry: a thread handle with its scheduling state.
#[derive(Clone, Copy, PartialEq, Eq, Debug)]
pub struct StrideThread {
    /// The priority weight; a higher ticket buys more selections.
    pub ticket: usize,
    /// Accumulated virtual time.
    pub pass: usize,
    /// The scheduled thread.
    pub thread: ThreadID,
}

/// The index `get_next` picks among the first `n` entries: the latest one
/// with the least pass.
pub open spec fn best_upto(s: Seq<StrideThread>, n: int) -> int
    decreases n,
{
    if n <= 1 {
        0
    } else {
        let b = best_upto(s, n - 1);
        if s[n - 1].pass <= s[b].pass {
            n - 1
        } else {
            b
        }
    }
}

/// The index `get_next` picks from a non-empty pool.
pub open spec fn min_pass_index(s: Seq<StrideThread>) -> int {
    best_upto(s, s.len() as int)
}

/// How far one selection advances the chosen entry's pass.
pub open spec fn stride_inc(big_stride: usize, ticket: usize) -> int {
    if ticket == 0 {
        big_stride as int
    } else {
        big_stride as int / (ticket as int + 1)
    }
}

/// Pass arithmetic saturates at the top of `usize` instead of wrapping, so
/// a pass value never decreases.
pub open spec fn sat_pass(p: int) -> int {
    if p > usize::MAX {
        usize::MAX as int
    } else {
        p
    }
}

/// How one selection rewrites a non-empty pool: the chosen entry's pass
/// advances, the chosen handle is returned, and the scheduler-wide minimum
/// becomes the advanced pass.
pub open spec fn stride_select(
    pre: Seq<StrideThread>,
    big_stride: usize,
    r: Option<ThreadID>,
    post: Seq<StrideThread>,
    post_min: int,
) -> bool {
    let best = min_pass_index(pre);
    let e = pre[best];
    let newp = sat_pass(e.pass + stride_inc(big_stride, e.ticket));
    &&& r == Some(e.thread)
    &&& post == pre.update(
        best,
        StrideThread { ticket: e.ticket, pass: newp as usize, thread: e.thread },
    )
    &&& post_min == newp
}

/// How `set_priority` rewrites the pool: every entry carrying the handle
/// gets the new ticket; passes and order stay.
pub open spec fn stride_reprioritize(
    s: Seq<StrideThread>,
    thread: ThreadID,
    priority: usize,
) -> Seq<StrideThread> {
    Seq::new(
        s.len(),
        |k: int|
            if s[k].thread == thread {
                StrideThread { ticket: priority, pass: s[k].pass, thread: s[k].thread }
            } else {
                s[k]
            },
    )
}

/// The picked index is always inside the pool.
pub proof fn lemma_best_upto_range(s: Seq<StrideThread>, n: int)
    requires
        n >= 1,
    ensures
        0 <= best_upto(s, n) < n,
    decreases n,
{
    if n > 1 {
        lemma_best_upto_range(s, n - 1);
    }
}

/// The picked entry's pass is minimal among the first `n`, and no later
/// entry ties it: the latest minimum wins.
pub proof fn lemma_best_upto_min(s: Seq<StrideThread>, n: int)
    requires
        n >= 1,
    ensures
        forall|k: int| 0 <= k < n ==> s[best_upto(s, n)].pass <= (#[trigger] s[k]).pass,
        forall|k: int| best_upto(s, n) < k < n ==> s[best_upto(s, n)].pass < (#[trigger] s[k]).pass,
    decreases n,
{
    lemma_best_upto_range(s, n);
    if n > 1 {
        lemma_best_upto_min(s, n - 1);
    }
}

/// Stride monotonicity: one selection leaves every entry's pass the same
/// or larger, so a thread's pass never decreases across selections.
pub proof fn lemma_stride_pass_monotonic(
    pre: Seq<StrideThread>,
    big_stride: usize,
    r: Option<ThreadID>,
    post: Seq<StrideThread>,
    post_min: int,
)
    requires
        pre.len() > 0,
        stride_select(pre, big_stride, r, post, post_min),
    ensures
        post.len() == pre.len(),
        forall|k: int| 0 <= k < pre.len() ==> (#[trigger] post[k]).pass >= pre[k].pass,
{
    lemma_best_upto_range(pre, pre.len() as int);
    vstd::arithmetic::div_mod::lemma_div_is_ordered_by_denominator(
        big_stride as int,
        1,
        pre[min_pass_index(pre)].ticket as int + 1,
    );
}

/// The Stride scheduler's pool, with the policy-wide stride constant and
/// the latest advanced pass.
pub struct StrideScheduler {
    big_stride: usize,
    current_min: usize,
    pool: Vec<StrideThread>,
}

impl StrideScheduler {
    /// The pool entries in admission order.
    pub closed spec fn entries(&self) -> Seq<StrideThread> {
        self.pool@
    }

    /// The admitted handles in pool order.
    pub open spec fn thread_ids(&self) -> Seq<ThreadID> {
        self.entries().map_values(|e: StrideThread| e.thread)
    }

    /// The pass every newcomer starts from.
    pub closed spec fn current_min(&self) -> int {
        self.current_min as int
    }

    /// The per-selection virtual-time budget.
    pub closed spec fn big_stride(&self) -> usize {
        self.big_stride
    }

    /// Every ticket leaves room for the `ticket + 1` divisor.
    pub closed spec fn wf(&self) -> bool {
        forall|k: int| 0 <= k < self.pool@.len() ==> (#[trigger] self.pool@[k]).ticket < usize::MAX
    }

    /// Admits a thread with `priority` as its ticket count. The new entry
    /// starts at the scheduler-wide `current_min` pass — a known fairness
    /// trade-off of this policy, kept as designed: a re-admitted thread
    /// can briefly starve or be starved by long-running peers.
    pub fn add_thread(&mut self, thread: ThreadID, priority: usize)
        requires
            old(self).wf(),
            priority < usize::MAX,
        ensures
            final(self).wf(),
            final(self).entries() == old(self).entries().push(
                StrideThread {
                    ticket: priority,
                    pass: (old(self).current_min() as usize),
                    thread,
                },
            ),
            final(self).thread_ids() == old(self).thread_ids().push(thread),
            final(self).current_min() == old(self).current_min(),
            final(self).big_stride() == old(self).big_stride(),
    {
        self.pool.push(
            StrideThread { ticket: priority, pass: self.current_min, thread },
        );
        proof {
            assert(self.thread_ids() =~= old(self).thread_ids().push(thread));
        }
    }

    /// Picks the latest least-pass entry, advances its pass and returns
    /// its handle without removing it; `None` exactly when the pool is
    /// empty.
    pub fn get_next(&mut self) -> (r: Option<ThreadID>)
        requires
            old(self).wf(),
        ensures
            final(self).wf(),
            final(self).big_stride() == old(self).big_stride(),
            old(self).entries().len() == 0 ==> r is None && *final(self) == *old(self),
            old(self).entries().len() > 0 ==> {
                &&& stride_select(
                    old(self).entries(),
                    old(self).big_stride(),
                    r,
                    final(self).entries(),
                    final(self).current_min(),
                )
                &&& final(self).thread_ids() == old(self).thread_ids()
            },
    {
        if self.pool.len() == 0 {
            return None;
        }
        let ghost s = self.pool@;
        let mut best: usize = 0;
        let mut i: usize = 1;
        while i < self.pool.len()
            invariant
                self == old(self),
                s == self.pool@,
                1 <= i <= s.len(),
                best as int == best_upto(s, i as int),
                best < i,
            decreases s.len() - i,
        {
            if self.pool[i].pass <= self.pool[best].pass {
                best = i;
            }
            i = i + 1;
        }
        let e = self.pool[best];
        proof {
            assert(e.ticket < usize::MAX);
        }
        let inc = if e.ticket == 0 {
            self.big_stride
        } else {
            self.big_stride / (e.ticket + 1)
        };
        let newp = if e.pass > usize::MAX - inc {
            usize::MAX
        } else {
            e.pass + inc
        };
        self.pool[best] = StrideThread { ticket: e.ticket, pass: newp, thread: e.thread };
        self.current_min = newp;
        proof {
            assert(self.thread_ids() =~= old(self).thread_ids());
        }
        Some(e.thread)
    }

    /// Evicts the one pool entry whose handle is `*thread`.
    pub fn remove_thread(&mut self, thread: &ThreadID)
        requires
            old(self).wf(),
            old(self).thread_ids().to_multiset().count(*thread) == 1,
        ensures
            final(self).wf(),
            final(self).thread_ids().to_multiset() == old(self).thread_ids().to_multiset().remove(
                *thread,
            ),
            final(self).current_min() == old(self).current_min(),
            final(self).big_stride() == old(self).big_stride(),
            exists|k: int|
                {
                    &&& 0 <= k < old(self).thread_ids().len()
                    &&& old(self).thread_ids()[k] == *thread
                    &&& final(self).entries() == old(self).entries().remove(k)
                    &&& final(self).thread_ids() == old(self).thread_ids().remove(k)
                },
    {
        let n = self.pool.len();
        let mut k: usize = 0;
        while k < n
            invariant
                old(self).wf(),
                n == self.pool@.len(),
                self == old(self),
                k <= n,
                forall|j: int| 0 <= j < k ==> (#[trigger] self.pool@[j]).thread != *thread,
            decreases n - k,
        {
            if self.pool[k].thread == *thread {
                self.pool.remove(k);
                proof {
                    broadcast use vstd::seq_lib::group_to_multiset_ensures;

                    assert(self.thread_ids() =~= old(self).thread_ids().remove(k as int));
                    assert(old(self).thread_ids()[k as int] == *thread);
                    assert(self.pool@ == old(self).pool@.remove(k as int));
                    old(self).pool@.remove_ensures(k as int);
                    assert forall|j: int| 0 <= j < self.pool@.len() implies (#[trigger] self
                        .pool@[j]).ticket < usize::MAX by {
                        if j < k {
                            assert(old(self).pool@.remove(k as int)[j] == old(self).pool@[j]);
                        } else {
                            assert(old(self).pool@.remove(k as int)[j] == old(self).pool@[j + 1]);
                        }
                        assert(self.pool@[j].ticket < usize::MAX);
                    }
                }
                return ;
            }
            k = k + 1;
        }
        proof {
            broadcast use vstd::seq_lib::group_to_multiset_ensures;

            assert forall|j: int| 0 <= j < n implies old(self).thread_ids()[j] != *thread by {
                assert(old(self).pool@[j].thread != *thread);
            }
            assert(!old(self).thread_ids().contains(*thread));
            assert(false);
        }
    }

    /// Gives every entry carrying `thread` the ticket `priority`.
    pub fn set_priority(&mut self, thread: ThreadID, priority: usize)
        requires
            old(self).wf(),
            priority < usize::MAX,
        ensures
            final(self).wf(),
            final(self).entries() == stride_reprioritize(old(self).entries(), thread, priority),
            final(self).thread_ids() == old(self).thread_ids(),
            final(self).current_min() == old(self).current_min(),
            final(self).big_stride() == old(self).big_stride(),
    {
        let n = self.pool.len();
        let mut k: usize = 0;
        while k < n
            invariant
                old(self).wf(),
                priority < usize::MAX,
                n == self.pool@.len(),
                self.pool@.len() == old(self).pool@.len(),
                self.big_stride == old(self).big_stride,
                self.current_min == old(self).current_min,
                k <= n,
                forall|j: int|
                    0 <= j < k ==> self.pool@[j] == stride_reprioritize(
                        old(self).pool@,
                        thread,
                        priority,
                    )[j],
                forall|j: int| k <= j < n ==> self.pool@[j] == old(self).pool@[j],
            decreases n - k,
        {
            if self.pool[k].thread == thread {
                let e = self.pool[k];
                self.pool[k] = StrideThread { ticket: priority, pass: e.pass, thread: e.thread };
            }
            k = k + 1;
        }
        proof {
            assert(self.entries() =~= stride_reprioritize(old(self).entries(), thread, priority));
            assert(self.thread_ids() =~= old(self).thread_ids());
        }
    }
}

/// `Default` creates an empty scheduler with the conventional stride
/// constant of 137 and a zero starting pass.
impl Default for StrideScheduler {
    fn default() -> (r: Self)
        ensures
            r.wf(),
            r.entries() == Seq::<StrideThread>::empty(),
            r.current_min() == 0,
            r.big_stride() == 137,
    {
        StrideScheduler { big_stride: 137, current_min: 0, pool: Vec::new() }
    }
}

} // verus!
