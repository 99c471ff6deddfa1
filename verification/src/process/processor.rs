//! The processor: the single scheduling-and-execution authority.
//!
//! It owns every thread record, the scheduler pool of ready threads, the
//! set of sleeping threads and the identity of the running one. A live
//! thread is always in exactly one place: running (the current thread),
//! ready (in the scheduler pool and not current), or sleeping. Every
//! operation here is driven from interrupt context.

use vstd::prelude::*;
use crate::interrupt::context::Context;
use crate::memory::MemoryResult;
use crate::process::STACK_SIZE;
use crate::process::process::Process;
use crate::process::thread::Thread;
use crate::scheduler::{SchedulerImpl, ThreadID};

verus! {

/// The one unrecoverable condition: no thread is ready and none is
/// sleeping, so the system has nothing left to do.
#[derive(Clone, Copy, Debug, PartialEq, Eq, Structural)]
pub enum ProcessorError {
    AllThreadsTerminated,
}

/// The sleeping threads, held apart from the scheduler pool so the
/// scheduler never hands out a thread that is waiting on an external
/// event. Backed by `hashbrown`'s hash set behind the named view
/// `sleep_set_view`.
#[verifier::external_body]
pub struct SleepSet {
    set: hashbrown::HashSet<ThreadID>,
}

/// What the sleeping-thread set holds.
pub uninterp spec fn sleep_set_view(s: &SleepSet) -> Set<ThreadID>;

/// Relies on `hashbrown::HashSet::new`: a new set is empty.
#[verifier::external_body]
fn sleep_set_new() -> (r: SleepSet)
    ensures
        sleep_set_view(&r) == Set::<ThreadID>::empty(),
{
    SleepSet { set: hashbrown::HashSet::new() }
}

/// Relies on `hashbrown::HashSet::insert`: the value joins the set.
#[verifier::external_body]
fn sleep_set_insert(s: &mut SleepSet, thread: ThreadID)
    ensures
        sleep_set_view(final(s)) == sleep_set_view(old(s)).insert(thread),
{
    s.set.insert(thread);
}

/// Relies on `hashbrown::HashSet::remove`: the value leaves the set, and
/// the return says whether it was there.
#[verifier::external_body]
fn sleep_set_remove(s: &mut SleepSet, thread: ThreadID) -> (r: bool)
    ensures
        sleep_set_view(final(s)) == sleep_set_view(old(s)).remove(thread),
        r == sleep_set_view(old(s)).contains(thread),
{
    s.set.remove(&thread)
}

/// Relies on `hashbrown::HashSet::is_empty`: true exactly when the set
/// holds nothing.
#[verifier::external_body]
fn sleep_set_is_empty(s: &SleepSet) -> (r: bool)
    ensures
        r == (sleep_set_view(s) == Set::<ThreadID>::empty()),
{
    s.set.is_empty()
}

/// The thread table with only thread `k`'s saved context replaced.
pub open spec fn table_with_context(pre: Seq<Thread>, k: int, c: Option<Context>) -> Seq<Thread> {
    pre.update(
        k,
        Thread {
            inner: crate::process::thread::ThreadInner {
                context: c,
                sleeping: pre[k].inner.sleeping,
                dead: pre[k].inner.dead,
                priority: pre[k].inner.priority,
            },
            ..pre[k]
        },
    )
}

/// The thread table with only thread `k`'s sleeping flag replaced.
pub open spec fn table_with_sleeping(pre: Seq<Thread>, k: int, sleeping: bool) -> Seq<Thread> {
    pre.update(
        k,
        Thread {
            inner: crate::process::thread::ThreadInner {
                context: pre[k].inner.context,
                sleeping,
                dead: pre[k].inner.dead,
                priority: pre[k].inner.priority,
            },
            ..pre[k]
        },
    )
}

/// The thread table with only thread `k`'s dead flag set.
pub open spec fn table_with_dead(pre: Seq<Thread>, k: int) -> Seq<Thread> {
    pre.update(
        k,
        Thread {
            inner: crate::process::thread::ThreadInner {
                context: pre[k].inner.context,
                sleeping: pre[k].inner.sleeping,
                dead: true,
                priority: pre[k].inner.priority,
            },
            ..pre[k]
        },
    )
}

/// The global scheduling state machine.
pub struct Processor {
    current_thread: Option<ThreadID>,
    scheduler: SchedulerImpl,
    sleeping_threads: SleepSet,
    threads: Vec<Thread>,
    idle_thread: ThreadID,
}

impl Processor {
    /// The running thread, if any.
    pub closed spec fn current(&self) -> Option<ThreadID> {
        self.current_thread
    }

    /// The scheduling policy and its pool.
    pub closed spec fn sched(&self) -> SchedulerImpl {
        self.scheduler
    }

    /// The ready pool, in the policy's order.
    pub open spec fn pool(&self) -> Seq<ThreadID> {
        self.sched().pool()
    }

    /// The sleeping threads.
    pub closed spec fn sleeping(&self) -> Set<ThreadID> {
        sleep_set_view(&self.sleeping_threads)
    }

    /// Every thread record, live or dead.
    pub closed spec fn table(&self) -> Seq<Thread> {
        self.threads@
    }

    /// The dedicated idle thread's id.
    pub closed spec fn idle(&self) -> ThreadID {
        self.idle_thread
    }

    /// Is there a record for thread `t`?
    pub open spec fn has_thread(&self, t: ThreadID) -> bool {
        exists|k: int| 0 <= k < self.table().len() && (#[trigger] self.table()[k]).id == t
    }

    /// The table slot of thread `t`.
    pub open spec fn index_of(&self, t: ThreadID) -> int {
        choose|k: int| 0 <= k < self.table().len() && (#[trigger] self.table()[k]).id == t
    }

    /// The record of thread `t`.
    pub open spec fn thread_view(&self, t: ThreadID) -> Thread {
        self.table()[self.index_of(t)]
    }

    /// No two table slots carry the same thread id.
    pub open spec fn ids_unique(&self) -> bool {
        forall|k1: int, k2: int|
            0 <= k1 < k2 < self.table().len() ==> (#[trigger] self.table()[k1]).id != (
            #[trigger] self.table()[k2]).id
    }

    /// The processor's invariant: thread ids are unique and well formed;
    /// the pool and the sleeping set hold only known threads, never share
    /// one, and never hold the idle thread; a thread's sleeping flag
    /// matches its membership in the sleeping set; and the idle thread
    /// never dies or sleeps.
    pub open spec fn wf(&self) -> bool {
        &&& self.sched().wf()
        &&& self.ids_unique()
        &&& forall|k: int|
            0 <= k < self.table().len() ==> (#[trigger] self.table()[k]).wf()
        &&& forall|k: int|
            0 <= k < self.table().len() ==> (#[trigger] self.table()[k]).stack.end.0 == self.table()[k].stack.start.0 + STACK_SIZE
        &&& forall|t: ThreadID| #[trigger] self.pool().contains(t) ==> self.has_thread(t)
        &&& forall|t: ThreadID| #[trigger] self.pool().to_multiset().count(t) <= 1
        &&& forall|t: ThreadID| #[trigger] self.sleeping().contains(t) ==> self.has_thread(t)
        &&& forall|t: ThreadID| #[trigger] self.sleeping().contains(t) ==> !self.pool().contains(t)
        &&& match self.current() {
            Some(t) => self.has_thread(t),
            None => true,
        }
        &&& self.has_thread(self.idle())
        &&& !self.pool().contains(self.idle())
        &&& !self.sleeping().contains(self.idle())
        &&& forall|k: int|
            0 <= k < self.table().len() ==> ((#[trigger] self.table()[k]).inner.sleeping
                <==> self.sleeping().contains(self.table()[k].id))
        &&& !self.thread_view(self.idle()).inner.dead
    }

    /// Creates the processor around its scheduler and the idle thread,
    /// which stays outside the pool and runs only when everyone sleeps.
    pub fn new(scheduler: SchedulerImpl, idle: Thread) -> (r: Self)
        requires
            scheduler.wf(),
            scheduler.pool() == Seq::<ThreadID>::empty(),
            idle.wf(),
            idle.stack.end.0 == idle.stack.start.0 + STACK_SIZE,
            idle.inner.context is Some,
            !idle.inner.dead,
            !idle.inner.sleeping,
        ensures
            r.wf(),
            r.current() is None,
            r.sched() == scheduler,
            r.pool() == Seq::<ThreadID>::empty(),
            r.sleeping() == Set::<ThreadID>::empty(),
            r.table() == seq![idle],
            r.idle() == idle.id,
    {
        let ghost idle_snap = idle;
        let mut threads: Vec<Thread> = Vec::new();
        let idle_id = idle.id;
        threads.push(idle);
        let r = Processor {
            current_thread: None,
            scheduler,
            sleeping_threads: sleep_set_new(),
            threads,
            idle_thread: idle_id,
        };
        proof {
            assert(r.table() =~= seq![idle_snap]);
            assert(r.table()[0].id == idle_id);
            assert(r.has_thread(idle_id));
            assert(r.index_of(idle_id) == 0);
            broadcast use vstd::seq_lib::group_to_multiset_ensures;

        }
        r
    }

    /// The running thread's id; asking without a running thread is a
    /// caller bug, excluded by `requires`.
    pub fn current_thread(&self) -> (r: ThreadID)
        requires
            self.current() is Some,
        ensures
            Some(r) == self.current(),
    {
        self.current_thread.unwrap()
    }

    /// Finds the table slot holding thread `t`.
    fn find_thread_index(&self, t: ThreadID) -> (r: usize)
        requires
            self.ids_unique(),
            self.has_thread(t),
        ensures
            0 <= r < self.table().len(),
            self.table()[r as int].id == t,
            r == self.index_of(t),
    {
        let n = self.threads.len();
        let mut k: usize = 0;
        while k < n
            invariant
                self.ids_unique(),
                self.has_thread(t),
                n == self.table().len(),
                k <= n,
                forall|j: int| 0 <= j < k ==> (#[trigger] self.table()[j]).id != t,
            decreases n - k,
        {
            if self.threads[k].id == t {
                proof {
                    let j = self.index_of(t);
                    assert(0 <= j < self.table().len() && self.table()[j].id == t);
                    assert(j == k);
                }
                return k;
            }
            k = k + 1;
        }
        proof {
            let j = self.index_of(t);
            assert(0 <= j < self.table().len() && self.table()[j].id == t);
            assert(false);
        }
        0
    }

    /// Reads thread `t`'s record.
    pub fn get_thread(&self, t: ThreadID) -> (r: &Thread)
        requires
            self.ids_unique(),
            self.has_thread(t),
        ensures
            *r == self.thread_view(t),
    {
        let k = self.find_thread_index(t);
        &self.threads[k]
    }

    /// Admits a new thread: it joins the table and the ready pool.
    pub fn add_thread(&mut self, thread: Thread)
        requires
            old(self).wf(),
            thread.wf(),
            thread.stack.end.0 == thread.stack.start.0 + STACK_SIZE,
            !old(self).has_thread(thread.id),
            thread.inner.context is Some,
            !thread.inner.sleeping,
            !thread.inner.dead,
        ensures
            final(self).wf(),
            final(self).table() == old(self).table().push(thread),
            final(self).pool() == old(self).pool().push(thread.id),
            final(self).sleeping() == old(self).sleeping(),
            final(self).current() == old(self).current(),
            final(self).idle() == old(self).idle(),
            old(self).sched() is Fifo <==> final(self).sched() is Fifo,
    {
        let priority = thread.inner.priority;
        let tid = thread.id;
        self.scheduler.add_thread(tid, priority);
        self.threads.push(thread);
        proof {
            self.lemma_push_preserves(*old(self), thread);
        }
    }

    /// Thread `t` exists and is not marked dead.
    pub open spec fn live(&self, t: ThreadID) -> bool {
        self.has_thread(t) && !self.thread_view(t).inner.dead
    }

    /// Every live thread is somewhere: ready, sleeping or running. Idle
    /// is exempt — it waits outside all three between runs.
    pub open spec fn covered(&self) -> bool {
        forall|t: ThreadID|
            self.live(t) && t != self.idle() ==> self.pool().contains(t)
                || self.sleeping().contains(t) || self.current() == Some(t)
    }

    /// The state between interrupts: everyone is covered, the running
    /// thread is awake, and a running non-idle thread stays registered in
    /// the pool.
    pub open spec fn settled(&self) -> bool {
        &&& self.covered()
        &&& match self.current() {
            Some(c) => !self.sleeping().contains(c) && (c != self.idle()
                ==> self.pool().contains(c)),
            None => true,
        }
    }

    /// Both tables agree on every slot except `k`, where only the mutable
    /// flags may differ (identity and stack stay).
    pub open spec fn table_eq_except(&self, pre: Processor, k: int) -> bool {
        &&& self.table().len() == pre.table().len()
        &&& forall|j: int|
            0 <= j < pre.table().len() && j != k ==> self.table()[j] == pre.table()[j]
        &&& self.table()[k].id == pre.table()[k].id
        &&& self.table()[k].stack == pre.table()[k].stack
        &&& self.table()[k].process == pre.table()[k].process
        &&& self.table()[k].wf()
    }

    /// A thread lookup lands on the same slot in two tables with the same
    /// ids.
    pub proof fn lemma_same_indices(&self, pre: Processor)
        requires
            pre.wf(),
            self.table().len() == pre.table().len(),
            forall|j: int|
                0 <= j < pre.table().len() ==> (#[trigger] self.table()[j]).id
                    == pre.table()[j].id,
        ensures
            forall|t: ThreadID| self.has_thread(t) <==> pre.has_thread(t),
            forall|t: ThreadID|
                pre.has_thread(t) ==> #[trigger] self.index_of(t) == pre.index_of(t),
    {
        assert forall|t: ThreadID| self.has_thread(t) <==> pre.has_thread(t) by {
            if self.has_thread(t) {
                let k = choose|k: int|
                    0 <= k < self.table().len() && (#[trigger] self.table()[k]).id == t;
                assert(pre.table()[k].id == t);
            }
            if pre.has_thread(t) {
                let k = choose|k: int|
                    0 <= k < pre.table().len() && (#[trigger] pre.table()[k]).id == t;
                assert(self.table()[k].id == t);
            }
        }
        assert forall|t: ThreadID| pre.has_thread(t) implies #[trigger] self.index_of(t)
            == pre.index_of(t) by {
            let kp = pre.index_of(t);
            assert(0 <= kp < pre.table().len() && pre.table()[kp].id == t);
            assert(self.table()[kp].id == t);
            let ks = self.index_of(t);
            assert(0 <= ks < self.table().len() && self.table()[ks].id == t);
            assert(pre.table()[ks].id == t);
            if ks != kp {
                assert(pre.table()[ks].id != pre.table()[kp].id);
            }
        }
    }

    /// Changing only one thread's mutable flags — its identity, stack and
    /// sleeping flag staying, and the idle thread staying alive — keeps
    /// the invariant, as long as pool, sleeping set, current and idle do
    /// not move.
    proof fn lemma_table_update_preserves(&self, pre: Processor, k: int)
        requires
            pre.wf(),
            0 <= k < pre.table().len(),
            self.table_eq_except(pre, k),
            self.table()[k].inner.sleeping == pre.table()[k].inner.sleeping,
            self.table()[k].id == pre.idle() ==> !self.table()[k].inner.dead,
            self.pool() == pre.pool(),
            self.sleeping() == pre.sleeping(),
            self.current() == pre.current(),
            self.idle() == pre.idle(),
            self.sched().wf(),
        ensures
            self.wf(),
            forall|t: ThreadID| self.has_thread(t) <==> pre.has_thread(t),
            forall|t: ThreadID|
                pre.has_thread(t) ==> #[trigger] self.index_of(t) == pre.index_of(t),
    {
        self.lemma_same_indices(pre);
        assert forall|k1: int, k2: int|
            0 <= k1 < k2 < self.table().len() implies (#[trigger] self.table()[k1]).id != (
        #[trigger] self.table()[k2]).id by {
            assert(self.table()[k1].id == pre.table()[k1].id);
            assert(self.table()[k2].id == pre.table()[k2].id);
        }
        assert forall|j: int|
            0 <= j < self.table().len() implies ((#[trigger] self.table()[j]).inner.sleeping
            <==> self.sleeping().contains(self.table()[j].id)) by {
            if j != k {
                assert(self.table()[j] == pre.table()[j]);
            }
        }
        assert(!self.thread_view(self.idle()).inner.dead) by {
            let j = self.index_of(self.idle());
            assert(j == pre.index_of(pre.idle()));
            if j != k {
                assert(self.table()[j] == pre.table()[j]);
            }
        }
    }

    /// Selects the next thread to run and takes its saved context for the
    /// trap-return path: the scheduler's pick if any thread is ready; the
    /// idle thread if none is ready but some sleep; the fatal
    /// all-threads-terminated condition otherwise. Every schedulable
    /// thread must carry a saved context, so the running one must have
    /// been parked, slept or killed first.
    pub fn prepare_next_thread(&mut self) -> (r: Result<Context, ProcessorError>)
        requires
            old(self).wf(),
            forall|k: int|
                0 <= k < old(self).table().len() && (old(self).pool().contains(
                    (#[trigger] old(self).table()[k]).id,
                ) || old(self).table()[k].id == old(self).idle()) ==> old(self).table()[k].inner.context is Some,
        ensures
            final(self).wf(),
            final(self).sleeping() == old(self).sleeping(),
            final(self).idle() == old(self).idle(),
            match r {
                Ok(c) => {
                    &&& final(self).current() is Some
                    &&& {
                        let t = final(self).current()->0;
                        &&& old(self).has_thread(t)
                        &&& Some(c) == old(self).thread_view(t).inner.context
                        &&& final(self).table() == table_with_context(
                            old(self).table(),
                            old(self).index_of(t),
                            None,
                        )
                        &&& if old(self).pool().len() > 0 {
                            old(self).pool().contains(t)
                        } else {
                            t == old(self).idle() && old(self).sleeping()
                                != Set::<ThreadID>::empty()
                        }
                    }
                    &&& final(self).pool().to_multiset() == old(self).pool().to_multiset()
                    &&& (old(self).sched() is Fifo && old(self).pool().len() > 0
                        ==> final(self).current() == Some(old(self).pool()[0]) && final(self).pool()
                        == crate::scheduler::fifo_scheduler::fifo_rotate(old(self).pool()))
                    &&& (old(self).sched() is Stride && old(self).pool().len() > 0
                        ==> crate::scheduler::stride_scheduler::stride_select(
                        old(self).sched()->Stride_0.entries(),
                        old(self).sched()->Stride_0.big_stride(),
                        final(self).current(),
                        final(self).sched()->Stride_0.entries(),
                        final(self).sched()->Stride_0.current_min(),
                    ))
                    &&& (old(self).pool().len() == 0 ==> final(self).pool() == old(self).pool())
                },
                Err(e) => {
                    &&& e == ProcessorError::AllThreadsTerminated
                    &&& final(self).current() == old(self).current()
                    &&& final(self).pool() == old(self).pool()
                    &&& final(self).table() == old(self).table()
                    &&& old(self).pool().len() == 0
                    &&& old(self).sleeping() == Set::<ThreadID>::empty()
                },
            },
    {
        broadcast use vstd::seq_lib::group_to_multiset_ensures;

        let next = self.scheduler.get_next();
        match next {
            Some(tid) => {
                proof {
                    assert(old(self).pool().contains(tid));
                    assert(old(self).has_thread(tid));
                }
                let k = self.find_thread_index(tid);
                proof {
                    assert(old(self).table()[k as int].inner.context is Some);
                }
                let c = self.threads[k].prepare();
                self.current_thread = Some(tid);
                proof {
                    let pre = *old(self);
                    assert(self.table() =~= table_with_context(
                        pre.table(),
                        pre.index_of(tid),
                        None,
                    ));
                    self.lemma_same_indices(pre);
                    assert forall|k1: int, k2: int|
                        0 <= k1 < k2 < self.table().len() implies (#[trigger] self.table()[k1]).id
                        != (#[trigger] self.table()[k2]).id by {
                        assert(self.table()[k1].id == pre.table()[k1].id);
                        assert(self.table()[k2].id == pre.table()[k2].id);
                    }
                    assert forall|t: ThreadID| #[trigger] self.pool().contains(t) implies self
                        .has_thread(t) by {
                        assert(self.pool().to_multiset().count(t) > 0);
                        assert(pre.pool().to_multiset().count(t) > 0);
                        assert(pre.pool().contains(t));
                    }
                    assert forall|t: ThreadID| true implies #[trigger] self
                        .pool().to_multiset().count(t) <= 1 by {
                        assert(self.pool().to_multiset().count(t) == pre.pool().to_multiset().count(
                            t,
                        ));
                    }
                    assert forall|t: ThreadID| #[trigger] self.sleeping().contains(t) implies !self
                        .pool().contains(t) by {
                        assert(!pre.pool().contains(t));
                        if self.pool().contains(t) {
                            assert(self.pool().to_multiset().count(t) > 0);
                            assert(pre.pool().to_multiset().count(t) > 0);
                        }
                    }
                    assert(!self.pool().contains(self.idle())) by {
                        if self.pool().contains(self.idle()) {
                            assert(self.pool().to_multiset().count(self.idle()) > 0);
                            assert(pre.pool().to_multiset().count(self.idle()) > 0);
                        }
                    }
                    assert forall|j: int|
                        0 <= j < self.table().len() implies ((
                    #[trigger] self.table()[j]).inner.sleeping <==> self.sleeping().contains(
                        self.table()[j].id,
                    )) by {
                        if j != pre.index_of(tid) {
                            assert(self.table()[j] == pre.table()[j]);
                        }
                    }
                    assert(!self.thread_view(self.idle()).inner.dead) by {
                        let j = self.index_of(self.idle());
                        assert(j == pre.index_of(pre.idle()));
                        if j != pre.index_of(tid) {
                            assert(self.table()[j] == pre.table()[j]);
                        }
                    }
                }
                Ok(c)
            },
            None => {
                if sleep_set_is_empty(&self.sleeping_threads) {
                    Err(ProcessorError::AllThreadsTerminated)
                } else {
                    let idle = self.idle_thread;
                    let k = self.find_thread_index(idle);
                    let c = self.threads[k].prepare();
                    self.current_thread = Some(idle);
                    proof {
                        let pre = *old(self);
                        assert(self.table() =~= table_with_context(
                            pre.table(),
                            pre.index_of(pre.idle()),
                            None,
                        ));
                        self.lemma_same_indices(pre);
                        assert forall|k1: int, k2: int|
                            0 <= k1 < k2 < self.table().len() implies (
                        #[trigger] self.table()[k1]).id != (#[trigger] self.table()[k2]).id by {
                            assert(self.table()[k1].id == pre.table()[k1].id);
                            assert(self.table()[k2].id == pre.table()[k2].id);
                        }
                        assert forall|j: int|
                            0 <= j < self.table().len() implies ((
                        #[trigger] self.table()[j]).inner.sleeping <==> self.sleeping().contains(
                            self.table()[j].id,
                        )) by {
                            if j != pre.index_of(pre.idle()) {
                                assert(self.table()[j] == pre.table()[j]);
                            }
                        }
                        assert(!self.thread_view(self.idle()).inner.dead) by {
                            let j = self.index_of(self.idle());
                            assert(j == pre.index_of(pre.idle()));
                        }
                    }
                    Ok(c)
                }
            },
        }
    }

    /// Saves the interrupted context into the running thread; parking a
    /// thread that already holds one is a caller bug, excluded by
    /// `requires`.
    pub fn park_current_thread(&mut self, context: Context)
        requires
            old(self).wf(),
            old(self).current() is Some,
            old(self).thread_view(old(self).current()->0).inner.context is None,
            context.wf(),
        ensures
            final(self).wf(),
            final(self).table() == table_with_context(
                old(self).table(),
                old(self).index_of(old(self).current()->0),
                Some(context),
            ),
            final(self).pool() == old(self).pool(),
            final(self).sleeping() == old(self).sleeping(),
            final(self).current() == old(self).current(),
            final(self).idle() == old(self).idle(),
            final(self).sched() == old(self).sched(),
    {
        let tid = self.current_thread.unwrap();
        let k = self.find_thread_index(tid);
        let th = &mut self.threads[k];
        proof {
            assert(old(self).table()[k as int].inner.context is None);
        }
        th.park(context);
        proof {
            let pre = *old(self);
            assert(self.table() =~= table_with_context(
                pre.table(),
                pre.index_of(tid),
                Some(context),
            ));
            self.lemma_table_update_preserves(pre, pre.index_of(tid));
        }
    }

    /// Moves the running thread out of the pool into the sleeping set and
    /// flags it; it stays current until the next thread is prepared.
    pub fn sleep_current_thread(&mut self)
        requires
            old(self).wf(),
            old(self).current() is Some,
            old(self).pool().contains(old(self).current()->0),
        ensures
            final(self).wf(),
            final(self).table() == table_with_sleeping(
                old(self).table(),
                old(self).index_of(old(self).current()->0),
                true,
            ),
            final(self).pool().to_multiset() == old(self).pool().to_multiset().remove(
                old(self).current()->0,
            ),
            exists|k: int|
                {
                    &&& 0 <= k < old(self).pool().len()
                    &&& old(self).pool()[k] == old(self).current()->0
                    &&& final(self).pool() == old(self).pool().remove(k)
                },
            final(self).sleeping() == old(self).sleeping().insert(old(self).current()->0),
            final(self).current() == old(self).current(),
            final(self).idle() == old(self).idle(),
    {
        broadcast use vstd::seq_lib::group_to_multiset_ensures;

        let tid = self.current_thread.unwrap();
        let k = self.find_thread_index(tid);
        let th = &mut self.threads[k];
        th.inner.sleeping = true;
        self.scheduler.remove_thread(&tid);
        sleep_set_insert(&mut self.sleeping_threads, tid);
        proof {
            let pre = *old(self);
            assert(self.table() =~= table_with_sleeping(pre.table(), pre.index_of(tid), true));
            self.lemma_same_indices(pre);
            assert forall|k1: int, k2: int|
                0 <= k1 < k2 < self.table().len() implies (#[trigger] self.table()[k1]).id != (
            #[trigger] self.table()[k2]).id by {
                assert(self.table()[k1].id == pre.table()[k1].id);
                assert(self.table()[k2].id == pre.table()[k2].id);
            }
            assert forall|t: ThreadID| #[trigger] self.pool().contains(t) implies self.has_thread(
                t,
            ) by {
                assert(self.pool().to_multiset().count(t) > 0);
                assert(pre.pool().to_multiset().count(t) > 0);
                assert(pre.pool().contains(t));
            }
            assert forall|t: ThreadID| true implies #[trigger] self.pool().to_multiset().count(t)
                <= 1 by {
                assert(self.pool().to_multiset().count(t) <= pre.pool().to_multiset().count(t));
            }
            assert forall|t: ThreadID| #[trigger] self.sleeping().contains(t) implies self
                .has_thread(t) by {
                if t != tid {
                    assert(pre.sleeping().contains(t));
                }
            }
            assert forall|t: ThreadID| #[trigger] self.sleeping().contains(t) implies !self
                .pool().contains(t) by {
                if self.pool().contains(t) {
                    assert(self.pool().to_multiset().count(t) > 0);
                    if t == tid {
                        assert(self.pool().to_multiset().count(tid) == pre
                            .pool().to_multiset().count(tid) - 1);
                        assert(pre.pool().to_multiset().count(tid) <= 1);
                    } else {
                        assert(pre.pool().to_multiset().count(t) > 0);
                        assert(pre.pool().contains(t));
                        assert(pre.sleeping().contains(t));
                    }
                }
            }
            assert(!self.pool().contains(self.idle())) by {
                if self.pool().contains(self.idle()) {
                    assert(self.pool().to_multiset().count(self.idle()) > 0);
                    assert(pre.pool().to_multiset().count(self.idle()) > 0);
                    assert(pre.pool().contains(pre.idle()));
                }
            }
            assert(!self.sleeping().contains(self.idle())) by {
                assert(tid != pre.idle()) by {
                    assert(pre.pool().contains(tid));
                }
            }
            assert forall|j: int|
                0 <= j < self.table().len() implies ((#[trigger] self.table()[j]).inner.sleeping
                <==> self.sleeping().contains(self.table()[j].id)) by {
                if j != pre.index_of(tid) {
                    assert(self.table()[j] == pre.table()[j]);
                    assert(self.table()[j].id != tid) by {
                        assert(pre.table()[pre.index_of(tid)].id == tid);
                        if j < pre.index_of(tid) {
                            assert(pre.table()[j].id != pre.table()[pre.index_of(tid)].id);
                        } else {
                            assert(pre.table()[pre.index_of(tid)].id != pre.table()[j].id);
                        }
                    }
                }
            }
            assert(!self.thread_view(self.idle()).inner.dead) by {
                let j = self.index_of(self.idle());
                assert(j == pre.index_of(pre.idle()));
                if j != pre.index_of(tid) {
                    assert(self.table()[j] == pre.table()[j]);
                } else {
                    assert(pre.table()[j].id == pre.idle() && pre.table()[j].id == tid);
                    assert(pre.pool().contains(pre.idle()));
                }
            }
        }
    }

    /// Evicts the running thread: out of the pool, no longer current, its
    /// record marked dead.
    pub fn kill_current_thread(&mut self)
        requires
            old(self).wf(),
            old(self).current() is Some,
            old(self).pool().contains(old(self).current()->0),
        ensures
            final(self).wf(),
            final(self).table() == table_with_dead(
                old(self).table(),
                old(self).index_of(old(self).current()->0),
            ),
            final(self).pool().to_multiset() == old(self).pool().to_multiset().remove(
                old(self).current()->0,
            ),
            exists|k: int|
                {
                    &&& 0 <= k < old(self).pool().len()
                    &&& old(self).pool()[k] == old(self).current()->0
                    &&& final(self).pool() == old(self).pool().remove(k)
                },
            final(self).sleeping() == old(self).sleeping(),
            final(self).current() is None,
            final(self).idle() == old(self).idle(),
    {
        broadcast use vstd::seq_lib::group_to_multiset_ensures;

        let tid = self.current_thread.take().unwrap();
        let k = self.find_thread_index(tid);
        let th = &mut self.threads[k];
        th.inner.dead = true;
        self.scheduler.remove_thread(&tid);
        proof {
            let pre = *old(self);
            assert(self.table() =~= table_with_dead(pre.table(), pre.index_of(tid)));
            self.lemma_same_indices(pre);
            assert(pre.table()[pre.index_of(tid)].id != pre.idle()) by {
                assert(pre.pool().contains(tid));
            }
            assert forall|k1: int, k2: int|
                0 <= k1 < k2 < self.table().len() implies (#[trigger] self.table()[k1]).id != (
            #[trigger] self.table()[k2]).id by {
                assert(self.table()[k1].id == pre.table()[k1].id);
                assert(self.table()[k2].id == pre.table()[k2].id);
            }
            assert forall|j: int|
                0 <= j < self.table().len() implies ((#[trigger] self.table()[j]).inner.sleeping
                <==> self.sleeping().contains(self.table()[j].id)) by {
                if j != pre.index_of(tid) {
                    assert(self.table()[j] == pre.table()[j]);
                }
            }
            assert(!self.thread_view(self.idle()).inner.dead) by {
                let j = self.index_of(self.idle());
                assert(j == pre.index_of(pre.idle()));
                if j != pre.index_of(tid) {
                    assert(self.table()[j] == pre.table()[j]);
                }
            }
            assert forall|t: ThreadID| #[trigger] self.pool().contains(t) implies self.has_thread(
                t,
            ) by {
                assert(self.pool().to_multiset().count(t) > 0);
                assert(pre.pool().to_multiset().count(t) > 0);
                assert(pre.pool().contains(t));
            }
            assert forall|t: ThreadID| true implies #[trigger] self.pool().to_multiset().count(t)
                <= 1 by {
                assert(self.pool().to_multiset().count(t) <= pre.pool().to_multiset().count(t));
            }
            assert forall|t: ThreadID| #[trigger] self.sleeping().contains(t) implies !self
                .pool().contains(t) by {
                if self.pool().contains(t) {
                    assert(self.pool().to_multiset().count(t) > 0);
                    assert(pre.pool().to_multiset().count(t) > 0);
                    assert(pre.pool().contains(t));
                }
            }
            assert(!self.pool().contains(self.idle())) by {
                if self.pool().contains(self.idle()) {
                    assert(self.pool().to_multiset().count(self.idle()) > 0);
                    assert(pre.pool().to_multiset().count(self.idle()) > 0);
                }
            }
        }
    }

    /// Wakes a sleeping thread: clears its flag, takes it out of the
    /// sleeping set and re-admits it to the pool. It becomes eligible but
    /// does not preempt the running thread.
    pub fn wake_thread(&mut self, thread: ThreadID)
        requires
            old(self).wf(),
            old(self).sleeping().contains(thread),
        ensures
            final(self).wf(),
            final(self).table() == table_with_sleeping(
                old(self).table(),
                old(self).index_of(thread),
                false,
            ),
            final(self).pool() == old(self).pool().push(thread),
            final(self).sleeping() == old(self).sleeping().remove(thread),
            final(self).current() == old(self).current(),
            final(self).idle() == old(self).idle(),
    {
        broadcast use vstd::seq_lib::group_to_multiset_ensures;

        let k = self.find_thread_index(thread);
        let priority = self.threads[k].inner.priority;
        let th = &mut self.threads[k];
        th.inner.sleeping = false;
        sleep_set_remove(&mut self.sleeping_threads, thread);
        self.scheduler.add_thread(thread, priority);
        proof {
            let pre = *old(self);
            assert(self.table() =~= table_with_sleeping(pre.table(), pre.index_of(thread), false));
            self.lemma_same_indices(pre);
            assert forall|k1: int, k2: int|
                0 <= k1 < k2 < self.table().len() implies (#[trigger] self.table()[k1]).id != (
            #[trigger] self.table()[k2]).id by {
                assert(self.table()[k1].id == pre.table()[k1].id);
                assert(self.table()[k2].id == pre.table()[k2].id);
            }
            assert(!pre.pool().contains(thread));
            assert forall|t: ThreadID| #[trigger] self.pool().contains(t) implies self.has_thread(
                t,
            ) by {
                assert(self.pool().to_multiset() =~= pre.pool().to_multiset().insert(thread));
                if t != thread {
                    assert(self.pool().to_multiset().count(t) > 0);
                    assert(pre.pool().to_multiset().count(t) > 0);
                    assert(pre.pool().contains(t));
                }
            }
            assert forall|t: ThreadID| true implies #[trigger] self.pool().to_multiset().count(t)
                <= 1 by {
                assert(self.pool().to_multiset() =~= pre.pool().to_multiset().insert(thread));
                if t == thread {
                    assert(pre.pool().to_multiset().count(thread) == 0);
                } else {
                    assert(self.pool().to_multiset().count(t) == pre.pool().to_multiset().count(
                        t,
                    ));
                }
            }
            assert forall|t: ThreadID| #[trigger] self.sleeping().contains(t) implies self
                .has_thread(t) && !self.pool().contains(t) by {
                assert(pre.sleeping().contains(t));
                assert(t != thread);
                assert(!pre.pool().contains(t));
                if self.pool().contains(t) {
                    assert(self.pool().to_multiset().count(t) > 0);
                    assert(self.pool().to_multiset() =~= pre.pool().to_multiset().insert(thread));
                    assert(pre.pool().to_multiset().count(t) > 0);
                }
            }
            assert(!self.pool().contains(self.idle())) by {
                assert(thread != pre.idle());
                if self.pool().contains(self.idle()) {
                    assert(self.pool().to_multiset().count(self.idle()) > 0);
                    assert(self.pool().to_multiset() =~= pre.pool().to_multiset().insert(thread));
                    assert(pre.pool().to_multiset().count(pre.idle()) > 0);
                }
            }
            assert forall|j: int|
                0 <= j < self.table().len() implies ((#[trigger] self.table()[j]).inner.sleeping
                <==> self.sleeping().contains(self.table()[j].id)) by {
                if j != pre.index_of(thread) {
                    assert(self.table()[j] == pre.table()[j]);
                    assert(self.table()[j].id != thread) by {
                        assert(pre.table()[pre.index_of(thread)].id == thread);
                        if j < pre.index_of(thread) {
                            assert(pre.table()[j].id != pre.table()[pre.index_of(thread)].id);
                        } else {
                            assert(pre.table()[pre.index_of(thread)].id != pre.table()[j].id);
                        }
                    }
                }
            }
            assert(!self.thread_view(self.idle()).inner.dead) by {
                let j = self.index_of(self.idle());
                assert(j == pre.index_of(pre.idle()));
                if j != pre.index_of(thread) {
                    assert(self.table()[j] == pre.table()[j]);
                } else {
                    assert(pre.table()[j].id == pre.idle() && pre.table()[j].id == thread);
                }
            }
        }
    }

    /// Marks the running thread as ended; the interrupt handler reaps it
    /// on the next trap. The idle thread never ends.
    pub fn mark_current_dead(&mut self)
        requires
            old(self).wf(),
            old(self).current() is Some,
            old(self).current()->0 != old(self).idle(),
        ensures
            final(self).wf(),
            final(self).table() == table_with_dead(
                old(self).table(),
                old(self).index_of(old(self).current()->0),
            ),
            final(self).pool() == old(self).pool(),
            final(self).sleeping() == old(self).sleeping(),
            final(self).current() == old(self).current(),
            final(self).idle() == old(self).idle(),
            final(self).sched() == old(self).sched(),
    {
        let tid = self.current_thread.unwrap();
        let k = self.find_thread_index(tid);
        let th = &mut self.threads[k];
        th.inner.dead = true;
        proof {
            let pre = *old(self);
            assert(self.table() =~= table_with_dead(pre.table(), pre.index_of(tid)));
            assert(pre.table()[pre.index_of(tid)].id != pre.idle());
            self.lemma_table_update_preserves(pre, pre.index_of(tid));
        }
    }

    /// Is the running thread marked dead?
    pub fn current_is_dead(&self) -> (r: bool)
        requires
            self.wf(),
            self.current() is Some,
        ensures
            r == self.thread_view(self.current()->0).inner.dead,
    {
        let tid = self.current_thread.unwrap();
        let k = self.find_thread_index(tid);
        self.threads[k].inner.dead
    }

    /// Forks the running thread: an almost identical copy joins the same
    /// process, with a fresh stack and a context resuming at the same
    /// point with syscall return value 0. `process` must be the running
    /// thread's own process record. Fails only when no stack range fits.
    pub fn fork_current_thread(
        &mut self,
        context: &Context,
        process: &mut Process,
        new_id: ThreadID,
    ) -> (r: MemoryResult<()>)
        requires
            old(self).wf(),
            old(self).current() is Some,
            !old(self).has_thread(new_id),
            new_id >= 1,
            context.wf(),
            old(self).thread_view(old(self).current()->0).stack.start.0 <= context.x@[2] <= old(self).thread_view(old(self).current()->0).stack.end.0,
        ensures
            final(self).sleeping() == old(self).sleeping(),
            final(self).current() == old(self).current(),
            final(self).idle() == old(self).idle(),
            final(process).is_user == old(process).is_user,
            final(process).inner.descriptors@ == old(process).inner.descriptors@,
            match r {
                Ok(_) => {
                    &&& final(self).wf()
                    &&& final(self).table().len() == old(self).table().len() + 1
                    &&& forall|j: int|
                        0 <= j < old(self).table().len() ==> final(self).table()[j] == old(self).table()[j]
                    &&& {
                        let child = final(self).table().last();
                        let parent = old(self).thread_view(old(self).current()->0);
                        &&& child.id == new_id
                        &&& child.process == parent.process
                        &&& !child.inner.dead
                        &&& !child.inner.sleeping
                        &&& child.inner.priority == parent.inner.priority
                        &&& child.stack.end.0 == child.stack.start.0 + STACK_SIZE
                        &&& final(process).inner.memory_set.segments() == old(
                            process,
                        ).inner.memory_set.segments().push(
                            crate::memory::Segment {
                                range: crate::memory::VirtualRange {
                                    start: child.stack.start,
                                    end: crate::memory::address::VirtualAddress(
                                        (child.stack.start.0
                                            + crate::process::process::page_round(
                                            STACK_SIZE as int,
                                        )) as u64,
                                    ),
                                },
                                flags: crate::memory::Flags {
                                    readable: true,
                                    writable: true,
                                    user: old(process).is_user,
                                },
                            },
                        )
                        &&& forall|k: int|
                            0 <= k < old(process).inner.memory_set.segments().len()
                                ==> !crate::memory::ranges_overlap(
                                (#[trigger] old(
                                    process,
                                ).inner.memory_set.segments()[k]).range.start.0 as int,
                                old(process).inner.memory_set.segments()[k].range.end.0 as int,
                                child.stack.start.0 as int,
                                child.stack.start.0 + crate::process::process::page_round(
                                    STACK_SIZE as int,
                                ),
                            )
                        &&& child.inner.context matches Some(c) && c.wf() && c.x@[2]
                            == child.stack.start.0 + (context.x@[2] - parent.stack.start.0)
                            && c.x@[10] == 0 && c.sepc == context.sepc && c.sstatus
                            == context.sstatus && forall|i: int|
                            0 <= i < 32 && i != 2 && i != 10 ==> c.x@[i] == context.x@[i]
                    }
                    &&& final(self).pool() == old(self).pool().push(new_id)
                },
                Err(_) => *final(self) == *old(self),
            },
            crate::memory::max_segment_end(
                old(process).inner.memory_set.segments(),
                crate::process::process::ALLOC_BASE as int,
            ) + 2 * crate::process::process::page_round(STACK_SIZE as int) <= u64::MAX ==> r is Ok,
    {
        let tid = self.current_thread.unwrap();
        let k = self.find_thread_index(tid);
        let child = match self.threads[k].fork(process, new_id, context) {
            Ok(child) => child,
            Err(e) => {
                return Err(e);
            },
        };
        let priority = child.inner.priority;
        self.scheduler.add_thread(new_id, priority);
        let ghost child_snap = child;
        self.threads.push(child);
        proof {
            let pre = *old(self);
            self.lemma_push_preserves(pre, child_snap);
        }
        Ok(())
    }

    /// Are any threads asleep?
    pub fn has_sleeping_threads(&self) -> (r: bool)
        ensures
            r == (self.sleeping() != Set::<ThreadID>::empty()),
    {
        !sleep_set_is_empty(&self.sleeping_threads)
    }

    /// Thread-state exclusivity: between interrupts, every live thread id
    /// is in exactly one place — running (current), ready (in the pool
    /// and not current) or sleeping.
    pub proof fn lemma_thread_state_exclusive(&self, t: ThreadID)
        requires
            self.wf(),
            self.settled(),
            self.live(t),
            t != self.idle(),
        ensures
            ({
                let running = self.current() == Some(t);
                let ready = self.pool().contains(t) && self.current() != Some(t);
                let asleep = self.sleeping().contains(t);
                &&& running || ready || asleep
                &&& !(running && ready)
                &&& !(running && asleep)
                &&& !(ready && asleep)
            }),
    {
    }

    /// After pushing a fresh thread to the table and the pool, the
    /// invariant still holds.
    proof fn lemma_push_preserves(&self, pre: Processor, thread: Thread)
        requires
            pre.wf(),
            thread.wf(),
            thread.stack.end.0 == thread.stack.start.0 + STACK_SIZE,
            !pre.has_thread(thread.id),
            !thread.inner.sleeping,
            self.table() == pre.table().push(thread),
            self.pool() == pre.pool().push(thread.id),
            self.sleeping() == pre.sleeping(),
            self.current() == pre.current(),
            self.idle() == pre.idle(),
            self.sched().wf(),
        ensures
            self.wf(),
    {
        broadcast use vstd::seq_lib::group_to_multiset_ensures;

        let t = thread.id;
        assert forall|x: ThreadID| #[trigger] self.pool().contains(x) implies self.has_thread(
            x,
        ) by {
            if x == t {
                assert(self.table()[self.table().len() - 1].id == t);
            } else {
                assert(pre.pool().contains(x));
                let k = choose|k: int|
                    0 <= k < pre.table().len() && (#[trigger] pre.table()[k]).id == x;
                assert(self.table()[k].id == x);
            }
        }
        assert(!pre.pool().contains(t)) by {
            if pre.pool().contains(t) {
                assert(pre.has_thread(t));
            }
        }
        assert forall|x: ThreadID| true implies #[trigger] self.pool().to_multiset().count(x)
            <= 1 by {
            assert(self.pool().to_multiset() =~= pre.pool().to_multiset().insert(t));
            if x != t {
                assert(self.pool().to_multiset().count(x) == pre.pool().to_multiset().count(x));
            } else {
                assert(pre.pool().to_multiset().count(t) == 0);
            }
        }
        assert forall|x: ThreadID| #[trigger] self.sleeping().contains(x) implies self.has_thread(
            x,
        ) by {
            let k = choose|k: int|
                0 <= k < pre.table().len() && (#[trigger] pre.table()[k]).id == x;
            assert(self.table()[k].id == x);
        }
        assert forall|x: ThreadID| #[trigger] self.sleeping().contains(x) implies !self
            .pool().contains(x) by {
            assert(x != t);
            assert(!pre.pool().contains(x));
        }
        match self.current() {
            Some(c) => {
                let k = choose|k: int|
                    0 <= k < pre.table().len() && (#[trigger] pre.table()[k]).id == c;
                assert(self.table()[k].id == c);
            },
            None => {},
        }
        assert(self.has_thread(self.idle())) by {
            let k = choose|k: int|
                0 <= k < pre.table().len() && (#[trigger] pre.table()[k]).id == pre.idle();
            assert(self.table()[k].id == self.idle());
        }
        assert(self.idle() != t);
        assert(!self.pool().contains(self.idle())) by {
            if self.pool().contains(self.idle()) {
                assert(pre.pool().contains(self.idle()) || self.idle() == t);
            }
        }
        assert forall|k: int|
            0 <= k < self.table().len() implies ((#[trigger] self.table()[k]).inner.sleeping
            <==> self.sleeping().contains(self.table()[k].id)) by {
            if k < self.table().len() - 1 {
                assert(self.table()[k] == pre.table()[k]);
            } else {
                assert(self.table()[k] == thread);
                assert(!self.sleeping().contains(t)) by {
                    if self.sleeping().contains(t) {
                        assert(pre.has_thread(t));
                    }
                }
            }
        }
        assert(!self.thread_view(self.idle()).inner.dead) by {
            let j = self.index_of(self.idle());
            let jp = pre.index_of(pre.idle());
            assert(0 <= jp < pre.table().len() && pre.table()[jp].id == pre.idle());
            assert(self.table()[jp].id == self.idle());
            assert(j == jp);
        }
    }
}

} // verus!
