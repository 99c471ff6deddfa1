//! The kernel runtime: one explicitly constructed object holding the
//! processor, the process and file tables, console input, the shared
//! kernel stack and the timer — everything the interrupt handlers drive.

pub mod condvar;

use vstd::prelude::*;
use crate::fs::Stdin;
use crate::interrupt::context::Context;
use crate::interrupt::timer::Timer;
use crate::memory::MemoryResult;
use crate::process::STACK_SIZE;
use crate::process::kernel_stack::KernelStack;
use crate::process::process::{Descriptor, Process};
use crate::process::processor::{Processor, ProcessorError, table_with_dead};
use crate::process::thread::Thread;
use crate::scheduler::{SchedulerImpl, ThreadID};

verus! {

/// What a syscall asks the trap layer to do next: resume the caller with
/// a return value, park it (it already moved itself to the sleeping set if
/// it meant to stay off the scheduler) and run someone else, or terminate
/// it.
#[derive(Clone, Copy, Debug, PartialEq, Eq, Structural)]
pub enum SyscallResult {
    Proceed(isize),
    Park(isize),
    Kill,
}

/// The kernel: the scheduling engine plus the resources syscalls touch.
pub struct Kernel {
    pub processor: Processor,
    /// Every process; a thread names its owner by index.
    pub processes: Vec<Process>,
    /// Loaded file images; a `Descriptor::File` names one by index.
    pub files: Vec<Vec<u8>>,
    pub stdin: Stdin,
    pub kernel_stack: KernelStack,
    pub timer: Timer,
    /// The next unused thread id.
    pub thread_counter: ThreadID,
}

impl Kernel {
    /// The kernel invariant: the processor is sound, thread ids stay
    /// below the counter, every thread belongs to a real process, every
    /// file descriptor points at a real file, and input watchers really
    /// sleep.
    pub open spec fn wf(&self) -> bool {
        &&& self.processor.wf()
        &&& 1 <= self.thread_counter
        &&& forall|k: int|
            0 <= k < self.processor.table().len() ==> (#[trigger] self.processor.table()[k]).id
                < self.thread_counter
        &&& forall|k: int|
            0 <= k < self.processor.table().len()
                ==> (#[trigger] self.processor.table()[k]).process < self.processes@.len()
        &&& forall|p: int, d: int|
            0 <= p < self.processes@.len() && 0 <= d
                < self.processes@[p].inner.descriptors@.len() ==> match (
            #[trigger] self.processes@[p].inner.descriptors@[d]) {
                Descriptor::File(f) => f < self.files@.len(),
                _ => true,
            }
        &&& self.stdin.condvar.wf_with(&self.processor)
    }

    /// Saved contexts line up with who runs: a live thread's context is
    /// taken exactly while it is the current thread. Dead threads keep no
    /// promise — their last context is never restored.
    pub open spec fn discipline(&self) -> bool {
        forall|k: int|
            0 <= k < self.processor.table().len() && !(
            #[trigger] self.processor.table()[k]).inner.dead ==> ((
            self.processor.table()[k].inner.context is None) <==> self.processor.current() == Some(
                self.processor.table()[k].id,
            ))
    }

    /// Dead threads are out of scheduling: at most still current, awaiting
    /// the reap on the next trap, and never pooled or sleeping.
    pub open spec fn dead_unscheduled(&self) -> bool {
        forall|k: int|
            0 <= k < self.processor.table().len() && (
            #[trigger] self.processor.table()[k]).inner.dead ==> !self.processor.pool().contains(
                self.processor.table()[k].id,
            ) || self.processor.current() == Some(self.processor.table()[k].id)
    }

    /// Dead threads never sleep.
    pub open spec fn dead_awake(&self) -> bool {
        forall|k: int|
            0 <= k < self.processor.table().len() && (
            #[trigger] self.processor.table()[k]).inner.dead
                ==> !self.processor.sleeping().contains(self.processor.table()[k].id)
    }

    /// The state the trap entry hands to the handler, and the handler
    /// hands back: the invariants hold, someone is current, contexts obey
    /// the running discipline and the dead are out of scheduling.
    pub open spec fn interrupt_ready(&self) -> bool {
        &&& self.wf()
        &&& self.processor.settled()
        &&& self.processor.current() is Some
        &&& self.discipline()
        &&& self.dead_unscheduled()
        &&& self.dead_awake()
    }

    /// Creates the kernel: the kernel process, the idle thread (id 1,
    /// entering `idle_entry`), an empty input buffer and a zero timer.
    /// Nothing is admitted to the scheduler yet and nothing runs.
    pub fn new(scheduler: SchedulerImpl, idle_entry: u64) -> (r: MemoryResult<Kernel>)
        requires
            scheduler.wf(),
            scheduler.pool() == Seq::<ThreadID>::empty(),
        ensures
            match r {
                Ok(k) => {
                    &&& k.wf()
                    &&& k.discipline()
                    &&& k.processor.sched() == scheduler
                    &&& k.processor.current() is None
                    &&& k.processor.pool() == Seq::<ThreadID>::empty()
                    &&& k.processor.sleeping() == Set::<ThreadID>::empty()
                    &&& k.processor.table().len() == 1
                    &&& k.processor.idle() == 1
                    &&& k.processes@.len() == 1
                    &&& !k.processes@[0].is_user
                    &&& k.processes@[0].inner.descriptors@ == seq![
                        Descriptor::Stdin,
                        Descriptor::Stdout,
                    ]
                    &&& k.thread_counter == 2
                    &&& k.stdin.bytes() == Seq::<u8>::empty()
                    &&& k.stdin.condvar.watchers() == Seq::<ThreadID>::empty()
                    &&& k.kernel_stack.staged() is None
                    &&& k.timer.ticks() == 0
                    &&& k.files@.len() == 0
                },
                Err(_) => false,
            },
    {
        let mut kernel_process = match Process::new_kernel() {
            Ok(p) => p,
            Err(e) => {
                return Err(e);
            },
        };
        let idle = match Thread::new(&mut kernel_process, 0, 1, idle_entry, None, 0) {
            Ok(t) => t,
            Err(_) => {
                proof {
                    crate::memory::lemma_max_segment_end(
                        Seq::<crate::memory::Segment>::empty(),
                        crate::process::process::ALLOC_BASE as int,
                    );
                    assert(false);
                }
                return Err(crate::memory::MemoryError::AddressExhausted);
            },
        };
        let mut processes: Vec<Process> = Vec::new();
        processes.push(kernel_process);
        let processor = Processor::new(scheduler, idle);
        Ok(
            Kernel {
                processor,
                processes,
                files: Vec::new(),
                stdin: Stdin::new(),
                kernel_stack: KernelStack::new(),
                timer: Timer::new(),
                thread_counter: 2,
            },
        )
    }

    /// Registers a loaded file image and returns its slot for
    /// `Descriptor::File`.
    pub fn load_file(&mut self, data: Vec<u8>) -> (r: usize)
        requires
            old(self).wf(),
        ensures
            final(self).wf(),
            final(self).files@ == old(self).files@.push(data),
            r == old(self).files@.len(),
            final(self).processor == old(self).processor,
            final(self).processes@ == old(self).processes@,
            final(self).thread_counter == old(self).thread_counter,
    {
        let r = self.files.len();
        self.files.push(data);
        r
    }

    /// Creates a kernel thread in process `process_id`, entering
    /// `entry_point` with `arguments`, returning into `exit_ra` when its
    /// body finishes, and admits it to the scheduler under `priority`.
    pub fn add_kernel_thread(
        &mut self,
        process_id: usize,
        entry_point: u64,
        arguments: Option<&Vec<u64>>,
        priority: usize,
        exit_ra: u64,
    ) -> (r: MemoryResult<ThreadID>)
        requires
            old(self).wf(),
            process_id < old(self).processes@.len(),
            priority < usize::MAX,
            old(self).thread_counter < ThreadID::MAX,
            match arguments {
                Some(a) => a@.len() <= 8,
                None => true,
            },
        ensures
            final(self).wf(),
            final(self).processor.current() == old(self).processor.current(),
            final(self).processor.sleeping() == old(self).processor.sleeping(),
            final(self).processor.idle() == old(self).processor.idle(),
            old(self).processor.sched() is Fifo <==> final(self).processor.sched() is Fifo,
            final(self).processes@.len() == old(self).processes@.len(),
            forall|p: int|
                0 <= p < old(self).processes@.len() ==> (#[trigger] final(self).processes@[p]).is_user
                    == old(self).processes@[p].is_user && final(self).processes@[p].inner.descriptors@
                    == old(self).processes@[p].inner.descriptors@,
            final(self).stdin == old(self).stdin,
            final(self).files@ == old(self).files@,
            final(self).kernel_stack == old(self).kernel_stack,
            old(self).discipline() ==> final(self).discipline(),
            match r {
                Ok(tid) => {
                    &&& tid == old(self).thread_counter
                    &&& final(self).thread_counter == old(self).thread_counter + 1
                    &&& final(self).processor.pool() == old(self).processor.pool().push(tid)
                    &&& final(self).processor.table().len() == old(self).processor.table().len()
                        + 1
                    &&& {
                        let t = final(self).processor.table().last();
                        &&& t.id == tid
                        &&& t.process == process_id
                        &&& t.inner.priority == priority
                        &&& !t.inner.dead
                        &&& !t.inner.sleeping
                        &&& t.inner.context matches Some(c) && c.sepc == entry_point && c.x@[1]
                            == exit_ra && c.x@[2] == t.stack.end.0
                    }
                    &&& forall|j: int|
                        0 <= j < old(self).processor.table().len() ==> final(self).processor.table()[j] == old(self).processor.table()[j]
                },
                Err(_) => {
                    &&& final(self).thread_counter == old(self).thread_counter
                    &&& final(self).processor == old(self).processor
                },
            },
            crate::memory::max_segment_end(
                old(self).processes@[process_id as int].inner.memory_set.segments(),
                crate::process::process::ALLOC_BASE as int,
            ) + 2 * crate::process::process::page_round(STACK_SIZE as int) <= u64::MAX ==> r is Ok,
    {
        let id = self.thread_counter;
        let mut thread = match Thread::new(
            &mut self.processes[process_id],
            process_id,
            id,
            entry_point,
            arguments,
            priority,
        ) {
            Ok(t) => t,
            Err(e) => {
                return Err(e);
            },
        };
        match &mut thread.inner.context {
            Some(c) => {
                c.set_ra(exit_ra);
            },
            None => {},
        }
        self.thread_counter = id + 1;
        proof {
            assert(!self.processor.has_thread(id)) by {
                if self.processor.has_thread(id) {
                    let k = choose|k: int|
                        0 <= k < self.processor.table().len() && (
                        #[trigger] self.processor.table()[k]).id == id;
                }
            }
        }
        self.processor.add_thread(thread);
        Ok(id)
    }

    /// Creates a user process around a loaded executable entering
    /// `entry_point`, gives it one thread, and admits that thread under
    /// `priority`.
    pub fn add_user_thread(&mut self, entry_point: u64, priority: usize) -> (r: MemoryResult<
        ThreadID,
    >)
        requires
            old(self).wf(),
            priority < usize::MAX,
            old(self).thread_counter < ThreadID::MAX,
        ensures
            final(self).wf(),
            final(self).processor.current() == old(self).processor.current(),
            final(self).processor.sleeping() == old(self).processor.sleeping(),
            final(self).processor.idle() == old(self).processor.idle(),
            old(self).discipline() ==> final(self).discipline(),
            match r {
                Ok(tid) => {
                    &&& tid == old(self).thread_counter
                    &&& final(self).thread_counter == old(self).thread_counter + 1
                    &&& final(self).processes@.len() == old(self).processes@.len() + 1
                    &&& final(self).processor.pool() == old(self).processor.pool().push(tid)
                    &&& final(self).processor.table().len() == old(self).processor.table().len()
                        + 1
                    &&& {
                        let t = final(self).processor.table().last();
                        &&& t.id == tid
                        &&& t.process == old(self).processes@.len()
                        &&& t.inner.priority == priority
                        &&& t.inner.context matches Some(c) && c.sepc == entry_point
                            && c.sstatus.spp_user
                    }
                },
                Err(_) => final(self).thread_counter == old(self).thread_counter && final(self).processor == old(self).processor,
            },
    {
        let process = match Process::new_user() {
            Ok(p) => p,
            Err(e) => {
                return Err(e);
            },
        };
        let process_id = self.processes.len();
        self.processes.push(process);
        let id = self.thread_counter;
        let thread = match Thread::new(
            &mut self.processes[process_id],
            process_id,
            id,
            entry_point,
            None,
            priority,
        ) {
            Ok(t) => t,
            Err(e) => {
                return Err(e);
            },
        };
        self.thread_counter = id + 1;
        proof {
            assert(!self.processor.has_thread(id)) by {
                if self.processor.has_thread(id) {
                    let k = choose|k: int|
                        0 <= k < self.processor.table().len() && (
                        #[trigger] self.processor.table()[k]).id == id;
                }
            }
        }
        self.processor.add_thread(thread);
        Ok(id)
    }

    /// A kernel thread's own exit path: it flags itself dead and then
    /// traps, so the next interrupt reaps it.
    pub fn mark_current_thread_dead(&mut self)
        requires
            old(self).wf(),
            old(self).processor.current() is Some,
            old(self).processor.current()->0 != old(self).processor.idle(),
        ensures
            final(self).wf(),
            final(self).processor.table() == table_with_dead(
                old(self).processor.table(),
                old(self).processor.index_of(old(self).processor.current()->0),
            ),
            final(self).processor.pool() == old(self).processor.pool(),
            final(self).processor.sleeping() == old(self).processor.sleeping(),
            final(self).processor.current() == old(self).processor.current(),
            final(self).processor.idle() == old(self).processor.idle(),
            final(self).thread_counter == old(self).thread_counter,
            final(self).processes@ == old(self).processes@,
            final(self).stdin == old(self).stdin,
            old(self).discipline() ==> final(self).discipline(),
    {
        self.processor.mark_current_dead();
        proof {
            let pre = old(self).processor;
            let k = pre.index_of(pre.current()->0);
            if old(self).discipline() {
                assert forall|j: int|
                    0 <= j < self.processor.table().len() && !(
                #[trigger] self.processor.table()[j]).inner.dead implies ((
                self.processor.table()[j].inner.context is None) <==> self.processor.current()
                    == Some(self.processor.table()[j].id)) by {
                    if j != k {
                        assert(self.processor.table()[j] == pre.table()[j]);
                    }
                }
            }
        }
    }

    /// The get-thread-id syscall: the caller's own id.
    pub fn sys_get_tid(&self) -> (r: SyscallResult)
        requires
            self.processor.current() is Some,
        ensures
            r == SyscallResult::Proceed(self.processor.current()->0),
    {
        SyscallResult::Proceed(self.processor.current_thread())
    }

    /// The exit syscall: the caller is terminated; reporting the exit
    /// code is the console's business.
    pub fn sys_exit(&self, _code: usize) -> (r: SyscallResult)
        requires
            self.processor.current() is Some,
        ensures
            r == SyscallResult::Kill,
    {
        SyscallResult::Kill
    }

    /// The fork syscall: the caller gets an almost identical sibling in
    /// its own process. The parent's return value is its own thread id;
    /// the child's context already carries return value 0.
    pub fn sys_fork(&mut self, context: &Context) -> (r: MemoryResult<SyscallResult>)
        requires
            old(self).wf(),
            old(self).processor.current() is Some,
            old(self).thread_counter < ThreadID::MAX,
            context.wf(),
            old(self).processor.thread_view(old(self).processor.current()->0).stack.start.0
                <= context.x@[2] <= old(self).processor.thread_view(
                old(self).processor.current()->0,
            ).stack.end.0,
        ensures
            final(self).wf(),
            final(self).processor.current() == old(self).processor.current(),
            final(self).processor.sleeping() == old(self).processor.sleeping(),
            final(self).processor.idle() == old(self).processor.idle(),
            old(self).discipline() ==> final(self).discipline(),
            match r {
                Ok(res) => {
                    &&& res == SyscallResult::Proceed(old(self).processor.current()->0)
                    &&& final(self).thread_counter == old(self).thread_counter + 1
                    &&& final(self).processor.pool() == old(self).processor.pool().push(
                        old(self).thread_counter,
                    )
                    &&& final(self).processor.table().len() == old(self).processor.table().len()
                        + 1
                    &&& forall|j: int|
                        0 <= j < old(self).processor.table().len() ==> final(self).processor.table()[j] == old(self).processor.table()[j]
                    &&& {
                        let child = final(self).processor.table().last();
                        let parent = old(self).processor.thread_view(
                            old(self).processor.current()->0,
                        );
                        let pidx = parent.process as int;
                        &&& child.id == old(self).thread_counter
                        &&& child.process == parent.process
                        &&& !child.inner.dead
                        &&& !child.inner.sleeping
                        &&& child.inner.priority == parent.inner.priority
                        &&& final(self).processes@[pidx].inner.memory_set.segments() == old(self).processes@[pidx].inner.memory_set.segments().push(
                            crate::memory::Segment {
                                range: crate::memory::VirtualRange {
                                    start: child.stack.start,
                                    end: crate::memory::address::VirtualAddress(
                                        (child.stack.start.0
                                            + crate::process::process::page_round(
                                            STACK_SIZE as int,
                                        )) as u64,
                                    ),
                                },
                                flags: crate::memory::Flags {
                                    readable: true,
                                    writable: true,
                                    user: old(self).processes@[pidx].is_user,
                                },
                            },
                        )
                        &&& forall|k: int|
                            0 <= k < old(self).processes@[pidx].inner.memory_set.segments().len()
                                ==> !crate::memory::ranges_overlap(
                                (#[trigger] old(self).processes@[pidx].inner.memory_set.segments()[k]).range.start.0
                                    as int,
                                old(self).processes@[pidx].inner.memory_set.segments()[k].range.end.0
                                    as int,
                                child.stack.start.0 as int,
                                child.stack.start.0 + crate::process::process::page_round(
                                    STACK_SIZE as int,
                                ),
                            )
                        &&& child.inner.context matches Some(c) && c.x@[10] == 0 && c.x@[2]
                            == child.stack.start.0 + (context.x@[2] - parent.stack.start.0)
                            && c.sepc == context.sepc && forall|i: int|
                            0 <= i < 32 && i != 2 && i != 10 ==> c.x@[i] == context.x@[i]
                    }
                },
                Err(_) => {
                    &&& final(self).thread_counter == old(self).thread_counter
                    &&& final(self).processor == old(self).processor
                },
            },
            crate::memory::max_segment_end(
                old(self).processes@[old(self).processor.thread_view(
                    old(self).processor.current()->0,
                ).process as int].inner.memory_set.segments(),
                crate::process::process::ALLOC_BASE as int,
            ) + 2 * crate::process::process::page_round(STACK_SIZE as int) <= u64::MAX ==> r is Ok,
    {
        let parent = self.processor.current_thread();
        let process_id = self.processor.get_thread(parent).process;
        let child_id = self.thread_counter;
        proof {
            assert(!self.processor.has_thread(child_id)) by {
                if self.processor.has_thread(child_id) {
                    let k = choose|k: int|
                        0 <= k < self.processor.table().len() && (
                        #[trigger] self.processor.table()[k]).id == child_id;
                }
            }
        }
        match self.processor.fork_current_thread(
            context,
            &mut self.processes[process_id],
            child_id,
        ) {
            Ok(_) => {},
            Err(e) => {
                return Err(e);
            },
        }
        self.thread_counter = child_id + 1;
        Ok(SyscallResult::Proceed(parent))
    }

    /// The open syscall: a loaded file joins the caller's descriptor
    /// list; its new descriptor number comes back.
    pub fn sys_open(&mut self, file_id: usize) -> (r: SyscallResult)
        requires
            old(self).wf(),
            old(self).processor.current() is Some,
            file_id < old(self).files@.len(),
            old(self).processes@[old(self).processor.thread_view(
                old(self).processor.current()->0,
            ).process as int].inner.descriptors@.len() < ThreadID::MAX,
        ensures
            final(self).wf(),
            final(self).processor == old(self).processor,
            final(self).thread_counter == old(self).thread_counter,
            ({
                let pidx = old(self).processor.thread_view(
                    old(self).processor.current()->0,
                ).process as int;
                &&& final(self).processes@[pidx].inner.descriptors@ == old(self).processes@[pidx].inner.descriptors@.push(Descriptor::File(file_id))
                &&& r == SyscallResult::Proceed(
                    old(self).processes@[pidx].inner.descriptors@.len() as isize,
                )
                &&& forall|p: int|
                    0 <= p < old(self).processes@.len() && p != pidx ==> final(self).processes@[p] == old(self).processes@[p]
                &&& final(self).processes@.len() == old(self).processes@.len()
            }),
    {
        let tid = self.processor.current_thread();
        let process_id = self.processor.get_thread(tid).process;
        self.processes[process_id].inner.descriptors.push(Descriptor::File(file_id));
        let fd = self.processes[process_id].inner.descriptors.len() - 1;
        SyscallResult::Proceed(fd as isize)
    }

    /// The write syscall: console output succeeds whole (the bytes are
    /// the caller's to print); everything else rejects writes.
    pub fn sys_write(&self, fd: usize, data: &Vec<u8>) -> (r: SyscallResult)
        requires
            self.wf(),
            self.processor.current() is Some,
            data@.len() < ThreadID::MAX,
        ensures
            ({
                let pidx = self.processor.thread_view(self.processor.current()->0).process as int;
                let descs = self.processes@[pidx].inner.descriptors@;
                if fd >= descs.len() {
                    r == SyscallResult::Proceed(-1isize)
                } else {
                    match descs[fd as int] {
                        Descriptor::Stdout => r == SyscallResult::Proceed(data@.len() as isize),
                        _ => r == SyscallResult::Proceed(-1isize),
                    }
                }
            }),
    {
        let tid = self.processor.current_thread();
        let process_id = self.processor.get_thread(tid).process;
        let descriptors = &self.processes[process_id].inner.descriptors;
        if fd >= descriptors.len() {
            return SyscallResult::Proceed(-1);
        }
        match descriptors[fd] {
            Descriptor::Stdout => SyscallResult::Proceed(data.len() as isize),
            _ => SyscallResult::Proceed(-1),
        }
    }

    /// The read syscall. Console input hands over buffered bytes, or
    /// parks the caller on the input condition variable when none are
    /// buffered; a loaded file hands over its leading bytes; everything
    /// else fails. A zero-length transfer reports `Park(0)`, as the
    /// blocking-read protocol prescribes for "nothing yet".
    pub fn sys_read(&mut self, fd: usize, len: usize) -> (r: (SyscallResult, Vec<u8>))
        requires
            old(self).wf(),
            old(self).processor.current() is Some,
            old(self).processor.pool().contains(old(self).processor.current()->0),
            len < ThreadID::MAX,
        ensures
            final(self).wf(),
            final(self).processor.current() == old(self).processor.current(),
            final(self).processor.idle() == old(self).processor.idle(),
            final(self).processor.table().len() == old(self).processor.table().len(),
            final(self).thread_counter == old(self).thread_counter,
            final(self).processes@ == old(self).processes@,
            ({
                let pidx = old(self).processor.thread_view(
                    old(self).processor.current()->0,
                ).process as int;
                let descs = old(self).processes@[pidx].inner.descriptors@;
                if fd >= descs.len() {
                    r.0 == SyscallResult::Proceed(-1isize) && final(self).processor == old(self).processor && final(self).stdin == old(self).stdin
                } else {
                    match descs[fd as int] {
                        Descriptor::Stdin => {
                            if old(self).stdin.bytes().len() == 0 {
                                &&& r.0 == SyscallResult::Park(0)
                                &&& r.1@.len() == 0
                                &&& final(self).stdin.condvar.watchers() == old(self).stdin.condvar.watchers().push(old(self).processor.current()->0)
                                &&& final(self).processor.sleeping() == old(self).processor.sleeping().insert(old(self).processor.current()->0)
                                &&& final(self).processor.pool().to_multiset() == old(self).processor.pool().to_multiset().remove(
                                    old(self).processor.current()->0,
                                )
                                &&& final(self).stdin.bytes() == old(self).stdin.bytes()
                            } else {
                                let n = vstd::math::min(
                                    len as int,
                                    old(self).stdin.bytes().len() as int,
                                );
                                &&& r.1@ == old(self).stdin.bytes().take(n)
                                &&& r.0 == (if n > 0 {
                                    SyscallResult::Proceed(n as isize)
                                } else {
                                    SyscallResult::Park(0)
                                })
                                &&& final(self).stdin.bytes() == old(self).stdin.bytes().skip(n)
                                &&& final(self).processor == old(self).processor
                            }
                        },
                        Descriptor::File(f) => {
                            let n = vstd::math::min(
                                len as int,
                                old(self).files@[f as int]@.len() as int,
                            );
                            &&& r.1@ == old(self).files@[f as int]@.take(n)
                            &&& r.0 == (if n > 0 {
                                SyscallResult::Proceed(n as isize)
                            } else {
                                SyscallResult::Park(0)
                            })
                            &&& final(self).processor == old(self).processor
                            &&& final(self).stdin == old(self).stdin
                        },
                        Descriptor::Stdout => r.0 == SyscallResult::Proceed(-1isize) && final(self).processor == old(self).processor && final(self).stdin == old(self).stdin,
                    }
                }
            }),
    {
        let tid = self.processor.current_thread();
        let process_id = self.processor.get_thread(tid).process;
        let descriptors = &self.processes[process_id].inner.descriptors;
        if fd >= descriptors.len() {
            return (SyscallResult::Proceed(-1), Vec::new());
        }
        match descriptors[fd] {
            Descriptor::Stdin => {
                if self.stdin.buffered() == 0 {
                    self.stdin.condvar.wait(&mut self.processor);
                    (SyscallResult::Park(0), Vec::new())
                } else {
                    let data = self.stdin.take_bytes(len);
                    let n = data.len();
                    if n > 0 {
                        (SyscallResult::Proceed(n as isize), data)
                    } else {
                        (SyscallResult::Park(0), data)
                    }
                }
            },
            Descriptor::File(f) => {
                let file_len = self.files[f].len();
                let n = if len < file_len {
                    len
                } else {
                    file_len
                };
                let mut data: Vec<u8> = Vec::new();
                let mut i: usize = 0;
                while i < n
                    invariant
                        i <= n,
                        f < self.files@.len(),
                        n <= self.files@[f as int]@.len(),
                        data@.len() == i,
                        data@ == self.files@[f as int]@.take(i as int),
                    decreases n - i,
                {
                    let b = self.files[f][i];
                    data.push(b);
                    proof {
                        assert(data@ =~= self.files@[f as int]@.take(i + 1));
                    }
                    i = i + 1;
                }
                if n > 0 {
                    (SyscallResult::Proceed(n as isize), data)
                } else {
                    (SyscallResult::Park(0), data)
                }
            },
            Descriptor::Stdout => (SyscallResult::Proceed(-1), Vec::new()),
        }
    }

    /// Applies a syscall's verdict to the trapped context: `Proceed`
    /// writes the return value and resumes the caller past the trap
    /// instruction; `Park` saves the updated context and schedules someone
    /// else; `Kill` evicts the caller and schedules someone else. The
    /// context to restore ends up staged on the kernel stack.
    pub fn apply_syscall_result(&mut self, context: Context, result: SyscallResult) -> (r: Result<
        (),
        ProcessorError,
    >)
        requires
            old(self).wf(),
            old(self).processor.current() is Some,
            context.wf(),
            context.sepc + 4 <= u64::MAX,
            forall|k: int|
                0 <= k < old(self).processor.table().len() && (old(self).processor.pool().contains(
                    (#[trigger] old(self).processor.table()[k]).id,
                ) || old(self).processor.table()[k].id == old(self).processor.idle()) && Some(
                    old(self).processor.table()[k].id,
                ) != old(self).processor.current() ==> old(self).processor.table()[k].inner.context is Some,
            result is Park ==> old(self).processor.thread_view(
                old(self).processor.current()->0,
            ).inner.context is None,
            result is Kill ==> old(self).processor.pool().contains(
                old(self).processor.current()->0,
            ),
        ensures
            final(self).processes@ == old(self).processes@,
            final(self).stdin == old(self).stdin,
            final(self).thread_counter == old(self).thread_counter,
            final(self).processor.sleeping() == old(self).processor.sleeping(),
            final(self).processor.idle() == old(self).processor.idle(),
            r matches Err(_) ==> final(self).processor.pool().len() == 0 && final(self).processor.sleeping() == Set::<ThreadID>::empty(),
            match result {
                SyscallResult::Proceed(v) => {
                    &&& r is Ok
                    &&& final(self).processor == old(self).processor
                    &&& (final(self).kernel_stack.staged() matches Some(c) && c.x@
                        == context.x@.update(10, v as u64) && c.sepc == context.sepc + 4
                        && c.sstatus == context.sstatus)
                },
                SyscallResult::Park(v) => {
                    &&& final(self).processor.pool().to_multiset() == old(self).processor.pool().to_multiset()
                    &&& (r is Ok ==> final(self).kernel_stack.staged() is Some && final(self).processor.current() is Some)
                    &&& (r is Ok && final(self).processor.current() != old(self).processor.current()
                        ==> (final(self).processor.thread_view(
                        old(self).processor.current()->0,
                    ).inner.context matches Some(pc) && pc.x@ == context.x@.update(10, v as u64)
                        && pc.sepc == context.sepc + 4 && pc.sstatus == context.sstatus) && Some(
                        final(self).kernel_stack.staged()->0,
                    ) == old(self).processor.thread_view(
                        final(self).processor.current()->0,
                    ).inner.context)
                    &&& (r is Ok && final(self).processor.current() == old(self).processor.current()
                        ==> (final(self).kernel_stack.staged() matches Some(c) && c.x@
                        == context.x@.update(10, v as u64) && c.sepc == context.sepc + 4
                        && c.sstatus == context.sstatus))
                    &&& (r matches Err(e) ==> e == ProcessorError::AllThreadsTerminated)
                },
                SyscallResult::Kill => {
                    &&& final(self).processor.pool().to_multiset() == old(self).processor.pool().to_multiset().remove(old(self).processor.current()->0)
                    &&& (r is Ok ==> final(self).kernel_stack.staged() is Some && final(self).processor.current() is Some && final(self).processor.current() != old(self).processor.current())
                    &&& (r is Ok ==> Some(final(self).kernel_stack.staged()->0) == old(self).processor.thread_view(final(self).processor.current()->0).inner.context)
                    &&& (r is Ok ==> final(self).processor.thread_view(
                        old(self).processor.current()->0,
                    ).inner.dead)
                    &&& (r matches Err(e) ==> e == ProcessorError::AllThreadsTerminated)
                },
            },
    {
        broadcast use vstd::seq_lib::group_to_multiset_ensures;

        match result {
            SyscallResult::Proceed(v) => {
                let mut ctx = context;
                ctx.set_syscall_return(v);
                ctx.sepc = ctx.sepc + 4;
                self.kernel_stack.push_context(ctx);
                Ok(())
            },
            SyscallResult::Park(v) => {
                let mut ctx = context;
                ctx.set_syscall_return(v);
                ctx.sepc = ctx.sepc + 4;
                self.processor.park_current_thread(ctx);
                let ghost mid = self.processor;
                let c = match self.processor.prepare_next_thread() {
                    Ok(c) => c,
                    Err(e) => {
                        return Err(e);
                    },
                };
                self.kernel_stack.push_context(c);
                proof {
                    let prep = old(self).processor;
                    let cur = prep.current()->0;
                    let pk = prep.index_of(cur);
                    let t = self.processor.current()->0;
                    assert forall|j: int|
                        0 <= j < prep.table().len() implies (
                    #[trigger] self.processor.table()[j]).id == prep.table()[j].id by {
                        if j != mid.index_of(t) {
                            assert(self.processor.table()[j] == mid.table()[j]);
                        }
                        if j != pk {
                            assert(mid.table()[j] == prep.table()[j]);
                        }
                    }
                    self.processor.lemma_same_indices(prep);
                    mid.lemma_same_indices(prep);
                    if self.processor.current() != prep.current() {
                        let tk = prep.index_of(t);
                        assert(tk != pk) by {
                            assert(prep.table()[tk].id == t);
                            assert(prep.table()[pk].id == cur);
                        }
                        assert(self.processor.table()[pk] == mid.table()[pk]);
                        assert(self.processor.index_of(cur) == pk);
                        assert(mid.table()[tk] == prep.table()[tk]);
                        assert(Some(c) == mid.table()[tk].inner.context);
                    }
                }
                Ok(())
            },
            SyscallResult::Kill => {
                let ghost pre = *old(self);
                self.processor.kill_current_thread();
                proof {
                    let tid = pre.processor.current()->0;
                    let pk = pre.processor.index_of(tid);
                    assert forall|k: int|
                        0 <= k < self.processor.table().len() && (self.processor.pool().contains(
                            (#[trigger] self.processor.table()[k]).id,
                        ) || self.processor.table()[k].id == self.processor.idle()) implies self
                        .processor.table()[k].inner.context is Some by {
                        if k != pk {
                            assert(self.processor.table()[k] == pre.processor.table()[k]);
                            if self.processor.pool().contains(pre.processor.table()[k].id) {
                                assert(self.processor.pool().to_multiset().count(
                                    pre.processor.table()[k].id,
                                ) > 0);
                                assert(pre.processor.pool().contains(pre.processor.table()[k].id));
                                assert(Some(pre.processor.table()[k].id) != pre.processor.current())
                                    by {
                                    if k < pk {
                                        assert(pre.processor.table()[k].id != pre
                                            .processor.table()[pk].id);
                                    } else {
                                        assert(pre.processor.table()[pk].id != pre
                                            .processor.table()[k].id);
                                    }
                                }
                            } else {
                                assert(pre.processor.table()[k].id == pre.processor.idle());
                                assert(Some(pre.processor.table()[k].id) != pre.processor.current())
                                    by {
                                    assert(pre.processor.pool().contains(tid));
                                }
                            }
                        } else {
                            assert(!self.processor.pool().contains(tid)) by {
                                assert(self.processor.pool().to_multiset().count(tid) == pre
                                    .processor.pool().to_multiset().count(tid) - 1);
                                assert(pre.processor.pool().to_multiset().count(tid) <= 1);
                            }
                            assert(self.processor.table()[k].id == tid);
                            assert(tid != self.processor.idle()) by {
                                assert(pre.processor.pool().contains(tid));
                            }
                        }
                    }
                }
                let ghost mid = self.processor;
                let c = match self.processor.prepare_next_thread() {
                    Ok(c) => c,
                    Err(e) => {
                        return Err(e);
                    },
                };
                self.kernel_stack.push_context(c);
                proof {
                    let tid = pre.processor.current()->0;
                    let t = self.processor.current()->0;
                    assert(self.processor.current() != pre.processor.current()) by {
                        if self.processor.pool().to_multiset().count(tid) >= 0 {
                            if t == tid {
                                assert(false) by {
                                    let mid_pool_ms = pre.processor.pool().to_multiset().remove(
                                        tid,
                                    );
                                    assert(mid_pool_ms.count(tid) == 0);
                                    assert(pre.processor.pool().to_multiset().count(tid) <= 1);
                                }
                            }
                        }
                    }
                    let pk = pre.processor.index_of(tid);
                    assert forall|j: int|
                        0 <= j < pre.processor.table().len() implies (
                    #[trigger] self.processor.table()[j]).id == pre.processor.table()[j].id by {
                        if j != mid.index_of(t) {
                            assert(self.processor.table()[j] == mid.table()[j]);
                        }
                        if j != pk {
                            assert(mid.table()[j] == pre.processor.table()[j]);
                        }
                    }
                    self.processor.lemma_same_indices(pre.processor);
                    mid.lemma_same_indices(pre.processor);
                    let tk = pre.processor.index_of(t);
                    assert(tk != pk) by {
                        assert(pre.processor.table()[tk].id == t);
                        assert(pre.processor.table()[pk].id == tid);
                    }
                    assert(mid.table()[tk] == pre.processor.table()[tk]);
                    assert(Some(c) == mid.table()[tk].inner.context);
                    assert(self.processor.table()[pk] == mid.table()[pk]);
                    assert(self.processor.index_of(tid) == pk);
                }
                Ok(())
            },
        }
    }
}

} // verus!
