//! Kernel-level behaviour: thread lifecycle through the interrupt handler,
//! fork semantics, the blocking read protocol, and the end-to-end Stride
//! scenario.

use std::collections::HashMap;

use kernel_rt::interrupt::context::Context;
use kernel_rt::interrupt::handler::Event;
use kernel_rt::kernel::{Kernel, SyscallResult};
use kernel_rt::process::processor::ProcessorError;
use kernel_rt::scheduler::SchedulerImpl;
use kernel_rt::scheduler::fifo_scheduler::FifoScheduler;
use kernel_rt::scheduler::stride_scheduler::StrideScheduler;

const IDLE_ENTRY: u64 = 0x9000_0000;
const ENTRY: u64 = 0x9100_0000;
const EXIT_RA: u64 = 0x9200_0000;

fn stride_kernel() -> Kernel {
    Kernel::new(SchedulerImpl::Stride(StrideScheduler::default()), IDLE_ENTRY).unwrap()
}

fn fifo_kernel() -> Kernel {
    Kernel::new(SchedulerImpl::Fifo(FifoScheduler::default()), IDLE_ENTRY).unwrap()
}

#[test]
fn new_kernel_has_idle_and_kernel_process() {
    let mut k = stride_kernel();
    assert_eq!(k.thread_counter, 2);
    assert!(!k.processor.has_sleeping_threads());
    assert!(k.kernel_stack.take_staged().is_none());
    assert_eq!(k.timer.count(), 0);
}

#[test]
fn spawned_threads_get_monotonic_ids() {
    let mut k = stride_kernel();
    let a = k.add_kernel_thread(0, ENTRY, None, 1, EXIT_RA).unwrap();
    let b = k.add_kernel_thread(0, ENTRY, None, 2, EXIT_RA).unwrap();
    assert_eq!(a, 2);
    assert_eq!(b, 3);
    assert_eq!(k.thread_counter, 4);
}

#[test]
fn spawned_thread_context_is_staged_right() {
    let mut k = stride_kernel();
    let args = vec![7u64, 9u64];
    let tid = k.add_kernel_thread(0, ENTRY, Some(&args), 1, EXIT_RA).unwrap();
    let t = k.processor.get_thread(tid);
    let c = t.inner.context.as_ref().unwrap();
    assert_eq!(c.sepc, ENTRY);
    assert_eq!(c.x[1], EXIT_RA);
    assert_eq!(c.x[2], t.stack.end.0);
    assert_eq!(c.x[10], 7);
    assert_eq!(c.x[11], 9);
    assert!(!c.sstatus.spp_user);
    assert!(c.sstatus.spie);
}

#[test]
fn user_thread_runs_in_user_mode() {
    let mut k = stride_kernel();
    let tid = k.add_user_thread(ENTRY, 3).unwrap();
    let t = k.processor.get_thread(tid);
    let c = t.inner.context.as_ref().unwrap();
    assert!(c.sstatus.spp_user);
    assert_eq!(k.processes.len(), 2);
    assert!(k.processes[1].is_user);
}

#[test]
fn prepare_runs_the_first_thread() {
    let mut k = fifo_kernel();
    let a = k.add_kernel_thread(0, ENTRY, None, 0, EXIT_RA).unwrap();
    let ctx = k.processor.prepare_next_thread().unwrap();
    assert_eq!(k.processor.current_thread(), a);
    assert_eq!(ctx.sepc, ENTRY);
    // The running thread's saved context is taken while it runs.
    assert!(k.processor.get_thread(a).inner.context.is_none());
}

#[test]
fn all_threads_terminated_is_reported() {
    let mut k = fifo_kernel();
    assert_eq!(
        k.processor.prepare_next_thread().unwrap_err(),
        ProcessorError::AllThreadsTerminated
    );
}

#[test]
fn idle_thread_runs_while_everyone_sleeps() {
    let mut k = fifo_kernel();
    let a = k.add_kernel_thread(0, ENTRY, None, 0, EXIT_RA).unwrap();
    let ctx = k.processor.prepare_next_thread().unwrap();
    // The thread blocks on console input: it parks itself on the condvar.
    let (res, data) = k.sys_read(0, 8);
    assert_eq!(res, SyscallResult::Park(0));
    assert!(data.is_empty());
    assert!(k.processor.has_sleeping_threads());
    k.apply_syscall_result(ctx, res).unwrap();
    // With the pool empty and a sleeper pending, idle runs.
    assert_eq!(k.processor.current_thread(), 1);
    let idle_ctx = k.kernel_stack.take_staged().unwrap();
    assert_eq!(idle_ctx.sepc, IDLE_ENTRY);
    // A byte arrives: the sleeper wakes, and the next timer tick runs it.
    k.stdin.push(b'x', &mut k.processor);
    assert!(!k.processor.has_sleeping_threads());
    k.handle_interrupt(idle_ctx, Event::SupervisorTimer).unwrap();
    assert_eq!(k.processor.current_thread(), a);
    let (res, data) = k.sys_read(0, 8);
    assert_eq!(res, SyscallResult::Proceed(1));
    assert_eq!(data, vec![b'x']);
}

#[test]
fn breakpoint_steps_over_the_instruction() {
    let mut k = fifo_kernel();
    k.add_kernel_thread(0, ENTRY, None, 0, EXIT_RA).unwrap();
    let ctx = k.processor.prepare_next_thread().unwrap();
    let sepc = ctx.sepc;
    k.handle_interrupt(ctx, Event::Breakpoint).unwrap();
    let restored = k.kernel_stack.take_staged().unwrap();
    assert_eq!(restored.sepc, sepc + 2);
}

#[test]
fn timer_preemption_cycles_fifo_threads() {
    let mut k = fifo_kernel();
    let a = k.add_kernel_thread(0, ENTRY, None, 0, EXIT_RA).unwrap();
    let b = k.add_kernel_thread(0, ENTRY, None, 0, EXIT_RA).unwrap();
    let mut ctx = k.processor.prepare_next_thread().unwrap();
    assert_eq!(k.processor.current_thread(), a);
    let mut seen = Vec::new();
    for _ in 0..4 {
        k.handle_interrupt(ctx, Event::SupervisorTimer).unwrap();
        seen.push(k.processor.current_thread());
        ctx = k.kernel_stack.take_staged().unwrap();
    }
    assert_eq!(seen, vec![b, a, b, a]);
    assert_eq!(k.timer.count(), 4);
}

#[test]
fn fault_kills_the_running_thread() {
    let mut k = fifo_kernel();
    let a = k.add_kernel_thread(0, ENTRY, None, 0, EXIT_RA).unwrap();
    let b = k.add_kernel_thread(0, ENTRY, None, 0, EXIT_RA).unwrap();
    let ctx = k.processor.prepare_next_thread().unwrap();
    assert_eq!(k.processor.current_thread(), a);
    k.handle_interrupt(ctx, Event::LoadFault { stval: 0 }).unwrap();
    assert_eq!(k.processor.current_thread(), b);
    // Only b is left; the next timer keeps running b.
    let ctx = k.kernel_stack.take_staged().unwrap();
    k.handle_interrupt(ctx, Event::SupervisorTimer).unwrap();
    assert_eq!(k.processor.current_thread(), b);
}

#[test]
fn ctrl_c_kills_and_last_death_shuts_down() {
    let mut k = fifo_kernel();
    k.add_kernel_thread(0, ENTRY, None, 0, EXIT_RA).unwrap();
    let ctx = k.processor.prepare_next_thread().unwrap();
    let r = k.handle_interrupt(ctx, Event::SupervisorExternal { c: 3 });
    assert_eq!(r.unwrap_err(), ProcessorError::AllThreadsTerminated);
}

#[test]
fn other_input_resumes_the_thread() {
    let mut k = fifo_kernel();
    let a = k.add_kernel_thread(0, ENTRY, None, 0, EXIT_RA).unwrap();
    let ctx = k.processor.prepare_next_thread().unwrap();
    let sepc = ctx.sepc;
    k.handle_interrupt(ctx, Event::SupervisorExternal { c: b'a' as u64 }).unwrap();
    assert_eq!(k.processor.current_thread(), a);
    assert_eq!(k.kernel_stack.take_staged().unwrap().sepc, sepc);
}

#[test]
fn get_tid_and_exit() {
    let mut k = fifo_kernel();
    let a = k.add_kernel_thread(0, ENTRY, None, 0, EXIT_RA).unwrap();
    k.processor.prepare_next_thread().unwrap();
    assert_eq!(k.sys_get_tid(), SyscallResult::Proceed(a));
    assert_eq!(k.sys_exit(0), SyscallResult::Kill);
}

#[test]
fn proceed_writes_the_return_value_and_advances() {
    let mut k = fifo_kernel();
    k.add_kernel_thread(0, ENTRY, None, 0, EXIT_RA).unwrap();
    let ctx = k.processor.prepare_next_thread().unwrap();
    let sepc = ctx.sepc;
    k.apply_syscall_result(ctx, SyscallResult::Proceed(-1)).unwrap();
    let restored = k.kernel_stack.take_staged().unwrap();
    assert_eq!(restored.sepc, sepc + 4);
    assert_eq!(restored.x[10], (-1i64) as u64);
}

#[test]
fn fork_gives_parent_its_id_and_child_zero() {
    let mut k = fifo_kernel();
    let parent = k.add_kernel_thread(0, ENTRY, None, 4, EXIT_RA).unwrap();
    let mut ctx = k.processor.prepare_next_thread().unwrap();
    // Simulate the parent having used some stack when it trapped.
    let parent_stack = k.processor.get_thread(parent).stack;
    ctx.set_sp(parent_stack.end.0 - 64);
    let res = k.sys_fork(&ctx).unwrap();
    assert_eq!(res, SyscallResult::Proceed(parent));
    let child_id = k.thread_counter - 1;
    let child = k.processor.get_thread(child_id);
    assert_eq!(child.inner.priority, 4);
    assert_eq!(child.process, 0);
    let cc = child.inner.context.as_ref().unwrap();
    // The child's syscall return value is already 0, and its stack pointer
    // sits at the same offset in its own stack.
    assert_eq!(cc.x[10], 0);
    assert_eq!(cc.x[2], child.stack.start.0 + (ctx.sp() - parent_stack.start.0));
    assert_eq!(cc.sepc, ctx.sepc);
    for i in 0..32 {
        if i != 2 && i != 10 {
            assert_eq!(cc.x[i], ctx.x[i], "register {} should copy", i);
        }
    }
    // Both threads end up scheduled: the FIFO queue holds parent then
    // child, so the second preemption runs the child with return value 0.
    assert!(k.kernel_stack.take_staged().is_none());
    k.handle_interrupt(ctx, Event::SupervisorTimer).unwrap();
    assert_eq!(k.processor.current_thread(), parent);
    let ctx = k.kernel_stack.take_staged().unwrap();
    k.handle_interrupt(ctx, Event::SupervisorTimer).unwrap();
    assert_eq!(k.processor.current_thread(), child_id);
    assert_eq!(k.kernel_stack.take_staged().unwrap().x[10], 0);
}

#[test]
fn fork_by_keyboard_event() {
    let mut k = fifo_kernel();
    let parent = k.add_kernel_thread(0, ENTRY, None, 1, EXIT_RA).unwrap();
    let mut ctx = k.processor.prepare_next_thread().unwrap();
    let stack = k.processor.get_thread(parent).stack;
    ctx.set_sp(stack.end.0);
    k.handle_interrupt(ctx, Event::SupervisorExternal { c: b'f' as u64 }).unwrap();
    // Parent keeps running; the child waits in the pool.
    assert_eq!(k.processor.current_thread(), parent);
    assert_eq!(k.thread_counter, 4);
}

#[test]
fn open_then_read_a_loaded_file() {
    let mut k = fifo_kernel();
    k.add_kernel_thread(0, ENTRY, None, 0, EXIT_RA).unwrap();
    k.processor.prepare_next_thread().unwrap();
    let fid = k.load_file(b"hello".to_vec());
    let fd = match k.sys_open(fid) {
        SyscallResult::Proceed(fd) => fd as usize,
        other => panic!("open failed: {:?}", other),
    };
    assert_eq!(fd, 2);
    let (res, data) = k.sys_read(fd, 3);
    assert_eq!(res, SyscallResult::Proceed(3));
    assert_eq!(data, b"hel".to_vec());
    let (res, data) = k.sys_read(fd, 64);
    assert_eq!(res, SyscallResult::Proceed(5));
    assert_eq!(data, b"hello".to_vec());
}

#[test]
fn write_succeeds_only_on_the_console() {
    let mut k = fifo_kernel();
    k.add_kernel_thread(0, ENTRY, None, 0, EXIT_RA).unwrap();
    k.processor.prepare_next_thread().unwrap();
    let data = b"abc".to_vec();
    assert_eq!(k.sys_write(1, &data), SyscallResult::Proceed(3));
    assert_eq!(k.sys_write(0, &data), SyscallResult::Proceed(-1));
    assert_eq!(k.sys_write(9, &data), SyscallResult::Proceed(-1));
}

#[test]
fn read_from_a_bad_descriptor_fails() {
    let mut k = fifo_kernel();
    k.add_kernel_thread(0, ENTRY, None, 0, EXIT_RA).unwrap();
    k.processor.prepare_next_thread().unwrap();
    let (res, data) = k.sys_read(9, 4);
    assert_eq!(res, SyscallResult::Proceed(-1));
    assert!(data.is_empty());
}

/// The end-to-end scenario: one kernel process, eight kernel threads with
/// priorities 1..=8 under Stride scheduling, each running an equal bounded
/// work loop and then exiting. They finish in strictly decreasing-priority
/// order: the priority-8 thread first.
#[test]
fn stride_scenario_exits_by_priority() {
    let mut k = stride_kernel();
    let mut budget: HashMap<i64, u32> = HashMap::new();
    let mut priority_of: HashMap<i64, usize> = HashMap::new();
    for p in 1..=8usize {
        let tid = k.add_kernel_thread(0, ENTRY, None, p, EXIT_RA).unwrap();
        budget.insert(tid as i64, 20);
        priority_of.insert(tid as i64, p);
    }
    let mut ctx = k.processor.prepare_next_thread().unwrap();
    let mut exit_order = Vec::new();
    loop {
        let current = k.processor.current_thread() as i64;
        // One quantum of the thread's bounded loop.
        let remaining = budget.get_mut(&current).unwrap();
        *remaining -= 1;
        if *remaining == 0 {
            // The thread's own exit path: flag dead, then trap.
            k.mark_current_thread_dead();
            exit_order.push(priority_of[&current]);
        }
        match k.handle_interrupt(ctx, Event::SupervisorTimer) {
            Ok(()) => ctx = k.kernel_stack.take_staged().unwrap(),
            Err(e) => {
                assert_eq!(e, ProcessorError::AllThreadsTerminated);
                break;
            },
        }
    }
    assert_eq!(exit_order, vec![8, 7, 6, 5, 4, 3, 2, 1]);
}

#[test]
fn sleeping_reader_is_woken_in_arrival_order() {
    let mut k = fifo_kernel();
    let a = k.add_kernel_thread(0, ENTRY, None, 0, EXIT_RA).unwrap();
    let b = k.add_kernel_thread(0, ENTRY, None, 0, EXIT_RA).unwrap();
    let ctx = k.processor.prepare_next_thread().unwrap();
    assert_eq!(k.processor.current_thread(), a);
    let (res, _) = k.sys_read(0, 1);
    assert_eq!(res, SyscallResult::Park(0));
    k.apply_syscall_result(ctx, res).unwrap();
    assert_eq!(k.processor.current_thread(), b);
    let ctx = k.kernel_stack.take_staged().unwrap();
    let (res, _) = k.sys_read(0, 1);
    assert_eq!(res, SyscallResult::Park(0));
    k.apply_syscall_result(ctx, res).unwrap();
    // Both sleep; idle runs. Two bytes wake them in arrival order.
    assert_eq!(k.processor.current_thread(), 1);
    k.stdin.push(b'p', &mut k.processor);
    k.stdin.push(b'q', &mut k.processor);
    let idle_ctx = k.kernel_stack.take_staged().unwrap();
    k.handle_interrupt(idle_ctx, Event::SupervisorTimer).unwrap();
    assert_eq!(k.processor.current_thread(), a);
    let (res, data) = k.sys_read(0, 1);
    assert_eq!(res, SyscallResult::Proceed(1));
    assert_eq!(data, vec![b'p']);
}
