//! Scheduler behaviour: FIFO admission-order fairness and Stride
//! proportional-share selection.

use kernel_rt::scheduler::SchedulerImpl;
use kernel_rt::scheduler::fifo_scheduler::FifoScheduler;
use kernel_rt::scheduler::stride_scheduler::StrideScheduler;

#[test]
fn fifo_polls_in_admission_order_before_repeating() {
    let mut s = FifoScheduler::default();
    for t in [11, 22, 33, 44] {
        s.add_thread(t, 0);
    }
    // Polled N times without removal, each admitted thread comes back
    // exactly once, in admission order, before any repeats.
    for round in 0..3 {
        for t in [11, 22, 33, 44] {
            assert_eq!(s.get_next(), Some(t), "round {}", round);
        }
    }
}

#[test]
fn fifo_ignores_priority() {
    let mut s = FifoScheduler::default();
    s.add_thread(7, 100);
    s.add_thread(8, 1);
    s.set_priority(7, 0);
    assert_eq!(s.get_next(), Some(7));
    assert_eq!(s.get_next(), Some(8));
}

#[test]
fn fifo_empty_pool_yields_none() {
    let mut s = FifoScheduler::default();
    assert_eq!(s.get_next(), None);
}

#[test]
fn fifo_remove_evicts_exactly_that_thread() {
    let mut s = FifoScheduler::default();
    for t in [1, 2, 3] {
        s.add_thread(t, 0);
    }
    s.remove_thread(&2);
    assert_eq!(s.get_next(), Some(1));
    assert_eq!(s.get_next(), Some(3));
    assert_eq!(s.get_next(), Some(1));
}

#[test]
fn stride_empty_pool_yields_none() {
    let mut s = StrideScheduler::default();
    assert_eq!(s.get_next(), None);
}

#[test]
fn stride_tie_breaks_toward_the_latest_entry() {
    let mut s = StrideScheduler::default();
    s.add_thread(1, 4);
    s.add_thread(2, 4);
    // Both start at pass 0; the minimum-pass scan keeps the later entry.
    assert_eq!(s.get_next(), Some(2));
}

#[test]
fn stride_selects_higher_tickets_more_often() {
    let mut s = StrideScheduler::default();
    s.add_thread(1, 1);
    s.add_thread(2, 8);
    let mut low = 0;
    let mut high = 0;
    for _ in 0..90 {
        match s.get_next() {
            Some(1) => low += 1,
            Some(2) => high += 1,
            other => panic!("unexpected selection {:?}", other),
        }
    }
    // ticket 8 advances by 137/9 = 15 per run, ticket 1 by 137/2 = 68:
    // roughly a 68:15 share.
    assert!(high > low, "high-ticket thread selected {} <= {}", high, low);
    assert!(high >= 4 * low, "share too uneven: {} vs {}", high, low);
}

#[test]
fn stride_ticket_zero_advances_by_the_full_stride() {
    let mut s = StrideScheduler::default();
    s.add_thread(1, 0);
    s.add_thread(2, 136);
    // Thread 1 pays 137 per selection, thread 2 pays 1, so once thread 1
    // has run its pass leaps ahead and thread 2 wins a long streak.
    assert_eq!(s.get_next(), Some(2));
    assert_eq!(s.get_next(), Some(1));
    let mut twos = 0;
    loop {
        match s.get_next() {
            Some(2) => twos += 1,
            Some(1) => break,
            other => panic!("unexpected selection {:?}", other),
        }
    }
    assert!(twos >= 100, "only {} consecutive low-cost selections", twos);
}

#[test]
fn stride_newcomer_starts_at_the_global_minimum() {
    // The documented trade-off: a newcomer's pass is the scheduler-wide
    // current minimum, so it does not instantly monopolize the processor.
    let mut s = StrideScheduler::default();
    s.add_thread(1, 1);
    for _ in 0..10 {
        assert_eq!(s.get_next(), Some(1));
    }
    s.add_thread(2, 1);
    // The newcomer ties with the incumbent's accumulated pass instead of
    // starting at zero; on the tie the newcomer (later in pool order) wins
    // once, then they alternate.
    assert_eq!(s.get_next(), Some(2));
    assert_eq!(s.get_next(), Some(1));
    assert_eq!(s.get_next(), Some(2));
}

#[test]
fn stride_set_priority_changes_the_share() {
    let mut s = StrideScheduler::default();
    s.add_thread(1, 1);
    s.add_thread(2, 1);
    s.set_priority(2, 30);
    let mut low = 0;
    let mut high = 0;
    for _ in 0..80 {
        match s.get_next() {
            Some(1) => low += 1,
            Some(2) => high += 1,
            other => panic!("unexpected selection {:?}", other),
        }
    }
    assert!(high > 2 * low, "reprioritized share too small: {} vs {}", high, low);
}

#[test]
fn stride_remove_evicts_exactly_that_thread() {
    let mut s = StrideScheduler::default();
    s.add_thread(1, 3);
    s.add_thread(2, 3);
    s.remove_thread(&2);
    for _ in 0..5 {
        assert_eq!(s.get_next(), Some(1));
    }
}

#[test]
fn policy_wrapper_dispatches_to_both_schedulers() {
    let mut fifo = SchedulerImpl::Fifo(FifoScheduler::default());
    fifo.add_thread(5, 9);
    fifo.add_thread(6, 1);
    assert_eq!(fifo.get_next(), Some(5));

    let mut stride = SchedulerImpl::Stride(StrideScheduler::default());
    stride.add_thread(5, 9);
    stride.add_thread(6, 1);
    assert_eq!(stride.get_next(), Some(6));
    stride.remove_thread(&6);
    assert_eq!(stride.get_next(), Some(5));
}
