use gstqrtimestamp::pacer::{ClockPacer, ClockSignal, WaitOutcome, WaitStep};

#[test]
fn new_pacer_refuses_to_wait() {
    let mut pacer = ClockPacer::new();
    assert!(pacer.is_flushing());
    assert_eq!(pacer.pending_deadline(), None);
    assert_eq!(pacer.wait_until(Some(10)), WaitStep::Done(WaitOutcome::Canceled));
    assert_eq!(pacer.pending_deadline(), None);
}

#[test]
fn wait_without_clock_completes_at_once() {
    let mut pacer = ClockPacer::new();
    assert_eq!(pacer.wait_until(None), WaitStep::Done(WaitOutcome::Completed));
    pacer.resume();
    assert_eq!(pacer.wait_until(None), WaitStep::Done(WaitOutcome::Completed));
    assert_eq!(pacer.pending_deadline(), None);
}

#[test]
fn wait_blocks_until_deadline_and_completes() {
    let mut pacer = ClockPacer::new();
    pacer.resume();
    assert!(!pacer.is_flushing());
    assert_eq!(pacer.wait_until(Some(1_234)), WaitStep::Block(1_234));
    assert_eq!(pacer.pending_deadline(), Some(1_234));
    assert_eq!(pacer.wait_ended(ClockSignal::Reached), WaitOutcome::Completed);
    assert_eq!(pacer.pending_deadline(), None);
    assert!(!pacer.is_flushing());
}

#[test]
fn cancel_interrupts_a_blocked_wait() {
    let mut pacer = ClockPacer::new();
    pacer.resume();
    assert_eq!(pacer.wait_until(Some(9_000)), WaitStep::Block(9_000));
    assert_eq!(pacer.cancel(), Some(9_000));
    assert!(pacer.is_flushing());
    assert_eq!(pacer.pending_deadline(), None);
    assert_eq!(pacer.wait_ended(ClockSignal::Unscheduled), WaitOutcome::Canceled);
    assert_eq!(pacer.wait_until(Some(9_500)), WaitStep::Done(WaitOutcome::Canceled));
    pacer.resume();
    assert_eq!(pacer.wait_until(Some(9_500)), WaitStep::Block(9_500));
}

#[test]
fn cancel_is_idempotent() {
    let mut pacer = ClockPacer::new();
    pacer.resume();
    assert_eq!(pacer.wait_until(Some(77)), WaitStep::Block(77));
    assert_eq!(pacer.cancel(), Some(77));
    assert_eq!(pacer.cancel(), None);
    assert_eq!(pacer.cancel(), None);
    assert!(pacer.is_flushing());
    assert_eq!(pacer.pending_deadline(), None);
}

#[test]
fn cancel_without_wait_only_sets_flushing() {
    let mut pacer = ClockPacer::new();
    pacer.resume();
    assert_eq!(pacer.cancel(), None);
    assert!(pacer.is_flushing());
}
