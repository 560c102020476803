//! Pacing frames against a clock: deadlines, and the bookkeeping of one
//! cancellable wait.
//!
//! Blocking on a clock is the caller's business.  The pacer decides whether
//! to block at all, remembers the wait that is under way so that another
//! thread can interrupt it, and says what a finished wait amounts to.

use vstd::prelude::*;
use crate::timeline::{lemma_span_monotonic, running_time, span_of, ClockTime, Rational};

verus! {

/// How a wait ended.
#[derive(Clone, Copy, Debug, PartialEq, Eq, Structural)]
pub enum WaitOutcome {
    /// The deadline arrived, or there was nothing to wait for.
    Completed,
    /// The wait was interrupted, or refused because the pacer is flushing.
    Canceled,
}

/// What the clock said when a blocking wait returned.
#[derive(Clone, Copy, Debug, PartialEq, Eq, Structural)]
pub enum ClockSignal {
    /// The clock reached the deadline.
    Reached,
    /// The wait was taken off the clock before its deadline.
    Unscheduled,
}

/// What the caller of [`ClockPacer::wait_until`] has to do next.
#[derive(Clone, Copy, Debug, PartialEq, Eq, Structural)]
pub enum WaitStep {
    /// Nothing to block on: the wait is over with this outcome.
    Done(WaitOutcome),
    /// Block until the clock reaches this time, then report through
    /// [`ClockPacer::wait_ended`].
    Block(ClockTime),
}

/// The state of the one wait a producer can have outstanding.
#[derive(Clone, Copy, Debug)]
pub struct ClockPacer {
    pending: Option<ClockTime>,
    flushing: bool,
}

/// The clock time by which `frame_index` frames have gone by since
/// `base_time`; `None` when the rate is not positive or the time does not
/// fit in 64 bits.
pub fn deadline_for(frame_index: u64, frame_rate: Rational, base_time: ClockTime) -> (r: Option<
    ClockTime,
>)
    ensures
        r is Some <==> frame_rate.is_positive() && base_time + span_of(
            frame_index as int,
            frame_rate,
        ) <= u64::MAX,
        r is Some ==> r.unwrap() == base_time + span_of(frame_index as int, frame_rate),
{
    proof {
        if frame_rate.is_positive() {
            lemma_span_monotonic(0, frame_index as int, frame_rate);
        }
    }
    match running_time(frame_index, frame_rate) {
        Some(span) => base_time.checked_add(span),
        None => None,
    }
}

impl ClockPacer {
    /// The deadline of the wait that is under way, if one is.
    pub closed spec fn pending(self) -> Option<ClockTime> {
        self.pending
    }

    /// Whether waits are being refused.
    pub closed spec fn flushing(self) -> bool {
        self.flushing
    }

    /// While the pacer is flushing no wait is under way.
    #[verifier::type_invariant]
    pub closed spec fn wf(self) -> bool {
        self.flushing ==> self.pending is None
    }

    /// The pacer after a call of `wait_until`, and what the call answers.
    pub closed spec fn spec_wait_until(self, deadline: Option<ClockTime>) -> (ClockPacer, WaitStep) {
        match deadline {
            None => (self, WaitStep::Done(WaitOutcome::Completed)),
            Some(at) => if self.flushing {
                (self, WaitStep::Done(WaitOutcome::Canceled))
            } else {
                (ClockPacer { pending: Some(at), flushing: false }, WaitStep::Block(at))
            },
        }
    }

    /// The pacer after a call of `wait_ended`, and what the call answers.
    pub closed spec fn spec_wait_ended(self, signal: ClockSignal) -> (ClockPacer, WaitOutcome) {
        (
            ClockPacer { pending: None, flushing: self.flushing },
            match signal {
                ClockSignal::Reached => WaitOutcome::Completed,
                ClockSignal::Unscheduled => WaitOutcome::Canceled,
            },
        )
    }

    /// The pacer after a call of `cancel`, and the wait that the call
    /// interrupts.
    pub closed spec fn spec_cancel(self) -> (ClockPacer, Option<ClockTime>) {
        (ClockPacer { pending: None, flushing: true }, self.pending)
    }

    /// The pacer after a call of `resume`.
    pub closed spec fn spec_resume(self) -> ClockPacer {
        ClockPacer { pending: self.pending, flushing: false }
    }

    /// A pacer that refuses to wait until it is resumed.
    pub fn new() -> (p: ClockPacer)
        ensures
            p.flushing(),
            p.pending() is None,
    {
        ClockPacer { pending: None, flushing: true }
    }

    pub fn is_flushing(&self) -> (r: bool)
        ensures
            r == self.flushing(),
    {
        self.flushing
    }

    pub fn pending_deadline(&self) -> (r: Option<ClockTime>)
        ensures
            r == self.pending(),
    {
        self.pending
    }

    /// Decides how to wait for `deadline`.
    ///
    /// Without a deadline (no clock yet) the wait is over at once and counts
    /// as completed.  While flushing, no wait is started.  Otherwise the
    /// wait is recorded as under way and the caller has to block.
    pub fn wait_until(&mut self, deadline: Option<ClockTime>) -> (step: WaitStep)
        ensures
            (*final(self), step) == old(self).spec_wait_until(deadline),
            deadline is None ==> step == WaitStep::Done(WaitOutcome::Completed),
            deadline is Some && old(self).flushing() ==> step == WaitStep::Done(
                WaitOutcome::Canceled,
            ),
            deadline is Some && !old(self).flushing() ==> step == WaitStep::Block(
                deadline.unwrap(),
            ),
            final(self).flushing() == old(self).flushing(),
            final(self).pending() == (if step is Block {
                deadline
            } else {
                old(self).pending()
            }),
    {
        proof {
            use_type_invariant(&*self);
        }
        match deadline {
            None => WaitStep::Done(WaitOutcome::Completed),
            Some(at) => {
                if self.flushing {
                    WaitStep::Done(WaitOutcome::Canceled)
                } else {
                    self.pending = Some(at);
                    WaitStep::Block(at)
                }
            },
        }
    }

    /// Takes note that the blocking wait has returned.
    ///
    /// The wait counts as canceled exactly when the clock reports that it
    /// was unscheduled.
    pub fn wait_ended(&mut self, signal: ClockSignal) -> (outcome: WaitOutcome)
        ensures
            (*final(self), outcome) == old(self).spec_wait_ended(signal),
            outcome == (match signal {
                ClockSignal::Reached => WaitOutcome::Completed,
                ClockSignal::Unscheduled => WaitOutcome::Canceled,
            }),
            final(self).pending() is None,
            final(self).flushing() == old(self).flushing(),
    {
        self.pending = None;
        match signal {
            ClockSignal::Reached => WaitOutcome::Completed,
            ClockSignal::Unscheduled => WaitOutcome::Canceled,
        }
    }

    /// Starts flushing and hands out the wait that was under way, for the
    /// caller to take off the clock.
    pub fn cancel(&mut self) -> (interrupted: Option<ClockTime>)
        ensures
            (*final(self), interrupted) == old(self).spec_cancel(),
            interrupted == old(self).pending(),
            final(self).flushing(),
            final(self).pending() is None,
    {
        let interrupted = self.pending;
        self.pending = None;
        self.flushing = true;
        interrupted
    }

    /// Stops flushing, so that later waits block again.
    pub fn resume(&mut self)
        ensures
            *final(self) == old(self).spec_resume(),
            !final(self).flushing(),
            final(self).pending() == old(self).pending(),
    {
        self.flushing = false;
    }
}

impl Default for ClockPacer {
    /// The pacer of a producer that has not been started: it refuses to
    /// wait.
    fn default() -> (p: ClockPacer)
        ensures
            p.flushing(),
            p.pending() is None,
    {
        ClockPacer::new()
    }
}

/// Canceling twice leaves the pacer as canceling once does, and the second
/// call finds nothing to interrupt.
pub proof fn lemma_cancel_idempotent(pacer: ClockPacer)
    ensures
        pacer.spec_cancel().0.spec_cancel().0 == pacer.spec_cancel().0,
        pacer.spec_cancel().0.spec_cancel().1 is None,
{
}

/// A cancel that arrives while a wait is blocked hands out that very wait;
/// once the clock reports it unscheduled the wait counts as canceled, and
/// until the pacer is resumed every further wait is refused without
/// blocking.
pub proof fn lemma_cancel_interrupts_wait(pacer: ClockPacer, deadline: ClockTime, next: ClockTime)
    requires
        !pacer.flushing(),
    ensures
        ({
            let (blocked, step) = pacer.spec_wait_until(Some(deadline));
            let (canceled, interrupted) = blocked.spec_cancel();
            let (ended, outcome) = canceled.spec_wait_ended(ClockSignal::Unscheduled);
            &&& step == WaitStep::Block(deadline)
            &&& interrupted == Some(deadline)
            &&& outcome == WaitOutcome::Canceled
            &&& ended.spec_wait_until(Some(next)).1 == WaitStep::Done(WaitOutcome::Canceled)
            &&& ended.spec_resume().spec_wait_until(Some(next)).1 == WaitStep::Block(next)
        }),
{
}

} // verus!
