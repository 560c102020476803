//! The probe source: frames stamped with the time they were made, laid out
//! on a gapless timeline and paced against the pipeline clock.
//!
//! Producing a frame takes several calls, because reading clocks and
//! blocking on them is the caller's part:
//!
//! 1. [`ProbeSource::prepare_frame`] with the wall-clock readings of the
//!    moment builds and stamps the frame;
//! 2. [`ProbeSource::record_encode_cost`] with a reading taken right after
//!    notes what the stamping cost;
//! 3. [`ProbeSource::pace`] says whether to block and until when;
//! 4. after blocking, [`ProbeSource::wait_ended`] takes the clock's word;
//! 5. [`ProbeSource::conclude`] turns the outcome into the notification for
//!    observers, or into `Flushing`.

use vstd::prelude::*;
use crate::codec::{check_side_fits, encode, encoded_pixels, side_fits, PixelBuffer};
use crate::format::{FormatDescriptor, NegotiatedFormat, NegotiationError};
use crate::pacer::{deadline_for, ClockPacer, ClockSignal, WaitOutcome, WaitStep};
use crate::timeline::{
    frame_duration, lemma_one_frame_fits, lemma_span_exact, lemma_span_monotonic, lemma_span_step,
    running_time, span_of, ClockTime, Rational, NANOS_PER_SECOND,
};
use crate::MINIMUM_SIZE;

verus! {

/// Frame rate of a source that has not negotiated yet.
pub const DEFAULT_FPS: i32 = 30;

/// Frame side of a source that has not negotiated yet.
pub const DEFAULT_SIZE: u32 = MINIMUM_SIZE;

/// What a source is set to.
#[derive(Clone, Copy, Debug)]
pub struct Settings {
    pub fps: Rational,
    pub width: u32,
    pub height: u32,
    /// What stamping the last frame cost, in microseconds.
    pub encode_overhead_us: u128,
    /// Wall-clock time at which the last frame was begun, in microseconds;
    /// zero before the first frame.
    pub previous_iteration_us: u128,
    /// After how many frames of a segment the stream ends; `None` for
    /// never.
    pub frame_limit: Option<u64>,
}

/// Where on its timeline a source stands.
#[derive(Clone, Copy, Debug, PartialEq, Eq, Structural)]
pub struct StreamPosition {
    /// Running time that went by before the current negotiation.
    pub accumulated: ClockTime,
    /// Frames counted since the current negotiation.
    pub frames: u64,
}

/// A produced frame.
#[derive(Debug)]
pub struct Frame {
    pub pixels: PixelBuffer,
    /// Presentation time, as running time of the stream.
    pub pts: ClockTime,
    pub duration: ClockTime,
}

/// Why no frame was produced.
#[derive(Clone, Copy, Debug, PartialEq, Eq, Structural)]
pub enum ProduceError {
    /// No format has been negotiated.
    NotConfigured,
    /// The frame budget is used up: the stream has ended.
    Exhausted,
    /// Production was interrupted on purpose.
    Flushing,
}

/// The phases of a source's life.
#[derive(Clone, Copy, Debug, PartialEq, Eq, Structural)]
pub enum SourcePhase {
    Stopped,
    Unconfigured,
    Configured,
}

impl Settings {
    /// The settings of a fresh source.
    pub open spec fn initial() -> Settings {
        Settings {
            fps: Rational { numer: DEFAULT_FPS, denom: 1 },
            width: DEFAULT_SIZE,
            height: DEFAULT_SIZE,
            encode_overhead_us: 0,
            previous_iteration_us: 0,
            frame_limit: None,
        }
    }

    /// These settings with the geometry and rate of `format`.
    pub open spec fn with_format(self, format: NegotiatedFormat) -> Settings {
        Settings { fps: format.frame_rate, width: format.width, height: format.height, ..self }
    }
}

impl Default for Settings {
    fn default() -> (r: Settings)
        ensures
            r == Settings::initial(),
    {
        Settings {
            fps: Rational { numer: DEFAULT_FPS, denom: 1 },
            width: DEFAULT_SIZE,
            height: DEFAULT_SIZE,
            encode_overhead_us: 0,
            previous_iteration_us: 0,
            frame_limit: None,
        }
    }
}

/// By how many microseconds a frame's stamp runs ahead of the wall clock:
/// what stamping the last frame cost, plus the time since the last frame
/// was begun.  The first frame (`previous` zero) has no last frame to
/// measure from.  A wall clock that was set back gives no lead rather than
/// a negative one.
pub open spec fn lead_micros(overhead: u128, started: u128, previous: u128) -> int {
    let since = if previous == 0 {
        started
    } else {
        previous
    };
    let lead = overhead + started - since;
    if lead < 0 {
        0
    } else if lead > u128::MAX {
        u128::MAX as int
    } else {
        lead
    }
}

/// The timestamp stamped into a frame begun at `started_us` when the wall
/// clock reads `wall_ms`: the wall clock plus the lead, capped at the
/// largest timestamp.
pub open spec fn stamp_of(settings: Settings, started_us: u128, wall_ms: u128) -> u128 {
    let stamp = wall_ms + lead_micros(
        settings.encode_overhead_us,
        started_us,
        settings.previous_iteration_us,
    ) / 1000;
    if stamp > u128::MAX {
        u128::MAX
    } else {
        stamp as u128
    }
}

/// Computes the timestamp to stamp into a frame.
pub fn compensated_stamp(settings: &Settings, started_us: u128, wall_ms: u128) -> (stamp: u128)
    ensures
        stamp == stamp_of(*settings, started_us, wall_ms),
{
    let since: u128 = if settings.previous_iteration_us == 0 {
        started_us
    } else {
        settings.previous_iteration_us
    };
    let lead: u128 = if started_us >= since {
        settings.encode_overhead_us.saturating_add(started_us - since)
    } else {
        settings.encode_overhead_us.saturating_sub(since - started_us)
    };
    wall_ms.saturating_add(lead / 1000)
}

/// A probe source.
#[derive(Debug)]
pub struct ProbeSource {
    settings: Settings,
    format: Option<NegotiatedFormat>,
    position: StreamPosition,
    pacer: ClockPacer,
    running: bool,
}

impl ProbeSource {
    pub closed spec fn settings(self) -> Settings {
        self.settings
    }

    /// The negotiated format, if negotiation has succeeded since the last
    /// start.
    pub closed spec fn format(self) -> Option<NegotiatedFormat> {
        self.format
    }

    pub closed spec fn position(self) -> StreamPosition {
        self.position
    }

    pub closed spec fn pacer(self) -> ClockPacer {
        self.pacer
    }

    /// Whether the source has been started and not stopped since.
    pub closed spec fn running(self) -> bool {
        self.running
    }

    /// What holds of every source: its frames are square and of the size
    /// and rate last negotiated, an unconfigured source stands at the start
    /// of its timeline, and the point that a configured source has reached
    /// on its timeline can be told in 64 bits of nanoseconds.
    #[verifier::type_invariant]
    pub open spec fn wf(self) -> bool {
        &&& self.settings().width == self.settings().height
        &&& self.pacer().wf()
        &&& match self.format() {
            None => self.position() == (StreamPosition { accumulated: 0, frames: 0 }),
            Some(format) => {
                &&& format.fits_probe()
                &&& self.settings() == self.settings().with_format(format)
                &&& self.position().accumulated + span_of(
                    self.position().frames as int,
                    format.frame_rate,
                ) <= u64::MAX
            },
        }
    }

    /// The running time at which the next frame starts: the time that went
    /// by before the current negotiation, and the frames counted since.
    pub open spec fn next_pts(self) -> int {
        match self.format() {
            None => self.position().accumulated as int,
            Some(format) => self.position().accumulated + span_of(
                self.position().frames as int,
                format.frame_rate,
            ),
        }
    }

    /// Whether this machine can hold one more frame: its pixels can be
    /// allocated, and the end of the frame can be told in 64 bits of
    /// nanoseconds.  An unconfigured source makes no frame and needs no
    /// room.
    pub open spec fn has_room(self) -> bool {
        match self.format() {
            None => true,
            Some(format) => {
                &&& side_fits(format.width)
                &&& self.position().frames < u64::MAX
                &&& self.position().accumulated + span_of(
                    self.position().frames + 1,
                    format.frame_rate,
                ) <= u64::MAX
            },
        }
    }

    /// Whether the frame budget of the current segment is used up by the
    /// frame about to be counted.
    pub open spec fn budget_spent(self) -> bool {
        match self.settings().frame_limit {
            None => false,
            Some(limit) => self.position().frames + 1 > limit,
        }
    }

    /// The clock time at which the frame counted last ends, for a pipeline
    /// that started at `base_time`; `None` without a base time, without a
    /// format, or where the time cannot be told in 64 bits.
    pub open spec fn frame_deadline(self, base_time: Option<ClockTime>) -> Option<ClockTime> {
        if base_time is Some && self.format() is Some && base_time.unwrap() + self.next_pts()
            <= u64::MAX {
            Some((base_time.unwrap() + self.next_pts()) as u64)
        } else {
            None
        }
    }

    /// A stopped source with initial settings.  It refuses to wait until it
    /// is started.
    pub fn new() -> (source: ProbeSource)
        ensures
            source.wf(),
            source.settings() == Settings::initial(),
            source.format() is None,
            source.position() == (StreamPosition { accumulated: 0, frames: 0 }),
            source.pacer().flushing(),
            source.pacer().pending() is None,
            !source.running(),
    {
        let pacer = ClockPacer::new();
        proof {
            use_type_invariant(&pacer);
        }
        ProbeSource {
            settings: Settings::default(),
            format: None,
            position: StreamPosition { accumulated: 0, frames: 0 },
            pacer,
            running: false,
        }
    }

    /// Starts the source: it forgets format and position, and waits are
    /// allowed again.
    pub fn start(&mut self)
        ensures
            final(self).settings() == old(self).settings(),
            final(self).format() is None,
            final(self).position() == (StreamPosition { accumulated: 0, frames: 0 }),
            final(self).pacer() == old(self).pacer().spec_resume(),
            !final(self).pacer().flushing(),
            final(self).pacer().pending() == old(self).pacer().pending(),
            final(self).running(),
    {
        proof {
            use_type_invariant(&*self);
        }
        let mut pacer = self.pacer;
        pacer.resume();
        proof {
            use_type_invariant(&pacer);
        }
        *self = ProbeSource {
            settings: self.settings,
            format: None,
            position: StreamPosition { accumulated: 0, frames: 0 },
            pacer,
            running: true,
        };
    }

    /// Stops the source: it forgets format and position and refuses to
    /// wait.  The wait that was under way, if any, is handed out for the
    /// caller to take off the clock.
    pub fn stop(&mut self) -> (interrupted: Option<ClockTime>)
        ensures
            interrupted == old(self).pacer().pending(),
            final(self).settings() == old(self).settings(),
            final(self).format() is None,
            final(self).position() == (StreamPosition { accumulated: 0, frames: 0 }),
            final(self).pacer() == old(self).pacer().spec_cancel().0,
            final(self).pacer().flushing(),
            final(self).pacer().pending() is None,
            !final(self).running(),
    {
        proof {
            use_type_invariant(&*self);
        }
        let mut pacer = self.pacer;
        let interrupted = pacer.cancel();
        proof {
            use_type_invariant(&pacer);
        }
        *self = ProbeSource {
            settings: self.settings,
            format: None,
            position: StreamPosition { accumulated: 0, frames: 0 },
            pacer,
            running: false,
        };
        interrupted
    }

    /// Takes up a proposed format.
    ///
    /// The descriptor must be readable (`InvalidFormat`), square
    /// (`AsymmetricFrame`) and within the supported ranges (`OutOfRange`);
    /// a refused descriptor changes nothing.  An accepted one becomes the
    /// format of a new segment: the frame count starts over, and the
    /// timeline goes on from where the last segment has got to.
    pub fn negotiate(&mut self, descriptor: &FormatDescriptor) -> (r: Result<(), NegotiationError>)
        ensures
            match descriptor.spec_parse_probe() {
                Err(e) => r == Err::<(), NegotiationError>(e) && *final(self) == *old(self),
                Ok(format) => {
                    &&& r is Ok
                    &&& final(self).format() == Some(format)
                    &&& final(self).settings() == old(self).settings().with_format(format)
                    &&& final(self).position() == (StreamPosition {
                        accumulated: old(self).next_pts() as u64,
                        frames: 0,
                    })
                    &&& final(self).next_pts() == old(self).next_pts()
                    &&& final(self).pacer() == old(self).pacer()
                    &&& final(self).running() == old(self).running()
                },
            },
    {
        proof {
            use_type_invariant(&*self);
        }
        let format = match descriptor.parse_probe() {
            Err(e) => {
                return Err(e);
            },
            Ok(format) => format,
        };
        let reached: ClockTime = match self.format {
            None => self.position.accumulated,
            Some(last) => {
                let span = running_time(self.position.frames, last.frame_rate);
                proof {
                    lemma_span_monotonic(0, self.position.frames as int, last.frame_rate);
                }
                self.position.accumulated + span.unwrap()
            },
        };
        let settings = Settings {
            fps: format.frame_rate,
            width: format.width,
            height: format.height,
            encode_overhead_us: self.settings.encode_overhead_us,
            previous_iteration_us: self.settings.previous_iteration_us,
            frame_limit: self.settings.frame_limit,
        };
        proof {
            assert(span_of(0, format.frame_rate) == 0) by {
                lemma_span_monotonic(0, 0, format.frame_rate);
                vstd::arithmetic::div_mod::lemma_div_basics(format.frame_rate.numer as int);
            }
        }
        *self = ProbeSource {
            settings,
            format: Some(format),
            position: StreamPosition { accumulated: reached, frames: 0 },
            pacer: self.pacer,
            running: self.running,
        };
        Ok(())
    }

    /// Whether one more frame can be made on this machine.
    pub fn check_has_room(&self) -> (r: bool)
        ensures
            r == self.has_room(),
    {
        proof {
            use_type_invariant(self);
        }
        match self.format {
            None => true,
            Some(format) => {
                if !check_side_fits(format.width) || self.position.frames == u64::MAX {
                    return false;
                }
                proof {
                    lemma_span_monotonic(
                        0,
                        self.position.frames + 1,
                        format.frame_rate,
                    );
                }
                match deadline_for(
                    self.position.frames + 1,
                    format.frame_rate,
                    self.position.accumulated,
                ) {
                    Some(_) => true,
                    None => false,
                }
            },
        }
    }

    /// Builds the next frame.
    ///
    /// `started_us` is the wall-clock time, in microseconds, at which the
    /// caller began this frame; `wall_ms` is the wall-clock time in
    /// milliseconds that goes into the stamp.
    ///
    /// Without a format the call fails with `NotConfigured` and changes
    /// nothing.  Otherwise the frame is counted; where that uses up the
    /// frame budget the call answers `Exhausted`, and else the frame: it
    /// starts where the timeline has got to, lasts one frame duration
    /// rounded down, and shows the stamp as a square image of the
    /// negotiated side.
    pub fn prepare_frame(&mut self, started_us: u128, wall_ms: u128) -> (r: Result<
        Frame,
        ProduceError,
    >)
        requires
            old(self).has_room(),
        ensures
            final(self).settings() == old(self).settings(),
            final(self).format() == old(self).format(),
            final(self).pacer() == old(self).pacer(),
            final(self).running() == old(self).running(),
            match old(self).format() {
                None => {
                    &&& (r matches Err(ProduceError::NotConfigured))
                    &&& final(self).position() == old(self).position()
                },
                Some(format) => {
                    &&& final(self).position() == (StreamPosition {
                        accumulated: old(self).position().accumulated,
                        frames: (old(self).position().frames + 1) as u64,
                    })
                    &&& old(self).budget_spent() ==> (r matches Err(ProduceError::Exhausted))
                    &&& !old(self).budget_spent() ==> {
                        &&& r matches Ok(frame)
                        &&& frame.pts == old(self).next_pts()
                        &&& frame.duration == span_of(1, format.frame_rate)
                        &&& frame.pts + frame.duration <= final(self).next_pts()
                        &&& frame.pixels.wf()
                        &&& frame.pixels.width() == format.width
                        &&& frame.pixels.height() == format.height
                        &&& frame.pixels.pixels() == encoded_pixels(
                            stamp_of(old(self).settings(), started_us, wall_ms),
                            format.width,
                        )
                    }
                },
            },
    {
        proof {
            use_type_invariant(&*self);
        }
        let format = match self.format {
            None => {
                return Err(ProduceError::NotConfigured);
            },
            Some(format) => format,
        };
        let counted: u64 = self.position.frames;
        proof {
            lemma_span_monotonic(0, counted as int, format.frame_rate);
            lemma_span_monotonic(counted as int, counted + 1, format.frame_rate);
            lemma_span_step(counted as int, format.frame_rate);
            lemma_one_frame_fits(format.frame_rate);
        }
        let pts: ClockTime = self.position.accumulated + running_time(
            counted,
            format.frame_rate,
        ).unwrap();
        let duration: ClockTime = frame_duration(format.frame_rate).unwrap();
        let spent: bool = match self.settings.frame_limit {
            None => false,
            Some(limit) => counted >= limit,
        };
        let stamp: u128 = compensated_stamp(&self.settings, started_us, wall_ms);
        *self = ProbeSource {
            settings: self.settings,
            format: self.format,
            position: StreamPosition {
                accumulated: self.position.accumulated,
                frames: counted + 1,
            },
            pacer: self.pacer,
            running: self.running,
        };
        if spent {
            return Err(ProduceError::Exhausted);
        }
        let pixels = encode(stamp, format.width);
        Ok(Frame { pixels, pts, duration })
    }

    /// Notes what stamping a frame cost: the frame was begun at
    /// `started_us` and finished at `finished_us`, both wall-clock
    /// microseconds.  A clock that ran backwards in between counts as no
    /// cost.
    pub fn record_encode_cost(&mut self, started_us: u128, finished_us: u128)
        ensures
            final(self).settings() == (Settings {
                encode_overhead_us: if finished_us >= started_us {
                    (finished_us - started_us) as u128
                } else {
                    0
                },
                previous_iteration_us: started_us,
                ..old(self).settings()
            }),
            final(self).format() == old(self).format(),
            final(self).position() == old(self).position(),
            final(self).pacer() == old(self).pacer(),
            final(self).running() == old(self).running(),
    {
        proof {
            use_type_invariant(&*self);
        }
        let settings = Settings {
            fps: self.settings.fps,
            width: self.settings.width,
            height: self.settings.height,
            encode_overhead_us: finished_us.saturating_sub(started_us),
            previous_iteration_us: started_us,
            frame_limit: self.settings.frame_limit,
        };
        *self = ProbeSource {
            settings,
            format: self.format,
            position: self.position,
            pacer: self.pacer,
            running: self.running,
        };
    }

    /// Decides how to hold the frame counted last until it is due.
    ///
    /// `base_time` is the clock time at which the pipeline started, or
    /// `None` while the source has no clock.  The frame is due at
    /// `frame_deadline(base_time)`.  Without a deadline the frame goes out
    /// at once; while flushing the wait is refused; otherwise the caller
    /// has to block until the deadline.
    pub fn pace(&mut self, base_time: Option<ClockTime>) -> (step: WaitStep)
        ensures
            (final(self).pacer(), step) == old(self).pacer().spec_wait_until(
                old(self).frame_deadline(base_time),
            ),
            old(self).frame_deadline(base_time) is None ==> step == WaitStep::Done(
                WaitOutcome::Completed,
            ),
            old(self).frame_deadline(base_time) is Some && old(self).pacer().flushing() ==> step
                == WaitStep::Done(WaitOutcome::Canceled),
            old(self).frame_deadline(base_time) is Some && !old(self).pacer().flushing() ==> step
                == WaitStep::Block(old(self).frame_deadline(base_time).unwrap()),
            final(self).pacer().flushing() == old(self).pacer().flushing(),
            final(self).pacer().pending() == (if step is Block {
                old(self).frame_deadline(base_time)
            } else {
                old(self).pacer().pending()
            }),
            final(self).settings() == old(self).settings(),
            final(self).format() == old(self).format(),
            final(self).position() == old(self).position(),
            final(self).running() == old(self).running(),
    {
        proof {
            use_type_invariant(&*self);
        }
        let deadline: Option<ClockTime> = match (base_time, self.format) {
            (Some(base), Some(format)) => {
                proof {
                    lemma_span_monotonic(0, self.position.frames as int, format.frame_rate);
                }
                match base.checked_add(self.position.accumulated) {
                    None => None,
                    Some(origin) => deadline_for(self.position.frames, format.frame_rate, origin),
                }
            },
            _ => None,
        };
        let mut pacer = self.pacer;
        let step = pacer.wait_until(deadline);
        proof {
            use_type_invariant(&pacer);
        }
        self.pacer = pacer;
        step
    }

    /// Takes note that the blocking wait has returned, and says how it
    /// ended.
    pub fn wait_ended(&mut self, signal: ClockSignal) -> (outcome: WaitOutcome)
        ensures
            (final(self).pacer(), outcome) == old(self).pacer().spec_wait_ended(signal),
            outcome == (match signal {
                ClockSignal::Reached => WaitOutcome::Completed,
                ClockSignal::Unscheduled => WaitOutcome::Canceled,
            }),
            final(self).pacer().pending() is None,
            final(self).pacer().flushing() == old(self).pacer().flushing(),
            final(self).settings() == old(self).settings(),
            final(self).format() == old(self).format(),
            final(self).position() == old(self).position(),
            final(self).running() == old(self).running(),
    {
        proof {
            use_type_invariant(&*self);
        }
        let mut pacer = self.pacer;
        let outcome = pacer.wait_ended(signal);
        proof {
            use_type_invariant(&pacer);
        }
        self.pacer = pacer;
        outcome
    }

    /// What a finished wait means for the frame: a canceled wait gives
    /// `Flushing`; a completed one lets the frame go out, and observers are
    /// told the format, if the source still has one.
    pub fn conclude(&self, outcome: WaitOutcome) -> (r: Result<
        Option<NegotiatedFormat>,
        ProduceError,
    >)
        ensures
            r == (match outcome {
                WaitOutcome::Canceled => Err::<Option<NegotiatedFormat>, ProduceError>(
                    ProduceError::Flushing,
                ),
                WaitOutcome::Completed => Ok(self.format()),
            }),
    {
        match outcome {
            WaitOutcome::Canceled => Err(ProduceError::Flushing),
            WaitOutcome::Completed => Ok(self.format),
        }
    }

    /// Interrupts the wait that is under way and refuses further ones.  The
    /// interrupted wait is handed out for the caller to take off the clock.
    pub fn unlock(&mut self) -> (interrupted: Option<ClockTime>)
        ensures
            (final(self).pacer(), interrupted) == old(self).pacer().spec_cancel(),
            interrupted == old(self).pacer().pending(),
            final(self).pacer().flushing(),
            final(self).pacer().pending() is None,
            final(self).settings() == old(self).settings(),
            final(self).format() == old(self).format(),
            final(self).position() == old(self).position(),
            final(self).running() == old(self).running(),
    {
        proof {
            use_type_invariant(&*self);
        }
        let mut pacer = self.pacer;
        let interrupted = pacer.cancel();
        proof {
            use_type_invariant(&pacer);
        }
        self.pacer = pacer;
        interrupted
    }

    /// Allows waits again.
    pub fn unlock_stop(&mut self)
        ensures
            final(self).pacer() == old(self).pacer().spec_resume(),
            !final(self).pacer().flushing(),
            final(self).pacer().pending() == old(self).pacer().pending(),
            final(self).settings() == old(self).settings(),
            final(self).format() == old(self).format(),
            final(self).position() == old(self).position(),
            final(self).running() == old(self).running(),
    {
        proof {
            use_type_invariant(&*self);
        }
        let mut pacer = self.pacer;
        pacer.resume();
        proof {
            use_type_invariant(&pacer);
        }
        self.pacer = pacer;
    }

    /// The latency that the source reports to the pipeline: one frame
    /// duration, once a format is negotiated.
    pub fn latency(&self) -> (r: Option<ClockTime>)
        ensures
            r == (match self.format() {
                None => None::<ClockTime>,
                Some(format) => Some(span_of(1, format.frame_rate) as u64),
            }),
    {
        proof {
            use_type_invariant(self);
        }
        match self.format {
            None => None,
            Some(format) => {
                proof {
                    lemma_one_frame_fits(format.frame_rate);
                }
                frame_duration(format.frame_rate)
            },
        }
    }

    /// Sets after how many frames of a segment the stream ends.
    pub fn set_frame_limit(&mut self, limit: Option<u64>)
        ensures
            final(self).settings() == (Settings { frame_limit: limit, ..old(self).settings() }),
            final(self).format() == old(self).format(),
            final(self).position() == old(self).position(),
            final(self).pacer() == old(self).pacer(),
            final(self).running() == old(self).running(),
    {
        proof {
            use_type_invariant(&*self);
        }
        let settings = Settings {
            fps: self.settings.fps,
            width: self.settings.width,
            height: self.settings.height,
            encode_overhead_us: self.settings.encode_overhead_us,
            previous_iteration_us: self.settings.previous_iteration_us,
            frame_limit: limit,
        };
        *self = ProbeSource {
            settings,
            format: self.format,
            position: self.position,
            pacer: self.pacer,
            running: self.running,
        };
    }

    /// Where in its life the source is.
    pub fn phase(&self) -> (r: SourcePhase)
        ensures
            r == (if !self.running() {
                SourcePhase::Stopped
            } else if self.format() is None {
                SourcePhase::Unconfigured
            } else {
                SourcePhase::Configured
            }),
    {
        if !self.running {
            SourcePhase::Stopped
        } else if self.format.is_none() {
            SourcePhase::Unconfigured
        } else {
            SourcePhase::Configured
        }
    }

    pub fn current_settings(&self) -> (r: Settings)
        ensures
            r == self.settings(),
            r.width == r.height,
    {
        proof {
            use_type_invariant(self);
        }
        self.settings
    }

    pub fn negotiated_format(&self) -> (r: Option<NegotiatedFormat>)
        ensures
            r == self.format(),
            r is Some ==> r.unwrap().fits_probe(),
    {
        proof {
            use_type_invariant(self);
        }
        self.format
    }

    pub fn stream_position(&self) -> (r: StreamPosition)
        ensures
            r == self.position(),
    {
        self.position
    }

    pub fn is_flushing(&self) -> (r: bool)
        ensures
            r == self.pacer().flushing(),
    {
        self.pacer.is_flushing()
    }

    pub fn pending_wait(&self) -> (r: Option<ClockTime>)
        ensures
            r == self.pacer().pending(),
    {
        self.pacer.pending_deadline()
    }
}

impl Default for ProbeSource {
    fn default() -> (source: ProbeSource)
        ensures
            source.wf(),
            source.settings() == Settings::initial(),
            source.format() is None,
            source.position() == (StreamPosition { accumulated: 0, frames: 0 }),
            source.pacer().flushing(),
            source.pacer().pending() is None,
            !source.running(),
    {
        ProbeSource::new()
    }
}

/// Frames follow each other without overlap, and with no gap but the
/// nanosecond that rounding down can hold back: where `next` is `source`
/// one counted frame later, the next frame starts no earlier than the last
/// one ends, and at most one nanosecond later.
pub proof fn lemma_frames_follow(source: ProbeSource, next: ProbeSource)
    requires
        source.wf(),
        source.format() is Some,
        next.format() == source.format(),
        next.position() == (StreamPosition {
            accumulated: source.position().accumulated,
            frames: (source.position().frames + 1) as u64,
        }),
        source.position().frames < u64::MAX,
    ensures
        ({
            let duration = span_of(1, source.format().unwrap().frame_rate);
            source.next_pts() + duration <= next.next_pts() <= source.next_pts() + duration + 1
        }),
{
    lemma_span_step(source.position().frames as int, source.format().unwrap().frame_rate);
}

/// At a rate that divides the second evenly, consecutive frames are
/// exactly one frame duration apart.
pub proof fn lemma_frames_evenly_spaced(source: ProbeSource, next: ProbeSource)
    requires
        source.wf(),
        source.format() is Some,
        next.format() == source.format(),
        next.position() == (StreamPosition {
            accumulated: source.position().accumulated,
            frames: (source.position().frames + 1) as u64,
        }),
        source.position().frames < u64::MAX,
        (NANOS_PER_SECOND * source.format().unwrap().frame_rate.denom) % (
        source.format().unwrap().frame_rate.numer as int) == 0,
    ensures
        next.next_pts() - source.next_pts() == span_of(1, source.format().unwrap().frame_rate),
{
    lemma_span_exact(source.position().frames as int, source.format().unwrap().frame_rate);
}

} // verus!
