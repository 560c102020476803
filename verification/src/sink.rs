//! The probe sink: reads the stamp of each frame that arrives and reports
//! how long the frame was under way.
//!
//! A frame is taken in with two calls.  [`ProbeSink::on_frame_received`]
//! checks the frame and hands out the image in which to look for its code;
//! the caller looks, and [`ProbeSink::on_frame_scanned`] turns what was
//! found into the sample for the observers.

use vstd::prelude::*;
use crate::codec::{
    image_to_scan, pick_timestamp, sampled_len, scan_pixels, scan_step, timestamp_among,
    DecodeError, GreyImage, PixelBuffer,
};
use crate::format::{FormatDescriptor, NegotiatedFormat, NegotiationError};
use crate::source::ProbeSource;

verus! {

/// One measurement: the format in force and the latency of one frame, in
/// milliseconds.  A latency is never negative.
#[derive(Clone, Copy, Debug)]
pub struct LatencySample {
    format: NegotiatedFormat,
    latency_ms: i64,
}

/// Why a frame could not be taken in.
#[derive(Clone, Copy, Debug, PartialEq, Eq, Structural)]
pub enum ReceiveError {
    /// The frame does not hold three bytes for each pixel of the negotiated
    /// format.
    FrameSizeMismatch,
}

/// A probe sink.
#[derive(Clone, Copy, Debug)]
pub struct ProbeSink {
    format: Option<NegotiatedFormat>,
}

/// The latency of a frame stamped `embedded_ms` that arrives at `now_ms`:
/// the time between the two, taken as zero where the stamp lies in the
/// future, and capped at the largest 64-bit value.
pub open spec fn latency_between(now_ms: u128, embedded_ms: u128) -> i64 {
    if now_ms <= embedded_ms {
        0
    } else if now_ms - embedded_ms > i64::MAX {
        i64::MAX
    } else {
        (now_ms - embedded_ms) as i64
    }
}

/// Computes the latency of a frame.
pub fn latency_ms(now_ms: u128, embedded_ms: u128) -> (latency: i64)
    ensures
        latency == latency_between(now_ms, embedded_ms),
        latency >= 0,
{
    if now_ms <= embedded_ms {
        0
    } else {
        let elapsed: u128 = now_ms - embedded_ms;
        if elapsed > i64::MAX as u128 {
            i64::MAX
        } else {
            elapsed as i64
        }
    }
}

impl LatencySample {
    pub closed spec fn format(self) -> NegotiatedFormat {
        self.format
    }

    pub closed spec fn latency(self) -> i64 {
        self.latency_ms
    }

    #[verifier::type_invariant]
    pub closed spec fn wf(self) -> bool {
        self.latency_ms >= 0
    }

    /// The sample for a frame stamped `embedded_ms` that arrived at
    /// `now_ms`.
    pub fn new(format: NegotiatedFormat, now_ms: u128, embedded_ms: u128) -> (sample: LatencySample)
        ensures
            sample.wf(),
            sample.format() == format,
            sample.latency() == latency_between(now_ms, embedded_ms),
    {
        LatencySample { format, latency_ms: latency_ms(now_ms, embedded_ms) }
    }

    pub fn get_format(&self) -> (r: NegotiatedFormat)
        ensures
            r == self.format(),
    {
        self.format
    }

    /// The latency in milliseconds.
    pub fn latency_ms(&self) -> (r: i64)
        ensures
            r == self.latency(),
            r >= 0,
    {
        proof {
            use_type_invariant(self);
        }
        self.latency_ms
    }
}

/// Every sample is well formed, and a well-formed sample holds no negative
/// latency.
pub proof fn lemma_latency_never_negative(sample: LatencySample, now_ms: u128, embedded_ms: u128)
    ensures
        latency_between(now_ms, embedded_ms) >= 0,
        sample.wf() ==> sample.latency() >= 0,
{
}

/// The sample that a reading of a frame amounts to: none where no
/// timestamp was read.
pub open spec fn sample_of(
    format: NegotiatedFormat,
    reading: Result<u128, DecodeError>,
    now_ms: u128,
) -> Option<(NegotiatedFormat, i64)> {
    match reading {
        Err(_) => None,
        Ok(embedded_ms) => Some((format, latency_between(now_ms, embedded_ms))),
    }
}

/// Turns the reading of a frame into a sample.  A frame from which no
/// timestamp was read gives none, whatever the reason.
pub fn sample_for(format: NegotiatedFormat, reading: Result<u128, DecodeError>, now_ms: u128) -> (r:
    Option<LatencySample>)
    ensures
        r is Some <==> reading is Ok,
        r is Some ==> r.unwrap().wf() && sample_of(format, reading, now_ms) == Some(
            (r.unwrap().format(), r.unwrap().latency()),
        ),
{
    match reading {
        Err(_) => None,
        Ok(embedded_ms) => Some(LatencySample::new(format, now_ms, embedded_ms)),
    }
}

impl ProbeSink {
    /// The negotiated format, if negotiation has succeeded.
    pub closed spec fn format(self) -> Option<NegotiatedFormat> {
        self.format
    }

    /// A sink without a format.
    pub fn new() -> (sink: ProbeSink)
        ensures
            sink.format() is None,
    {
        ProbeSink { format: None }
    }

    pub fn negotiated_format(&self) -> (r: Option<NegotiatedFormat>)
        ensures
            r == self.format(),
    {
        self.format
    }

    /// Takes up a proposed format.  A descriptor that cannot be read is
    /// refused with `InvalidFormat` and changes nothing.
    pub fn negotiate(&mut self, descriptor: &FormatDescriptor) -> (r: Result<(), NegotiationError>)
        ensures
            match descriptor.spec_parse() {
                Err(e) => r == Err::<(), NegotiationError>(e) && final(self).format() == old(
                    self,
                ).format(),
                Ok(format) => r is Ok && final(self).format() == Some(format),
            },
    {
        match descriptor.parse() {
            Err(e) => Err(e),
            Ok(format) => {
                self.format = Some(format);
                Ok(())
            },
        }
    }

    /// What is to be scanned of a frame that arrives: the grey levels of
    /// the image with its width and height, nothing where the frame is
    /// dropped, an error where it has the wrong size.
    pub open spec fn received(self, data: Seq<u8>) -> Result<
        Option<(Seq<u8>, u32, u32)>,
        ReceiveError,
    > {
        match self.format() {
            None => Ok(None),
            Some(format) => if data.len() != 3 * format.width * format.height {
                Err(ReceiveError::FrameSizeMismatch)
            } else if format.width == 0 || format.height == 0 {
                Ok(None)
            } else {
                let step = scan_step(format.width, format.height);
                Ok(
                    Some(
                        (
                            scan_pixels(data, format.width, format.height),
                            sampled_len(format.width, step) as u32,
                            sampled_len(format.height, step) as u32,
                        ),
                    ),
                )
            },
        }
    }

    /// The sample that a scanned frame gives rise to: the format in force
    /// and the latency at `now_ms`, where the scan found exactly one
    /// legible code and its text is a timestamp.
    pub open spec fn scanned(self, found: Seq<Option<Seq<char>>>, now_ms: u128) -> Option<
        (NegotiatedFormat, i64),
    > {
        match self.format() {
            None => None,
            Some(format) => sample_of(format, timestamp_among(found), now_ms),
        }
    }

    /// Takes in a frame and hands out the image to scan for its code.
    ///
    /// Without a format the frame is dropped.  A frame of the wrong size is
    /// an error.  A frame without pixels is dropped too.  Of every other
    /// frame the grey image is handed out that `image_to_scan` makes of it.
    pub fn on_frame_received(&self, data: Vec<u8>) -> (r: Result<Option<GreyImage>, ReceiveError>)
        ensures
            match self.received(data@) {
                Err(e) => r == Err::<Option<GreyImage>, ReceiveError>(e),
                Ok(None) => r == Ok::<Option<GreyImage>, ReceiveError>(None),
                Ok(Some((pixels, width, height))) => {
                    &&& r matches Ok(Some(image))
                    &&& image.wf()
                    &&& image.pixels() == pixels
                    &&& image.width() == width
                    &&& image.height() == height
                },
            },
    {
        let format = match self.format {
            None => {
                return Ok(None);
            },
            Some(format) => format,
        };
        let buffer = match PixelBuffer::from_rgb(format.width, format.height, data) {
            None => {
                return Err(ReceiveError::FrameSizeMismatch);
            },
            Some(buffer) => buffer,
        };
        proof {
            if format.width > 0 && format.height > 0 {
                crate::codec::lemma_scan_step_fits(format.width, format.height);
            }
        }
        Ok(image_to_scan(&buffer))
    }

    /// Turns what the scan of a frame found into the sample for the
    /// observers.  `now_ms` is what the wall clock read when the frame
    /// arrived.
    ///
    /// `found` holds one entry for each grid that the scan detected: the
    /// grid's text where it decoded, `None` where it did not.  A frame in
    /// which no timestamp was found gives no sample, whatever the reason;
    /// nor does any frame while the sink has no format.
    pub fn on_frame_scanned(&self, found: &Vec<Option<String>>, now_ms: u128) -> (r: Option<
        LatencySample,
    >)
        ensures
            match self.scanned(found.deep_view(), now_ms) {
                None => r is None,
                Some((format, latency)) => {
                    &&& r matches Some(sample)
                    &&& sample.wf()
                    &&& sample.format() == format
                    &&& sample.latency() == latency
                    &&& latency >= 0
                },
            },
    {
        match self.format {
            None => None,
            Some(format) => sample_for(format, pick_timestamp(found), now_ms),
        }
    }
}

impl Default for ProbeSink {
    fn default() -> (sink: ProbeSink)
        ensures
            sink.format() is None,
    {
        ProbeSink::new()
    }
}

/// A source and a sink that were offered the same descriptor, and both
/// took it, hold the same format; so the format that the source announces
/// with a frame is the format of every sample that the sink reports.
pub proof fn lemma_reported_formats_agree(
    source: ProbeSource,
    sink: ProbeSink,
    descriptor: FormatDescriptor,
    found: Seq<Option<Seq<char>>>,
    now_ms: u128,
)
    requires
        descriptor.spec_parse_probe() is Ok,
        source.format() == Some(descriptor.spec_parse_probe().unwrap()),
        sink.format() == descriptor.spec_parse().ok(),
    ensures
        descriptor.spec_parse() is Ok,
        source.format() == sink.format(),
        sink.scanned(found, now_ms) matches Some(sample) ==> source.format() == Some(sample.0),
{
}

} // verus!
