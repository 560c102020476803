//! Format descriptors and what negotiation accepts of them.

use vstd::prelude::*;
use crate::timeline::Rational;
use crate::{MAXIMUM_FPS, MINIMUM_FPS, MINIMUM_SIZE};

verus! {

/// The pixel layouts a probe frame can have.
#[derive(Clone, Copy, Debug, PartialEq, Eq, Structural)]
pub enum PixelFormat {
    /// Three bytes per pixel (red, green, blue), rows tightly packed.
    Rgb24,
}

/// What the host proposes when formats are negotiated.
#[derive(Clone, Copy, Debug, PartialEq, Eq, Structural)]
pub struct FormatDescriptor {
    pub pixel_format: PixelFormat,
    pub width: u32,
    pub height: u32,
    pub frame_rate: Rational,
}

/// A format that a negotiation has settled on.
#[derive(Clone, Copy, Debug, PartialEq, Eq, Structural)]
pub struct NegotiatedFormat {
    pub pixel_format: PixelFormat,
    pub width: u32,
    pub height: u32,
    pub frame_rate: Rational,
}

/// Why a negotiation attempt failed.
#[derive(Clone, Copy, Debug, PartialEq, Eq, Structural)]
pub enum NegotiationError {
    /// Width and height differ; a probe frame is square.
    AsymmetricFrame,
    /// The descriptor does not describe a format.
    InvalidFormat,
    /// Side length or frame rate lies outside the supported range.
    OutOfRange,
}

/// One past the largest accepted frame side, in pixels.
pub const SIZE_LIMIT: u32 = 0x8000_0000;

impl FormatDescriptor {
    /// The format that this descriptor describes, taken field by field.
    pub open spec fn format(self) -> NegotiatedFormat {
        NegotiatedFormat {
            pixel_format: self.pixel_format,
            width: self.width,
            height: self.height,
            frame_rate: self.frame_rate,
        }
    }

    /// A descriptor describes a format when its frame rate is a positive
    /// fraction.
    pub open spec fn is_readable(self) -> bool {
        self.frame_rate.is_positive()
    }

    /// What reading the descriptor gives.
    pub open spec fn spec_parse(self) -> Result<NegotiatedFormat, NegotiationError> {
        if self.is_readable() {
            Ok(self.format())
        } else {
            Err(NegotiationError::InvalidFormat)
        }
    }

    /// What a probe source makes of the descriptor: it must be readable,
    /// then square, then within the supported ranges.
    pub open spec fn spec_parse_probe(self) -> Result<NegotiatedFormat, NegotiationError> {
        if !self.is_readable() {
            Err(NegotiationError::InvalidFormat)
        } else if self.width != self.height {
            Err(NegotiationError::AsymmetricFrame)
        } else if !self.format().in_range() {
            Err(NegotiationError::OutOfRange)
        } else {
            Ok(self.format())
        }
    }

    /// Reads the descriptor as a format.
    pub fn parse(&self) -> (r: Result<NegotiatedFormat, NegotiationError>)
        ensures
            r == self.spec_parse(),
    {
        if !self.frame_rate.check_positive() {
            return Err(NegotiationError::InvalidFormat);
        }
        Ok(
            NegotiatedFormat {
                pixel_format: self.pixel_format,
                width: self.width,
                height: self.height,
                frame_rate: self.frame_rate,
            },
        )
    }

    /// Reads the descriptor as the format of a probe source.
    pub fn parse_probe(&self) -> (r: Result<NegotiatedFormat, NegotiationError>)
        ensures
            r == self.spec_parse_probe(),
    {
        match self.parse() {
            Err(e) => Err(e),
            Ok(format) => {
                if format.width != format.height {
                    Err(NegotiationError::AsymmetricFrame)
                } else if !format.check_in_range() {
                    Err(NegotiationError::OutOfRange)
                } else {
                    Ok(format)
                }
            },
        }
    }
}

impl NegotiatedFormat {
    /// Both sides within `[MINIMUM_SIZE, SIZE_LIMIT)` and the rate within
    /// `[MINIMUM_FPS, MAXIMUM_FPS]` frames per second.
    pub open spec fn in_range(self) -> bool {
        &&& MINIMUM_SIZE <= self.width < SIZE_LIMIT
        &&& MINIMUM_SIZE <= self.height < SIZE_LIMIT
        &&& self.frame_rate.is_positive()
        &&& MINIMUM_FPS * self.frame_rate.denom <= self.frame_rate.numer
        &&& self.frame_rate.numer <= MAXIMUM_FPS * self.frame_rate.denom
    }

    /// What a probe source needs of its format.
    pub open spec fn fits_probe(self) -> bool {
        self.width == self.height && self.in_range()
    }

    /// The descriptor that proposes exactly this format.
    pub fn descriptor(&self) -> (d: FormatDescriptor)
        ensures
            d.format() == *self,
    {
        FormatDescriptor {
            pixel_format: self.pixel_format,
            width: self.width,
            height: self.height,
            frame_rate: self.frame_rate,
        }
    }

    pub fn check_in_range(&self) -> (r: bool)
        ensures
            r == self.in_range(),
    {
        if !self.frame_rate.check_positive() {
            return false;
        }
        let numer: i64 = self.frame_rate.numer as i64;
        let denom: i64 = self.frame_rate.denom as i64;
        let slowest: i64 = MINIMUM_FPS as i64;
        let fastest: i64 = MAXIMUM_FPS as i64;
        assert(slowest == 10 && fastest == 240);
        let sides_fit: bool = MINIMUM_SIZE <= self.width && self.width < SIZE_LIMIT && MINIMUM_SIZE
            <= self.height && self.height < SIZE_LIMIT;
        sides_fit && slowest * denom <= numer && numer <= fastest * denom
    }
}

/// A descriptor that a probe source accepts is accepted by every reader,
/// and both settle on the same format.
pub proof fn lemma_probe_format_is_parsed_format(descriptor: FormatDescriptor)
    ensures
        descriptor.spec_parse_probe() is Ok ==> descriptor.spec_parse()
            == descriptor.spec_parse_probe(),
        descriptor.spec_parse_probe() is Ok ==> descriptor.spec_parse_probe().unwrap().fits_probe(),
{
}

} // verus!
