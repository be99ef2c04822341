//! Typed errors for every way a parse can fail.
//!
//! Every validation failure aborts the current parse atomically and is
//! reported through one of these variants; malformed input is an expected,
//! handled condition, never a panic.

use vstd::prelude::*;

verus! {

/// A structural violation of a fixed binary layout.
#[derive(Clone, Copy, Debug, PartialEq, Eq, Structural)]
pub enum FormatViolation {
    /// The configuration record's version byte was not 1.
    Version,
    /// The six reserved bits beside the length-size field were not all 1.
    ReservedBits,
    /// The forbidden bit of a NAL unit header byte was set.
    ForbiddenBit,
}

/// The field whose bytes would have run past the end of the buffer.
#[derive(Clone, Copy, Debug, PartialEq, Eq, Structural)]
pub enum TruncatedPart {
    /// The configuration record is shorter than its fixed 7-byte prefix.
    RecordHeader,
    /// The two-byte size field of an SPS entry.
    SpsSize,
    /// The payload of an SPS entry.
    SpsPayload,
    /// The PPS count byte.
    PpsCount,
    /// The two-byte size field of a PPS entry.
    PpsSize,
    /// The payload of a PPS entry.
    PpsPayload,
    /// The length prefix of a NAL unit in a length-prefixed stream.
    NaluLength,
    /// The payload of a NAL unit in a length-prefixed stream.
    NaluPayload,
}

/// Everything that can go wrong while extracting or decoding.
#[derive(Clone, Copy, Debug, PartialEq, Eq, Structural)]
pub enum BitstreamError {
    /// Requested bits exceed what remains in the buffer, or a rewind would
    /// move the cursor before the start.
    OutOfBounds,
    /// An Exp-Golomb leading-zero run exceeded the defensive cap of 31.
    CodeOverflow,
    /// A caller-supplied configuration value outside the supported range.
    InvalidParameter,
    /// A fixed layout carried an illegal value.
    InvalidFormat(FormatViolation),
    /// A declared field does not fit the remaining buffer.
    Truncated(TruncatedPart),
}

impl BitstreamError {
    /// The human-readable description of each error.
    pub open spec fn message_spec(self) -> Seq<char> {
        match self {
            BitstreamError::OutOfBounds => "Not enough space to read!"@,
            BitstreamError::CodeOverflow => "Too many leading zeros in Exp-Golomb"@,
            BitstreamError::InvalidParameter => "Invalid NALU length size"@,
            BitstreamError::InvalidFormat(v) => match v {
                FormatViolation::Version => "Incorrect version in AVCC header"@,
                FormatViolation::ReservedBits => "Invalid reserved bits in AVCC NALU length size byte"@,
                FormatViolation::ForbiddenBit => "Forbidden bit in NALU Header cannot be 1"@,
            },
            BitstreamError::Truncated(p) => match p {
                TruncatedPart::RecordHeader => "AVCC header is below minimum size"@,
                TruncatedPart::SpsSize => "Not enough data for SPS size field"@,
                TruncatedPart::SpsPayload => "Not enough data for SPS payload"@,
                TruncatedPart::PpsCount => "Not enough data for PPS count field"@,
                TruncatedPart::PpsSize => "Not enough data for PPS size field"@,
                TruncatedPart::PpsPayload => "Not enough data for PPS payload"@,
                TruncatedPart::NaluLength => "Not enough data for NALU length field"@,
                TruncatedPart::NaluPayload => "NALU length exceeds available data"@,
            },
        }
    }

    /// The human-readable description of the error.
    pub fn message(&self) -> (r: &'static str)
        ensures
            r@ == self.message_spec(),
    {
        match self {
            BitstreamError::OutOfBounds => "Not enough space to read!",
            BitstreamError::CodeOverflow => "Too many leading zeros in Exp-Golomb",
            BitstreamError::InvalidParameter => "Invalid NALU length size",
            BitstreamError::InvalidFormat(v) => match v {
                FormatViolation::Version => "Incorrect version in AVCC header",
                FormatViolation::ReservedBits => "Invalid reserved bits in AVCC NALU length size byte",
                FormatViolation::ForbiddenBit => "Forbidden bit in NALU Header cannot be 1",
            },
            BitstreamError::Truncated(p) => match p {
                TruncatedPart::RecordHeader => "AVCC header is below minimum size",
                TruncatedPart::SpsSize => "Not enough data for SPS size field",
                TruncatedPart::SpsPayload => "Not enough data for SPS payload",
                TruncatedPart::PpsCount => "Not enough data for PPS count field",
                TruncatedPart::PpsSize => "Not enough data for PPS size field",
                TruncatedPart::PpsPayload => "Not enough data for PPS payload",
                TruncatedPart::NaluLength => "Not enough data for NALU length field",
                TruncatedPart::NaluPayload => "NALU length exceeds available data",
            },
        }
    }
}

} // verus!
