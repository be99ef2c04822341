//! The one-byte NAL unit header, as in 7.3.1 NAL unit syntax of
//! Rec. ITU-T H.264: bit 7 is the forbidden zero bit (must be 0), bits 6-5
//! the reference indication, bits 4-0 the unit type.

use vstd::prelude::*;

use crate::error::BitstreamError;
use crate::error::FormatViolation;

verus! {

/// Holds the decoded fields of a NAL unit header byte.
#[derive(Clone, Copy, Debug, PartialEq, Eq, Structural)]
pub struct NaluHeader {
    /// Always 0: a set bit makes the header invalid and no value is produced.
    pub forbidden_zero_bit: u8,
    /// The two-bit nal_ref_idc field, in 0..=3.
    pub nal_ref_idc: u8,
    /// The five-bit nal_unit_type field, in 0..=31.
    pub nal_unit_type: u8,
}

impl NaluHeader {
    /// Decodes the byte into forbidden bit, reference indication and unit
    /// type; a set forbidden bit is rejected and no header is produced.
    pub fn new(byte: u8) -> (r: Result<NaluHeader, BitstreamError>)
        ensures
            match r {
                Ok(h) => {
                    &&& (byte >> 7) & 0x01 == 0
                    &&& h.forbidden_zero_bit == 0
                    &&& h.nal_ref_idc == (byte >> 5) & 0x03
                    &&& h.nal_unit_type == byte & 0x1F
                },
                Err(e) => {
                    &&& (byte >> 7) & 0x01 == 1
                    &&& e == BitstreamError::InvalidFormat(FormatViolation::ForbiddenBit)
                },
            },
    {
        let forbidden_zero_bit = (byte >> 7) & 0x01;
        let nal_ref_idc = (byte >> 5) & 0x03;
        let nal_unit_type = byte & 0x1F;

        if forbidden_zero_bit == 1 {
            return Err(BitstreamError::InvalidFormat(FormatViolation::ForbiddenBit));
        }

        proof {
            assert((byte >> 7) & 0x01 == 0 || (byte >> 7) & 0x01 == 1) by (bit_vector);
        }

        Ok(NaluHeader { forbidden_zero_bit, nal_ref_idc, nal_unit_type })
    }
}

} // verus!
