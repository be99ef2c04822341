//! Extraction and low-level decoding of H.264 (AVC) elementary bitstreams:
//! a bit-level cursor with Exp-Golomb decoding, the one-byte NAL unit header,
//! Annex-B start-code splitting, and length-prefixed (AVCC) extraction with
//! the decoder-configuration record.

pub mod annexb;
pub mod avcc;
pub mod bitreader;
pub mod error;
pub mod nalu;
