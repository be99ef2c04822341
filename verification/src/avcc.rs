//! Length-prefixed (AVCC) extraction and the AVC decoder-configuration
//! record.
//!
//! A length-prefixed stream is a sequence of `{length, payload}` pairs whose
//! big-endian length field is 1 to 4 bytes wide. The configuration record is
//! the fixed binary header that declares that width and carries the initial
//! SPS and PPS parameter-set NAL units.

use vstd::prelude::*;
use vstd::slice::slice_subrange;

use crate::error::BitstreamError;
use crate::error::FormatViolation;
use crate::error::TruncatedPart;

verus! {

/// Which parameter-set list a sized record belongs to; decides which
/// truncation error is reported.
#[derive(Clone, Copy, Debug, PartialEq, Eq, Structural)]
pub enum ParamSetKind {
    Sps,
    Pps,
}

/// Which part of a sized record ran past the end of the buffer.
#[derive(Clone, Copy, Debug, PartialEq, Eq, Structural)]
pub enum RecordShortfall {
    /// The two-byte size field itself.
    SizeField,
    /// The payload the size field declares.
    Payload,
}

/// The error a shortfall in the given parameter-set list surfaces as.
pub open spec fn shortfall_error(kind: ParamSetKind, sf: RecordShortfall) -> BitstreamError {
    match (kind, sf) {
        (ParamSetKind::Sps, RecordShortfall::SizeField) => BitstreamError::Truncated(
            TruncatedPart::SpsSize,
        ),
        (ParamSetKind::Sps, RecordShortfall::Payload) => BitstreamError::Truncated(
            TruncatedPart::SpsPayload,
        ),
        (ParamSetKind::Pps, RecordShortfall::SizeField) => BitstreamError::Truncated(
            TruncatedPart::PpsSize,
        ),
        (ParamSetKind::Pps, RecordShortfall::Payload) => BitstreamError::Truncated(
            TruncatedPart::PpsPayload,
        ),
    }
}

/// The big-endian 16-bit value at offset `i` of `s`.
pub open spec fn be16(s: Seq<u8>, i: int) -> int {
    s[i] * 256 + s[i + 1]
}

/// The payload spans of `count` sized records (`{u16 length, length bytes}`
/// each) starting at `off`, with the offset just past the last one; or the
/// part of the first record that did not fit the buffer.
pub open spec fn sized_record_spans(s: Seq<u8>, off: int, count: nat) -> Result<
    (Seq<(int, int)>, int),
    RecordShortfall,
>
    decreases count,
{
    if count == 0 {
        Ok((seq![], off))
    } else if off + 2 > s.len() {
        Err(RecordShortfall::SizeField)
    } else {
        let size = be16(s, off);
        if off + 2 + size > s.len() {
            Err(RecordShortfall::Payload)
        } else {
            match sized_record_spans(s, off + 2 + size, (count - 1) as nat) {
                Ok((rest, end)) => Ok((seq![(off + 2, off + 2 + size)] + rest, end)),
                Err(e) => Err(e),
            }
        }
    }
}

/// The parse of a whole configuration record: on success the SPS and PPS
/// payload spans, in encounter order; otherwise exactly the error the record
/// deserves, checked in layout order.
pub open spec fn record_result(s: Seq<u8>) -> Result<
    (Seq<(int, int)>, Seq<(int, int)>),
    BitstreamError,
> {
    if s.len() < 7 {
        Err(BitstreamError::Truncated(TruncatedPart::RecordHeader))
    } else if s[0] != 1 {
        Err(BitstreamError::InvalidFormat(FormatViolation::Version))
    } else if s[4] & 0xFC != 0xFC {
        Err(BitstreamError::InvalidFormat(FormatViolation::ReservedBits))
    } else {
        match sized_record_spans(s, 6, (s[5] & 0x1F) as nat) {
            Err(sf) => Err(shortfall_error(ParamSetKind::Sps, sf)),
            Ok((sps, off)) => {
                if off + 1 > s.len() {
                    Err(BitstreamError::Truncated(TruncatedPart::PpsCount))
                } else {
                    match sized_record_spans(s, off + 1, (s[off] & 0x1F) as nat) {
                        Err(sf) => Err(shortfall_error(ParamSetKind::Pps, sf)),
                        Ok((pps, _)) => Ok((sps, pps)),
                    }
                }
            },
        }
    }
}

/// The decoded AVC decoder-configuration record: the fixed header fields and
/// the SPS and PPS parameter-set NAL units it carries, as views into the
/// parsed buffer.
#[derive(Debug)]
pub struct AVCHeader<'input> {
    /// The configuration version; always 1 in a record that parsed.
    pub version: u8,
    /// The AVC profile indication byte.
    pub avc_profile: u8,
    /// The profile-compatibility byte.
    pub avc_compatability: u8,
    /// The AVC level indication byte.
    pub avc_level: u8,
    /// The declared NAL unit length-prefix width minus one, in 0..=3.
    pub nalu_length_size_minus_one: u8,
    /// The SPS NAL units, in encounter order.
    pub sps: Vec<&'input [u8]>,
    /// The PPS NAL units, in encounter order.
    pub pps: Vec<&'input [u8]>,
}

impl<'input> AVCHeader<'input> {
    /// Parses the fixed binary configuration record: checks the version byte
    /// and the reserved bits, then collects the declared SPS and PPS NAL
    /// units, validating incrementally that each size field and payload fits
    /// the remaining buffer. Succeeds, with exactly the views `record_result`
    /// names, if and only if the record is well formed.
    pub fn new(data: &'input [u8]) -> (r: Result<AVCHeader<'input>, BitstreamError>)
        ensures
            match r {
                Ok(h) => record_result(data@) matches Ok(spans) && {
                    &&& h.version == 1
                    &&& h.avc_profile == data@[1]
                    &&& h.avc_compatability == data@[2]
                    &&& h.avc_level == data@[3]
                    &&& h.nalu_length_size_minus_one == data@[4] & 0x03
                    &&& h.sps@.len() == spans.0.len()
                    &&& forall|j: int|
                        0 <= j < spans.0.len() ==> h.sps@[j]@ == data@.subrange(
                            #[trigger] spans.0[j].0,
                            spans.0[j].1,
                        )
                    &&& h.pps@.len() == spans.1.len()
                    &&& forall|j: int|
                        0 <= j < spans.1.len() ==> h.pps@[j]@ == data@.subrange(
                            #[trigger] spans.1[j].0,
                            spans.1[j].1,
                        )
                },
                Err(e) => record_result(data@) matches Err(e2) && e == e2,
            },
    {
        if data.len() < 7 {
            return Err(BitstreamError::Truncated(TruncatedPart::RecordHeader));
        }
        let version = data[0];
        let avc_profile = data[1];
        let avc_compatability = data[2];
        let avc_level = data[3];
        let nalu_header_byte = data[4];
        let nalu_length_size_minus_one = nalu_header_byte & 0x03;

        if version != 1 {
            return Err(BitstreamError::InvalidFormat(FormatViolation::Version));
        }

        if nalu_header_byte & 0xFC != 0xFC {
            return Err(BitstreamError::InvalidFormat(FormatViolation::ReservedBits));
        }

        let mut offset: usize = 5;
        let sps_count = data[offset] & 0x1F;
        offset = offset + 1;
        let sps = match Self::parse_nalus(data, sps_count, &mut offset, ParamSetKind::Sps) {
            Ok(v) => v,
            Err(e) => {
                return Err(e);
            },
        };

        if offset >= data.len() {
            return Err(BitstreamError::Truncated(TruncatedPart::PpsCount));
        }
        let pps_count = data[offset] & 0x1F;
        offset = offset + 1;
        let pps = match Self::parse_nalus(data, pps_count, &mut offset, ParamSetKind::Pps) {
            Ok(v) => v,
            Err(e) => {
                return Err(e);
            },
        };

        Ok(
            AVCHeader {
                version,
                avc_profile,
                avc_compatability,
                avc_level,
                nalu_length_size_minus_one,
                sps,
                pps,
            },
        )
    }

    /// Reads `count` sized parameter-set records (`{u16 length, payload}`)
    /// from `data` at `*offset`, leaving `*offset` just past the last one;
    /// a record that does not fit yields the truncation error of `kind`.
    #[verifier::loop_isolation(false)]
    fn parse_nalus<'a>(
        data: &'a [u8],
        count: u8,
        offset: &mut usize,
        kind: ParamSetKind,
    ) -> (r: Result<Vec<&'a [u8]>, BitstreamError>)
        requires
            *old(offset) <= data@.len(),
        ensures
            match r {
                Ok(nalus) => sized_record_spans(data@, *old(offset) as int, count as nat)
                    matches Ok((spans, end)) && {
                    &&& nalus@.len() == spans.len()
                    &&& forall|j: int|
                        0 <= j < spans.len() ==> nalus@[j]@ == data@.subrange(
                            #[trigger] spans[j].0,
                            spans[j].1,
                        )
                    &&& *final(offset) == end
                },
                Err(e) => sized_record_spans(data@, *old(offset) as int, count as nat)
                    matches Err(sf) && e == shortfall_error(kind, sf),
            },
    {
        let ghost s = data@;
        let ghost off0 = *offset as int;
        let mut nalus: Vec<&'a [u8]> = Vec::new();
        let mut j: u8 = 0;

        proof {
            match sized_record_spans(s, off0, count as nat) {
                Ok((spans, end)) => {
                    assert(spans =~= spans.subrange(0, nalus@.len() as int) + sized_record_spans(
                        s,
                        *offset as int,
                        (count - j) as nat,
                    )->Ok_0.0);
                },
                Err(_) => {},
            }
        }
        while j < count
            invariant
                j <= count,
                *offset <= data@.len(),
                match sized_record_spans(s, off0, (count - j) as nat) {
                    Ok(_) => true,
                    Err(_) => true,
                },
                sized_record_spans(s, off0, count as nat) matches Ok((spans, end)) ==> {
                    &&& sized_record_spans(s, *offset as int, (count - j) as nat) matches Ok(
                        (rest, end2),
                    )
                    &&& spans == spans.subrange(0, nalus@.len() as int) + rest
                    &&& end == end2
                    &&& nalus@.len() + rest.len() == spans.len()
                    &&& forall|m: int|
                        #![trigger nalus@[m]]
                        0 <= m < nalus@.len() ==> nalus@[m]@ == s.subrange(spans[m].0, spans[m].1)
                },
                sized_record_spans(s, off0, count as nat) matches Err(sf) ==> sized_record_spans(
                    s,
                    *offset as int,
                    (count - j) as nat,
                ) == Err::<(Seq<(int, int)>, int), RecordShortfall>(sf),
            decreases count - j,
        {
            if data.len() - *offset < 2 {
                return Err(match kind {
                    ParamSetKind::Sps => BitstreamError::Truncated(TruncatedPart::SpsSize),
                    ParamSetKind::Pps => BitstreamError::Truncated(TruncatedPart::PpsSize),
                });
            }
            let size: usize = (data[*offset] as usize) * 256 + (data[*offset + 1] as usize);
            proof {
                assert(size == be16(s, *offset as int));
            }
            if size > data.len() - (*offset + 2) {
                return Err(match kind {
                    ParamSetKind::Sps => BitstreamError::Truncated(TruncatedPart::SpsPayload),
                    ParamSetKind::Pps => BitstreamError::Truncated(TruncatedPart::PpsPayload),
                });
            }
            let ghost prev_off = *offset as int;
            let payload = slice_subrange(data, *offset + 2, *offset + 2 + size);
            proof {
                match sized_record_spans(s, off0, count as nat) {
                    Ok((spans, end)) => {
                        let rest = sized_record_spans(s, prev_off, (count - j) as nat)->Ok_0.0;
                        let rest2 = sized_record_spans(
                            s,
                            prev_off + 2 + size,
                            (count - j - 1) as nat,
                        )->Ok_0.0;
                        assert(rest == seq![(prev_off + 2, prev_off + 2 + size)] + rest2);
                        assert(spans == spans.subrange(0, nalus@.len() as int) + rest);
                        assert(spans =~= (spans.subrange(0, nalus@.len() as int) + seq![
                            (prev_off + 2, prev_off + 2 + size),
                        ]) + rest2);
                        assert(spans[nalus@.len() as int] == (prev_off + 2, prev_off + 2 + size));
                        assert(spans.subrange(0, nalus@.len() as int + 1) =~= spans.subrange(
                            0,
                            nalus@.len() as int,
                        ) + seq![(prev_off + 2, prev_off + 2 + size)]);
                    },
                    Err(_) => {},
                }
            }
            let ghost prev_nalus = nalus@;
            nalus.push(payload);
            *offset = *offset + 2 + size;
            j = j + 1;
            proof {
                match sized_record_spans(s, off0, count as nat) {
                    Ok((spans, end)) => {
                        assert forall|m: int| 0 <= m < nalus@.len() implies (#[trigger] nalus@[m])@
                            == s.subrange(spans[m].0, spans[m].1) by {
                            if m < prev_nalus.len() {
                                assert(nalus@[m] == prev_nalus[m]);
                            } else {
                                assert(nalus@[m] == payload);
                            }
                        }
                    },
                    Err(_) => {},
                }
            }
        }
        Ok(nalus)
    }
}

/// The payload spans of a length-prefixed stream read with a
/// `size`-byte big-endian length field before each NAL unit, in order; or
/// the truncation error of the first record that does not fit. The read ends
/// exactly at the end of the buffer.
pub open spec fn avcc_scan(s: Seq<u8>, i: int, size: nat) -> Result<Seq<(int, int)>, BitstreamError>
    decreases s.len() - i,
    when 1 <= size && 0 <= i
{
    if i >= s.len() {
        Ok(seq![])
    } else if i + size > s.len() {
        Err(BitstreamError::Truncated(TruncatedPart::NaluLength))
    } else {
        let l = be_len(s, i, size);
        if i + size + l > s.len() {
            Err(BitstreamError::Truncated(TruncatedPart::NaluPayload))
        } else {
            match avcc_scan(s, i + size + l, size) {
                Ok(rest) => Ok(seq![(i + size as int, i + size + l)] + rest),
                Err(e) => Err(e),
            }
        }
    }
}

/// The big-endian value of the `n` bytes of `s` starting at `i`.
pub open spec fn be_len(s: Seq<u8>, i: int, n: nat) -> nat
    decreases n,
{
    if n == 0 {
        0
    } else {
        (be_len(s, i, (n - 1) as nat) * 256 + s[i + n - 1]) as nat
    }
}

/// A big-endian length of up to 4 bytes is below `2^32`.
proof fn lemma_be_len_bound(s: Seq<u8>, i: int, n: nat)
    requires
        n <= 4,
    ensures
        be_len(s, i, n) < 0x1_0000_0000,
        n == 0 ==> be_len(s, i, n) == 0,
        n <= 1 ==> be_len(s, i, n) < 0x100,
        n <= 2 ==> be_len(s, i, n) < 0x1_0000,
        n <= 3 ==> be_len(s, i, n) < 0x100_0000,
    decreases n,
{
    if n > 0 {
        lemma_be_len_bound(s, i, (n - 1) as nat);
    }
}

/// Splits a length-prefixed stream into its NAL unit views: repeatedly reads
/// a `nalu_length_size`-byte big-endian length and then that many payload
/// bytes, until the cursor lands exactly on the end of the buffer. Fails with
/// `InvalidParameter` for a length size outside 1..=4, and with the
/// truncation error of the first record that does not fit; succeeds, with
/// exactly the views of `avcc_scan`, otherwise.
#[verifier::loop_isolation(false)]
pub fn read_avcc_stream<'a>(data: &'a [u8], nalu_length_size: usize) -> (r: Result<
    Vec<&'a [u8]>,
    BitstreamError,
>)
    ensures
        match r {
            Ok(nalus) => {
                &&& 1 <= nalu_length_size <= 4
                &&& avcc_scan(data@, 0, nalu_length_size as nat) matches Ok(spans) && {
                    &&& nalus@.len() == spans.len()
                    &&& forall|j: int|
                        0 <= j < spans.len() ==> nalus@[j]@ == data@.subrange(
                            #[trigger] spans[j].0,
                            spans[j].1,
                        )
                }
            },
            Err(e) => {
                if nalu_length_size < 1 || nalu_length_size > 4 {
                    e == BitstreamError::InvalidParameter
                } else {
                    avcc_scan(data@, 0, nalu_length_size as nat) matches Err(e2) && e == e2
                }
            },
        },
{
    if nalu_length_size < 1 || nalu_length_size > 4 {
        return Err(BitstreamError::InvalidParameter);
    }

    let ghost s = data@;
    let ghost size = nalu_length_size as nat;
    let mut nalus: Vec<&'a [u8]> = Vec::new();
    let mut i: usize = 0;

    proof {
        match avcc_scan(s, 0, size) {
            Ok(spans) => {
                assert(spans =~= spans.subrange(0, 0) + spans);
            },
            Err(_) => {},
        }
    }
    while i < data.len()
        invariant
            i <= data.len(),
            avcc_scan(s, 0, size) matches Ok(spans) ==> {
                &&& avcc_scan(s, i as int, size) matches Ok(rest)
                &&& spans == spans.subrange(0, nalus@.len() as int) + rest
                &&& nalus@.len() + rest.len() == spans.len()
                &&& forall|m: int|
                    #![trigger nalus@[m]]
                    0 <= m < nalus@.len() ==> nalus@[m]@ == s.subrange(spans[m].0, spans[m].1)
            },
            avcc_scan(s, 0, size) matches Err(e) ==> avcc_scan(s, i as int, size) == Err::<
                Seq<(int, int)>,
                BitstreamError,
            >(e),
        decreases data.len() - i,
    {
        if data.len() - i < nalu_length_size {
            return Err(BitstreamError::Truncated(TruncatedPart::NaluLength));
        }

        // the `nalu_length_size`-byte big-endian length field
        let mut amount_to_read: usize = 0;
        let mut b: usize = 0;
        while b < nalu_length_size
            invariant
                b <= nalu_length_size,
                i + nalu_length_size <= data.len(),
                amount_to_read == be_len(s, i as int, b as nat),
                amount_to_read < 0x1_0000_0000,
            decreases nalu_length_size - b,
        {
            proof {
                lemma_be_len_bound(s, i as int, b as nat);
            }
            amount_to_read = amount_to_read * 256 + (data[i + b] as usize);
            b = b + 1;
        }

        let ghost prev_i = i as int;
        let ghost l = be_len(s, prev_i, size);

        i = i + nalu_length_size;
        if amount_to_read > data.len() - i {
            return Err(BitstreamError::Truncated(TruncatedPart::NaluPayload));
        }

        proof {
            match avcc_scan(s, 0, size) {
                Ok(spans) => {
                    let rest = avcc_scan(s, prev_i, size)->Ok_0;
                    let rest2 = avcc_scan(s, prev_i + size + l, size)->Ok_0;
                    assert(rest == seq![(prev_i + size as int, prev_i + size + l)] + rest2);
                    assert(spans =~= (spans.subrange(0, nalus@.len() as int) + seq![
                        (prev_i + size as int, prev_i + size + l),
                    ]) + rest2);
                    assert(spans[nalus@.len() as int] == (prev_i + size as int, prev_i + size + l));
                    assert(spans.subrange(0, nalus@.len() as int + 1) =~= spans.subrange(
                        0,
                        nalus@.len() as int,
                    ) + seq![(prev_i + size as int, prev_i + size + l)]);
                },
                Err(_) => {},
            }
        }
        let ghost prev_nalus = nalus@;
        let payload = slice_subrange(data, i, i + amount_to_read);
        nalus.push(payload);
        i = i + amount_to_read;
        proof {
            match avcc_scan(s, 0, size) {
                Ok(spans) => {
                    assert forall|m: int| 0 <= m < nalus@.len() implies (#[trigger] nalus@[m])@
                        == s.subrange(spans[m].0, spans[m].1) by {
                        if m < prev_nalus.len() {
                            assert(nalus@[m] == prev_nalus[m]);
                        } else {
                            assert(nalus@[m] == payload);
                        }
                    }
                },
                Err(_) => {},
            }
        }
    }

    proof {
        match avcc_scan(s, 0, size) {
            Ok(spans) => {
                assert(spans =~= spans.subrange(0, spans.len() as int));
            },
            Err(_) => {},
        }
    }
    Ok(nalus)
}

} // verus!
