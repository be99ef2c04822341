use bitstream::avcc::{read_avcc_stream, AVCHeader};
use bitstream::error::BitstreamError;

type Result<T> = std::result::Result<T, BitstreamError>;

/// Builds a minimal AVCC header-like buffer in memory, returning raw bytes.
fn build_avcc_header(
    version: u8,
    mut nalu_len_size_minus_one: u8,
    sps_list: &[&[u8]],
    pps_list: &[&[u8]],
) -> Vec<u8> {
    let avc_profile = 0x42; // "Baseline" example
    let avc_compat = 0x00;
    let avc_level = 0x1E;

    if nalu_len_size_minus_one <= 3 {
        nalu_len_size_minus_one |= 0b11111100;
    }

    let mut header = vec![
        version,
        avc_profile,
        avc_compat,
        avc_level,
        nalu_len_size_minus_one,
        0,
    ];

    // SPS count
    let sps_count = sps_list.len() as u8;
    header[5] = 0b11100000 | sps_count; // store sps_count in lower 5 bits

    for sps in sps_list {
        let len_bytes = (sps.len() as u16).to_be_bytes();
        header.push(len_bytes[0]);
        header.push(len_bytes[1]);
        header.extend_from_slice(sps);
    }

    // PPS count
    let pps_count = pps_list.len() as u8;
    header.push(0b11100000 | pps_count); // store in lower 5 bits

    for pps in pps_list {
        let len_bytes = (pps.len() as u16).to_be_bytes();
        header.push(len_bytes[0]);
        header.push(len_bytes[1]);
        header.extend_from_slice(pps);
    }

    header
}

#[test]
fn test_avcc_header_minimal_ok() -> Result<()> {
    // 1 SPS with 2 bytes, 1 PPS with 1 byte
    let sps_data = &[&[0xAA, 0xBB][..]];
    let pps_data = &[&[0xCC][..]];

    let header_bytes = build_avcc_header(1, 1, sps_data, pps_data);

    let parsed = AVCHeader::new(&header_bytes)?;
    assert_eq!(parsed.version, 1);
    assert_eq!(parsed.nalu_length_size_minus_one, 1);
    assert_eq!(parsed.sps.len(), 1);
    assert_eq!(parsed.sps[0], &[0xAA, 0xBB]);
    assert_eq!(parsed.pps.len(), 1);
    assert_eq!(parsed.pps[0], &[0xCC]);
    Ok(())
}

#[test]
fn test_avcc_header_multiple_sps_pps() -> Result<()> {
    // 2 SPS, 2 PPS
    let sps_data = &[&[0x01, 0x02][..], &[0x03, 0x04, 0x05][..]];
    let pps_data = &[&[0x11, 0x22, 0x33][..], &[0x44][..]];

    let header_bytes = build_avcc_header(1, 3, sps_data, pps_data);
    let parsed = AVCHeader::new(&header_bytes)?;
    assert_eq!(parsed.version, 1);
    assert_eq!(parsed.nalu_length_size_minus_one, 3);
    assert_eq!(parsed.sps.len(), 2);
    assert_eq!(parsed.sps[0], &[0x01, 0x02]);
    assert_eq!(parsed.sps[1], &[0x03, 0x04, 0x05]);
    assert_eq!(parsed.pps.len(), 2);
    assert_eq!(parsed.pps[0], &[0x11, 0x22, 0x33]);
    assert_eq!(parsed.pps[1], &[0x44]);
    Ok(())
}

#[test]
fn test_avcc_header_incorrect_version() {
    let header_bytes = build_avcc_header(2, 0, &[], &[]);
    let err = AVCHeader::new(&header_bytes).unwrap_err();
    assert!(err.message().contains("Incorrect version"));
}

#[test]
fn test_avcc_header_invalid_nalu_length_size() {
    // nalu_length_size_minus_one = 5 is invalid
    let header_bytes = build_avcc_header(1, 5, &[], &[]);
    let err = AVCHeader::new(&header_bytes).unwrap_err();
    assert!(err
        .message()
        .contains("Invalid reserved bits in AVCC NALU length size byte"));
}

#[test]
fn test_avcc_header_incomplete_sps_field() {
    // We'll say we have 1 SPS in the header, but won't provide enough bytes for size
    let mut header_bytes = build_avcc_header(1, 0, &[], &[]);
    // We claimed sps_count = 1, but we don't actually put in the two size bytes + data
    // so let's manipulate the relevant byte ( index = 5 ) to set sps_count=1
    header_bytes[5] = 0b11100001; // sps_count = 1
    header_bytes.truncate(6); // minimal length, no size, no data

    let err = AVCHeader::new(&header_bytes).unwrap_err();
    assert!(err.message().contains("AVCC header is below minimum size"));
}

#[test]
fn test_avcc_header_incomplete_sps_payload() {
    // We'll say 1 SPS of length 3, but only provide 2 bytes
    let mut header_bytes = build_avcc_header(1, 0, &[], &[]);
    header_bytes[5] = 0b11100001;
    header_bytes.extend_from_slice(&3u16.to_be_bytes()); // size = 3
    // We'll only add 2 bytes of actual data
    header_bytes.push(0xAA);
    header_bytes.push(0xBB);

    let err = AVCHeader::new(&header_bytes).unwrap_err();
    assert!(err.message().contains("Not enough data for SPS payload"));
}

/// Helper to build raw AVCC-like stream:
fn build_avcc_stream(nalu_length_size: usize, nalus: &[&[u8]]) -> Vec<u8> {
    let mut out = Vec::new();
    for nalu in nalus {
        let length = nalu.len() as u32;
        match nalu_length_size {
            1 => out.push(length as u8),
            2 => out.extend_from_slice(&(length as u16).to_be_bytes()),
            3 => {
                let b1 = (length >> 16) as u8;
                let b2 = (length >> 8) as u8;
                let b3 = length as u8;
                out.extend_from_slice(&[b1, b2, b3]);
            }
            4 => out.extend_from_slice(&(length).to_be_bytes()),
            _ => panic!("Invalid test setup"),
        }
        out.extend_from_slice(nalu);
    }
    out
}

#[test]
fn test_read_avcc_stream_1_byte_size() -> Result<()> {
    // 2 NALUs: each length in 1 byte
    let stream = build_avcc_stream(1, &[&[0xAA, 0xBB], &[0xCC]]);
    let nalus = read_avcc_stream(&stream, 1)?;
    assert_eq!(nalus.len(), 2);
    assert_eq!(nalus[0], &[0xAA, 0xBB]);
    assert_eq!(nalus[1], &[0xCC]);
    Ok(())
}

#[test]
fn test_read_avcc_stream_2_byte_size() -> Result<()> {
    // 1 NALU of length 3
    let stream = build_avcc_stream(2, &[&[0x01, 0x02, 0x03]]);
    let nalus = read_avcc_stream(&stream, 2)?;
    assert_eq!(nalus.len(), 1);
    assert_eq!(nalus[0], &[0x01, 0x02, 0x03]);
    Ok(())
}

#[test]
fn test_read_avcc_stream_4_byte_size_multiple() -> Result<()> {
    // 2 NALUs, each length stored in 4 bytes
    let stream = build_avcc_stream(1, &[&[0xDE, 0xAD], &[0xBE, 0xEF, 0x01]]);
    let nalus = read_avcc_stream(&stream, 1)?;
    assert_eq!(nalus.len(), 2);
    assert_eq!(nalus[0], &[0xDE, 0xAD]);
    assert_eq!(nalus[1], &[0xBE, 0xEF, 0x01]);
    Ok(())
}

#[test]
fn test_read_avcc_stream_empty() -> Result<()> {
    // No data
    let nalus = read_avcc_stream(&[], 1)?;
    assert_eq!(nalus.len(), 0);
    Ok(())
}

#[test]
fn test_read_avcc_stream_invalid_nalu_length_size_param() {
    let err = read_avcc_stream(&[], 5).unwrap_err();
    assert!(err.message().contains("Invalid NALU length size"));
}

#[test]
fn test_read_avcc_stream_nalu_exceeds_data() {
    // We claim NALU length is 5 bytes, but only provide 3
    let mut data = vec![5u8]; // length = 5
    data.extend_from_slice(&[0x01, 0x02, 0x03]); // only 3 bytes
    let err = read_avcc_stream(&data, 1).unwrap_err();
    assert!(err.message().contains("NALU length exceeds available data"));
}
