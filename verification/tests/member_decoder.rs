use std::io::Write;

use legra_chunk::office::decoder::{MemberDecoder, METHOD_DEFLATE, METHOD_STORED};
use legra_chunk::office::fault::OfficeFault;
use legra_chunk::office::decoder::{after_drain_round, RoundDecision};
use legra_chunk::inflate::{DrainFlush, RoundStatus};

fn raw_deflate(data: &[u8]) -> Vec<u8> {
    let mut encoder = flate2::write::DeflateEncoder::new(Vec::new(), flate2::Compression::default());
    encoder.write_all(data).unwrap();
    encoder.finish().unwrap()
}

fn noise(len: usize) -> Vec<u8> {
    let mut state: u32 = 0x1234_5678;
    (0..len)
        .map(|_| {
            state = state.wrapping_mul(1_664_525).wrapping_add(1_013_904_223);
            (state >> 24) as u8
        })
        .collect()
}

/// Push every byte, collecting decoded bytes as they appear.
fn decode(method: u16, bytes: &[u8]) -> (Result<(u32, u64), OfficeFault>, Vec<u8>) {
    let mut decoder = MemberDecoder::new(method).unwrap();
    let mut out = Vec::new();
    for &byte in bytes {
        if let Err(fault) = decoder.push(byte) {
            return (Err(fault), out);
        }
        out.extend(decoder.take_pending());
    }
    let closed = decoder.close();
    out.extend(decoder.take_pending());
    (closed, out)
}

#[test]
fn stored_member_passes_through_with_its_crc() {
    let (closed, out) = decode(METHOD_STORED, b"hello");
    assert_eq!(closed, Ok((crc32fast::hash(b"hello"), 5)));
    assert_eq!(out, b"hello");
}

#[test]
fn deflated_member_inflates_to_its_bytes() {
    let data: Vec<u8> = b"canonical bytes ".iter().cycle().take(12_000).copied().collect();
    let (closed, out) = decode(METHOD_DEFLATE, &raw_deflate(&data));
    assert_eq!(closed, Ok((crc32fast::hash(&data), data.len() as u64)));
    assert_eq!(out, data);
}

#[test]
fn deflated_member_longer_than_one_stage_inflates() {
    let data = noise(20_000);
    let compressed = raw_deflate(&data);
    assert!(compressed.len() > 4096);
    let (closed, out) = decode(METHOD_DEFLATE, &compressed);
    assert_eq!(closed, Ok((crc32fast::hash(&data), 20_000)));
    assert_eq!(out, data);
}

#[test]
fn empty_deflated_member_decodes_to_nothing() {
    let (closed, out) = decode(METHOD_DEFLATE, &raw_deflate(b""));
    assert_eq!(closed, Ok((0, 0)));
    assert!(out.is_empty());
}

#[test]
fn other_methods_are_unsupported() {
    assert!(matches!(MemberDecoder::new(12), Err(OfficeFault::UnsupportedMethod)));
    assert!(MemberDecoder::new(METHOD_STORED).is_ok());
}

#[test]
fn corrupt_deflate_is_malformed() {
    let (closed, _) = decode(METHOD_DEFLATE, &[0xFF; 10]);
    assert_eq!(closed, Err(OfficeFault::MalformedDeflate));
}

#[test]
fn truncated_deflate_is_out_of_step() {
    let compressed = raw_deflate(&noise(3000));
    let (closed, _) = decode(METHOD_DEFLATE, &compressed[..compressed.len() / 2]);
    assert_eq!(closed, Err(OfficeFault::DeflateGeometry));
}

#[test]
fn bytes_after_the_deflate_stream_are_out_of_step() {
    let mut compressed = raw_deflate(b"short member");
    compressed.extend_from_slice(&[1, 2, 3]);
    let (closed, _) = decode(METHOD_DEFLATE, &compressed);
    assert_eq!(closed, Err(OfficeFault::DeflateGeometry));
}

#[test]
fn each_inflate_status_leads_to_its_decision() {
    assert!(matches!(after_drain_round(RoundStatus::StreamEnd, false, false, DrainFlush::More), RoundDecision::Ended));
    assert!(matches!(after_drain_round(RoundStatus::Progress, false, false, DrainFlush::More), RoundDecision::Continue));
    assert!(matches!(after_drain_round(RoundStatus::Progress, true, false, DrainFlush::More), RoundDecision::Stop));
    assert!(matches!(after_drain_round(RoundStatus::Progress, true, false, DrainFlush::Finish), RoundDecision::Continue));
    assert!(matches!(
        after_drain_round(RoundStatus::Progress, true, true, DrainFlush::Finish),
        RoundDecision::Fail(OfficeFault::DeflateGeometry)
    ));
    assert!(matches!(after_drain_round(RoundStatus::BufferError, false, false, DrainFlush::More), RoundDecision::Stop));
    assert!(matches!(
        after_drain_round(RoundStatus::BufferError, false, false, DrainFlush::Finish),
        RoundDecision::Fail(OfficeFault::DeflateGeometry)
    ));
    assert!(matches!(
        after_drain_round(RoundStatus::Failed, true, true, DrainFlush::More),
        RoundDecision::Fail(OfficeFault::MalformedDeflate)
    ));
}
