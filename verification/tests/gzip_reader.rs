use std::io::Write;

use legra_chunk::decompose::fault::OpaqueReason;
use legra_chunk::decompose::gzip::GzipReader;
use legra_chunk::inflate::RoundStatus;
use legra_chunk::decompose::gzip::{after_body_round, BodyDecision};

fn gzip(data: &[u8]) -> Vec<u8> {
    let mut encoder = flate2::write::GzEncoder::new(Vec::new(), flate2::Compression::default());
    encoder.write_all(data).unwrap();
    encoder.finish().unwrap()
}

fn raw_deflate(data: &[u8]) -> Vec<u8> {
    let mut encoder = flate2::write::DeflateEncoder::new(Vec::new(), flate2::Compression::default());
    encoder.write_all(data).unwrap();
    encoder.finish().unwrap()
}

/// A member framed by hand: the given fixed header and optional
/// parts, a raw deflate body, and the CRC32 + ISIZE trailer.
fn member(header: &[u8], data: &[u8]) -> Vec<u8> {
    let mut out = header.to_vec();
    out.extend(raw_deflate(data));
    out.extend(crc32fast::hash(data).to_le_bytes());
    out.extend((data.len() as u32).to_le_bytes());
    out
}

fn read(bytes: &[u8]) -> (Result<(), OpaqueReason>, Vec<u8>, GzipReader) {
    let mut reader = GzipReader::new();
    let mut out = Vec::new();
    for &byte in bytes {
        if let Err(reason) = reader.push(byte) {
            return (Err(reason), out, reader);
        }
        out.extend(reader.take_pending());
    }
    let finished = reader.finish();
    (finished, out, reader)
}

#[test]
fn a_gzip_stream_decompresses_to_its_bytes() {
    let data: Vec<u8> = b"the quick brown fox ".iter().cycle().take(50_000).copied().collect();
    let (finished, out, _) = read(&gzip(&data));
    assert_eq!(finished, Ok(()));
    assert_eq!(out, data);
}

#[test]
fn an_empty_member_decompresses_to_nothing() {
    let (finished, out, _) = read(&gzip(b""));
    assert_eq!(finished, Ok(()));
    assert!(out.is_empty());
}

#[test]
fn concatenated_members_form_one_stream() {
    let mut bytes = gzip(b"first half, ");
    bytes.extend(gzip(b"second half"));
    let (finished, out, _) = read(&bytes);
    assert_eq!(finished, Ok(()));
    assert_eq!(out, b"first half, second half");
}

#[test]
fn the_first_members_name_is_kept() {
    let mut encoder = flate2::GzBuilder::new()
        .filename("notes.txt")
        .comment("a comment")
        .extra(vec![1, 2, 3, 4])
        .write(Vec::new(), flate2::Compression::default());
    encoder.write_all(b"named").unwrap();
    let mut bytes = encoder.finish().unwrap();
    let mut second = flate2::GzBuilder::new()
        .filename("other.txt")
        .write(Vec::new(), flate2::Compression::default());
    second.write_all(b" twice").unwrap();
    bytes.extend(second.finish().unwrap());
    let (finished, out, reader) = read(&bytes);
    assert_eq!(finished, Ok(()));
    assert_eq!(out, b"named twice");
    assert_eq!(reader.stored_name(), Some(&b"notes.txt"[..]));
}

#[test]
fn a_stream_without_a_name_has_none() {
    let (_, _, reader) = read(&gzip(b"anonymous"));
    assert_eq!(reader.stored_name(), None);
}

#[test]
fn a_header_crc_is_skipped() {
    let header = [0x1F, 0x8B, 8, 2, 0, 0, 0, 0, 0, 0xFF, 0xAB, 0xCD];
    let (finished, out, _) = read(&member(&header, b"guarded header"));
    assert_eq!(finished, Ok(()));
    assert_eq!(out, b"guarded header");
}

#[test]
fn a_wrong_magic_is_reported_at_the_header_end() {
    let (result, _, _) = read(&[0x1F, 0x8C, 8, 0, 0, 0, 0, 0, 0, 0xFF, 1, 2]);
    assert_eq!(result, Err(OpaqueReason::Malformed { detail: "not a gzip header", offset: 9 }));
}

#[test]
fn other_compression_methods_are_unsupported() {
    let (result, _, _) = read(&[0x1F, 0x8B, 7, 0, 0, 0, 0, 0, 0, 0xFF]);
    assert_eq!(result, Err(OpaqueReason::UnsupportedCompression));
}

#[test]
fn reserved_flag_bits_are_rejected() {
    let (result, _, _) = read(&[0x1F, 0x8B, 8, 0x20, 0, 0, 0, 0, 0, 0xFF]);
    assert_eq!(result, Err(OpaqueReason::Malformed { detail: "reserved gzip flag bits set", offset: 9 }));
}

#[test]
fn a_crc_mismatch_is_reported_at_the_trailer_end() {
    let mut bytes = gzip(b"checked bytes");
    let len = bytes.len();
    bytes[len - 8] ^= 0xFF;
    let (result, _, _) = read(&bytes);
    assert_eq!(
        result,
        Err(OpaqueReason::Malformed { detail: "gzip CRC mismatch", offset: (len - 1) as u64 })
    );
}

#[test]
fn an_isize_mismatch_is_reported() {
    let mut bytes = gzip(b"sized bytes");
    let len = bytes.len();
    bytes[len - 1] ^= 0x01;
    let (result, _, _) = read(&bytes);
    assert_eq!(
        result,
        Err(OpaqueReason::Malformed { detail: "gzip ISIZE mismatch", offset: (len - 1) as u64 })
    );
}

#[test]
fn a_truncated_stream_is_reported_at_its_end() {
    let bytes = gzip(b"cut short before the trailer");
    let cut = &bytes[..bytes.len() - 3];
    let (result, _, _) = read(cut);
    assert_eq!(
        result,
        Err(OpaqueReason::Malformed { detail: "gzip stream is truncated", offset: cut.len() as u64 })
    );
}

#[test]
fn a_corrupt_body_is_malformed() {
    let header = [0x1F, 0x8B, 8, 0, 0, 0, 0, 0, 0, 0xFF];
    let mut bytes = header.to_vec();
    bytes.push(0xFF);
    let (result, _, _) = read(&bytes);
    assert_eq!(
        result,
        Err(OpaqueReason::Malformed { detail: "gzip deflate body is malformed", offset: 10 })
    );
}

#[test]
fn too_long_a_name_is_over_bound() {
    let mut bytes = vec![0x1F, 0x8B, 8, 8, 0, 0, 0, 0, 0, 0xFF];
    bytes.extend(std::iter::repeat(b'n').take(4097));
    let (result, _, _) = read(&bytes);
    assert_eq!(result, Err(OpaqueReason::MetadataOverBound));
}

#[test]
fn each_body_status_leads_to_its_decision() {
    assert!(matches!(after_body_round(RoundStatus::StreamEnd, false, 0), BodyDecision::Ended));
    assert!(matches!(after_body_round(RoundStatus::Progress, true, 10), BodyDecision::Done));
    assert!(matches!(after_body_round(RoundStatus::Progress, true, 16384), BodyDecision::Again));
    assert!(matches!(after_body_round(RoundStatus::Progress, false, 0), BodyDecision::Again));
    assert!(matches!(after_body_round(RoundStatus::BufferError, true, 0), BodyDecision::Done));
    assert!(matches!(
        after_body_round(RoundStatus::BufferError, false, 0),
        BodyDecision::Fail("gzip deflate body ends out of step")
    ));
    assert!(matches!(
        after_body_round(RoundStatus::Failed, true, 0),
        BodyDecision::Fail("gzip deflate body is malformed")
    ));
}
