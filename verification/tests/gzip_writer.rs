use std::io::Read;

use legra_chunk::decompose::gzip::GzipReader;
use legra_chunk::decompose::writer::gzip::GzipWriter;
use legra_chunk::decompose::writer::gzip::{round_fault, DeflateStatus, GzipWriteFault};

fn write(windows: &[&[u8]]) -> Vec<Vec<u8>> {
    let mut writer = GzipWriter::new();
    let mut emit = Vec::new();
    for window in windows {
        writer.push(window, &mut emit).unwrap();
    }
    writer.finish(&mut emit).unwrap();
    emit
}

fn read_back(bytes: &[u8]) -> Vec<u8> {
    let mut reader = GzipReader::new();
    let mut out = Vec::new();
    for &byte in bytes {
        reader.push(byte).unwrap();
        out.extend(reader.take_pending());
    }
    reader.finish().unwrap();
    out
}

#[test]
fn gzip_writer_output_reads_back_through_the_reader() {
    let data: Vec<u8> = (0..100_000u32).map(|i| (i % 251) as u8).collect();
    let chunks = write(&[&data[..40_000], &data[40_000..]]);
    assert_eq!(read_back(&chunks.concat()), data);
}

#[test]
fn gzip_writer_output_is_standard_gzip() {
    let chunks = write(&[b"hello ", b"gzip"]);
    let bytes = chunks.concat();
    let mut decoder = flate2::read::GzDecoder::new(&bytes[..]);
    let mut out = Vec::new();
    decoder.read_to_end(&mut out).unwrap();
    assert_eq!(out, b"hello gzip");
}

#[test]
fn gzip_writer_frames_header_first_and_trailer_last() {
    let chunks = write(&[b"framed"]);
    assert_eq!(chunks[0], vec![0x1F, 0x8B, 0x08, 0, 0, 0, 0, 0, 0, 0xFF]);
    let n = chunks.len();
    assert_eq!(chunks[n - 2], crc32fast::hash(b"framed").to_le_bytes().to_vec());
    assert_eq!(chunks[n - 1], 6u32.to_le_bytes().to_vec());
}

#[test]
fn gzip_writer_is_deterministic() {
    assert_eq!(write(&[b"same input"]).concat(), write(&[b"same ", b"input"]).concat());
}

#[test]
fn an_empty_gzip_stream_reads_back_empty() {
    let mut emit = Vec::new();
    GzipWriter::default().finish(&mut emit).unwrap();
    assert_eq!(emit[0].len(), 10);
    assert!(read_back(&emit.concat()).is_empty());
}

#[test]
fn only_a_failed_deflate_call_is_a_fault() {
    assert_eq!(round_fault(DeflateStatus::Failed), Some(GzipWriteFault::CompressorRejected));
    assert_eq!(round_fault(DeflateStatus::Progress), None);
    assert_eq!(round_fault(DeflateStatus::StreamEnd), None);
}

fn noise(seed: &str, len: usize) -> Vec<u8> {
    let mut bytes: Vec<u8> = vec![0u8; len];
    let mut hasher = blake3::Hasher::new();
    hasher.update(seed.as_bytes());
    hasher.finalize_xof().fill(&mut bytes);
    bytes
}

fn prose(seed: &str, len: usize) -> Vec<u8> {
    let raw: Vec<u8> = noise(seed, len);
    let mut out: Vec<u8> = Vec::with_capacity(len + len / 8);
    for (index, byte) in raw.iter().enumerate() {
        out.push(b'a' + byte % 26);
        if index % 13 == 12 {
            out.push(b' ');
        }
        if index % 67 == 66 {
            out.push(b'\n');
        }
    }
    out
}

#[test]
fn gzip_writer_round_trips_through_the_reader() {
    let payload = prose("dec/wgz", 40 << 10);
    let mut writer = GzipWriter::new();
    let mut emit = Vec::new();
    for slice in payload.chunks(1000) {
        writer.push(slice, &mut emit).unwrap();
    }
    writer.finish(&mut emit).unwrap();
    let out = emit.concat();
    // Read back in 512-byte windows.
    let mut reader = GzipReader::new();
    let mut member = Vec::new();
    for window in out.chunks(512) {
        for &byte in window {
            reader.push(byte).unwrap();
        }
        member.extend(reader.take_pending());
    }
    reader.finish().unwrap();
    assert_eq!(reader.stored_name(), None);
    assert_eq!(member, payload);
}
