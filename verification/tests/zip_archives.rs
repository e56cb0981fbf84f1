//! `zip-v1` and `ooxml-ber-v1`: the fail-hard corpus, canonical
//! boundaries, framings, member reuse, and package validation.

use std::collections::HashSet;
use std::io::Write;

use flate2::write::DeflateEncoder;
use flate2::Compression;

use legra_chunk::constants::{GENERIC_CDC_CHUNK_MAX_BYTES, GENERIC_CDC_CHUNK_MIN_BYTES};
use legra_chunk::office::fault::OfficeFault;
use legra_chunk::zip::fault::ZipFault;
use legra_chunk::{CanonicalZipWriter, ChunkError, OoxmlBerChunker, ZipChunker};

// ---------------------------------------------------------------
// A deliberately small ZIP writer for fixtures.
// ---------------------------------------------------------------

/// How one member is framed.
#[derive(Debug, Clone, Copy, PartialEq, Eq)]
enum Framing {
    /// Sizes in the local header, no descriptor.
    Plain,
    /// Sizes zero in the local header; a signed descriptor follows.
    SignedDescriptor,
    /// Sizes known in the local header and an unsigned descriptor.
    UnsignedDescriptorKnownSize,
    /// A ZIP64 extra field carries the sizes.
    Zip64 { descriptor: bool },
}

/// One member to write.
struct Member<'a> {
    name: &'a str,
    bytes: &'a [u8],
    deflate: bool,
    framing: Framing,
}

impl<'a> Member<'a> {
    fn stored(name: &'a str, bytes: &'a [u8]) -> Self {
        Self { name, bytes, deflate: false, framing: Framing::Plain }
    }

    fn deflated(name: &'a str, bytes: &'a [u8]) -> Self {
        Self { name, bytes, deflate: true, framing: Framing::Plain }
    }

    fn framed(self, framing: Framing) -> Self {
        Self { framing, ..self }
    }
}

struct Written {
    name: Vec<u8>,
    method: u16,
    flags: u16,
    crc: u32,
    compressed: u64,
    uncompressed: u64,
    local_offset: u64,
    zip64: bool,
}

/// Archive-level options.
#[derive(Debug, Clone, Copy, Default)]
struct Options<'a> {
    zip64_end: bool,
    comment: &'a [u8],
}

fn put16(out: &mut Vec<u8>, value: u16) {
    out.extend_from_slice(&value.to_le_bytes());
}

fn put32(out: &mut Vec<u8>, value: u32) {
    out.extend_from_slice(&value.to_le_bytes());
}

fn put64(out: &mut Vec<u8>, value: u64) {
    out.extend_from_slice(&value.to_le_bytes());
}

fn crc32(bytes: &[u8]) -> u32 {
    let mut crc = flate2::Crc::new();
    crc.update(bytes);
    crc.sum()
}

fn deflate(bytes: &[u8]) -> Vec<u8> {
    let mut encoder = DeflateEncoder::new(Vec::new(), Compression::default());
    encoder.write_all(bytes).expect("deflate");
    encoder.finish().expect("deflate")
}

fn archive(members: &[Member<'_>], options: Options<'_>) -> Vec<u8> {
    let mut out: Vec<u8> = Vec::new();
    let mut written: Vec<Written> = Vec::new();
    for member in members {
        written.push(write_member(&mut out, member));
    }
    let central_start: u64 = out.len() as u64;
    for entry in &written {
        write_central(&mut out, entry);
    }
    let central_size: u64 = out.len() as u64 - central_start;
    if options.zip64_end {
        let zip64_end_offset: u64 = out.len() as u64;
        out.extend_from_slice(&[0x50, 0x4B, 0x06, 0x06]);
        put64(&mut out, 44);
        put16(&mut out, 45);
        put16(&mut out, 45);
        put32(&mut out, 0);
        put32(&mut out, 0);
        put64(&mut out, written.len() as u64);
        put64(&mut out, written.len() as u64);
        put64(&mut out, central_size);
        put64(&mut out, central_start);
        out.extend_from_slice(&[0x50, 0x4B, 0x06, 0x07]);
        put32(&mut out, 0);
        put64(&mut out, zip64_end_offset);
        put32(&mut out, 1);
    }
    out.extend_from_slice(&[0x50, 0x4B, 0x05, 0x06]);
    put16(&mut out, 0);
    put16(&mut out, 0);
    if options.zip64_end {
        put16(&mut out, u16::MAX);
        put16(&mut out, u16::MAX);
        put32(&mut out, u32::MAX);
        put32(&mut out, u32::MAX);
    } else {
        put16(&mut out, written.len() as u16);
        put16(&mut out, written.len() as u16);
        put32(&mut out, central_size as u32);
        put32(&mut out, central_start as u32);
    }
    put16(&mut out, options.comment.len() as u16);
    out.extend_from_slice(options.comment);
    out
}

fn write_member(out: &mut Vec<u8>, member: &Member<'_>) -> Written {
    let local_offset: u64 = out.len() as u64;
    let payload: Vec<u8> = if member.deflate { deflate(member.bytes) } else { member.bytes.to_vec() };
    let method: u16 = if member.deflate { 8 } else { 0 };
    let crc: u32 = crc32(member.bytes);
    let compressed: u64 = payload.len() as u64;
    let uncompressed: u64 = member.bytes.len() as u64;
    let (flags, zip64, descriptor): (u16, bool, bool) = match member.framing {
        Framing::Plain => (0, false, false),
        Framing::SignedDescriptor | Framing::UnsignedDescriptorKnownSize => (1 << 3, false, true),
        Framing::Zip64 { descriptor } => (u16::from(descriptor) << 3, true, descriptor),
    };
    out.extend_from_slice(&[0x50, 0x4B, 0x03, 0x04]);
    put16(out, if zip64 { 45 } else { 20 });
    put16(out, flags);
    put16(out, method);
    put16(out, 0);
    put16(out, 0x21);
    put32(out, crc);
    match member.framing {
        Framing::SignedDescriptor => {
            put32(out, 0);
            put32(out, 0);
        },
        Framing::Zip64 { .. } => {
            put32(out, u32::MAX);
            put32(out, u32::MAX);
        },
        Framing::Plain | Framing::UnsignedDescriptorKnownSize => {
            put32(out, compressed as u32);
            put32(out, uncompressed as u32);
        },
    }
    put16(out, member.name.len() as u16);
    put16(out, if zip64 { 20 } else { 0 });
    out.extend_from_slice(member.name.as_bytes());
    if zip64 {
        put16(out, 0x0001);
        put16(out, 16);
        put64(out, uncompressed);
        put64(out, compressed);
    }
    out.extend_from_slice(&payload);
    if descriptor {
        if member.framing != Framing::UnsignedDescriptorKnownSize {
            out.extend_from_slice(&[0x50, 0x4B, 0x07, 0x08]);
        }
        put32(out, crc);
        if zip64 {
            put64(out, compressed);
            put64(out, uncompressed);
        } else {
            put32(out, compressed as u32);
            put32(out, uncompressed as u32);
        }
    }
    Written {
        name: member.name.as_bytes().to_vec(),
        method,
        flags,
        crc,
        compressed,
        uncompressed,
        local_offset,
        zip64,
    }
}

fn write_central(out: &mut Vec<u8>, entry: &Written) {
    out.extend_from_slice(&[0x50, 0x4B, 0x01, 0x02]);
    put16(out, 45);
    put16(out, if entry.zip64 { 45 } else { 20 });
    put16(out, entry.flags);
    put16(out, entry.method);
    put16(out, 0);
    put16(out, 0x21);
    put32(out, entry.crc);
    if entry.zip64 {
        put32(out, u32::MAX);
        put32(out, u32::MAX);
    } else {
        put32(out, entry.compressed as u32);
        put32(out, entry.uncompressed as u32);
    }
    put16(out, entry.name.len() as u16);
    put16(out, if entry.zip64 { 28 } else { 0 });
    put16(out, 0);
    put16(out, 0);
    put16(out, 0);
    put32(out, 0);
    if entry.zip64 {
        put32(out, u32::MAX);
    } else {
        put32(out, entry.local_offset as u32);
    }
    out.extend_from_slice(&entry.name);
    if entry.zip64 {
        put16(out, 0x0001);
        put16(out, 24);
        put64(out, entry.uncompressed);
        put64(out, entry.compressed);
        put64(out, entry.local_offset);
    }
}

// ---------------------------------------------------------------
// Fixture corpora.
// ---------------------------------------------------------------

/// Deterministic pseudo-random bytes (incompressible, like media).
fn noise(seed: &str, len: usize) -> Vec<u8> {
    let mut bytes: Vec<u8> = vec![0u8; len];
    let mut hasher = blake3::Hasher::new();
    hasher.update(seed.as_bytes());
    hasher.finalize_xof().fill(&mut bytes);
    bytes
}

/// WordprocessingML-shaped XML of `paragraphs` paragraphs, with
/// `marker` in the middle.
fn document_xml(seed: &str, paragraphs: usize, marker: &str) -> Vec<u8> {
    let mut out = String::from(
        "<?xml version=\"1.0\" encoding=\"UTF-8\" standalone=\"yes\"?>\n<w:document xmlns:w=\"http://schemas.openxmlformats.org/wordprocessingml/2006/main\"><w:body>",
    );
    let words: Vec<u8> = noise(seed, paragraphs * 12);
    for (index, chunk) in words.chunks(12).enumerate() {
        let rsid: String = chunk[4..].iter().map(|byte| format!("{byte:02X}")).collect();
        out.push_str(&format!("<w:p w:rsidR=\"{}\" w14:paraId=\"{}\"><w:r><w:t>", &rsid[..8], &rsid[8..]));
        for byte in &chunk[..4] {
            out.push_str(match byte % 6 {
                0 => "legra ",
                1 => "literal ",
                2 => "manifest ",
                3 => "chunk ",
                4 => "workspace ",
                _ => "canonical ",
            });
        }
        if index == paragraphs / 2 {
            out.push_str(marker);
        }
        out.push_str("</w:t></w:r></w:p>");
    }
    out.push_str("</w:body></w:document>");
    out.into_bytes()
}

const CONTENT_TYPES_XML: &[u8] = b"<?xml version=\"1.0\" encoding=\"UTF-8\"?><Types xmlns=\"http://schemas.openxmlformats.org/package/2006/content-types\"><Default Extension=\"xml\" ContentType=\"application/xml\"/><Default Extension=\"png\" ContentType=\"image/png\"/></Types>";
const RELS_XML: &[u8] = b"<?xml version=\"1.0\" encoding=\"UTF-8\"?><Relationships xmlns=\"http://schemas.openxmlformats.org/package/2006/relationships\"><Relationship Id=\"rId1\" Type=\"officeDocument\" Target=\"word/document.xml\"/></Relationships>";

/// The media parts every variant shares.
struct Media {
    image1: Vec<u8>,
    image2: Vec<u8>,
    styles: Vec<u8>,
}

impl Media {
    fn new() -> Self {
        Self {
            image1: noise("els07/image1", 300 << 10),
            image2: noise("els07/image2", 150 << 10),
            styles: document_xml("els07/styles", 400, ""),
        }
    }
}

fn docx(media: &Media, document: &[u8]) -> Vec<u8> {
    archive(
        &[
            Member::stored("[Content_Types].xml", CONTENT_TYPES_XML),
            Member::stored("_rels/.rels", RELS_XML),
            Member::deflated("word/document.xml", document),
            Member::deflated("word/styles.xml", &media.styles),
            Member::deflated("word/media/image1.png", &media.image1),
            Member::deflated("word/media/image2.png", &media.image2),
        ],
        Options::default(),
    )
}

fn docx_with_framings(media: &Media, document: &[u8], zip64_end: bool) -> Vec<u8> {
    archive(
        &[
            Member::stored("[Content_Types].xml", CONTENT_TYPES_XML),
            Member::stored("_rels/.rels", RELS_XML).framed(Framing::SignedDescriptor),
            Member::deflated("word/document.xml", document).framed(Framing::SignedDescriptor),
            Member::deflated("word/styles.xml", &media.styles).framed(Framing::UnsignedDescriptorKnownSize),
            Member::deflated("word/media/image1.png", &media.image1).framed(Framing::Zip64 { descriptor: false }),
            Member::deflated("word/media/image2.png", &media.image2).framed(Framing::Zip64 { descriptor: true }),
        ],
        Options { zip64_end, comment: b"els07" },
    )
}

fn central_entry(bytes: &[u8], name: &str) -> usize {
    (0..bytes.len() - 4)
        .find(|&at| bytes[at..at + 4] == [0x50, 0x4B, 0x01, 0x02] && bytes[at + 46..].starts_with(name.as_bytes()))
        .expect("central entry present")
}

fn member_span(bytes: &[u8], name: &str) -> std::ops::Range<usize> {
    let header: [u8; 4] = [0x50, 0x4B, 0x03, 0x04];
    let starts: Vec<usize> = (0..bytes.len().saturating_sub(4)).filter(|&at| bytes[at..at + 4] == header).collect();
    let start: usize =
        starts.iter().copied().find(|&at| bytes[at + 30..].starts_with(name.as_bytes())).expect("member present");
    let end: usize = starts.iter().copied().find(|&at| at > start).unwrap_or_else(|| {
        (0..bytes.len() - 4).find(|&at| bytes[at..at + 4] == [0x50, 0x4B, 0x01, 0x02]).expect("central directory")
    });
    start..end
}

// ---------------------------------------------------------------
// Driving the chunkers.
// ---------------------------------------------------------------

/// The chunks of a `zip-v1` stream fed in `window`-sized pushes.
fn zip_chunks(bytes: &[u8], window: usize) -> Result<Vec<Vec<u8>>, ChunkError> {
    let mut chunker = ZipChunker::new();
    let mut chunks: Vec<Vec<u8>> = Vec::new();
    for slice in bytes.chunks(window.max(1)) {
        chunker.push(slice, &mut chunks)?;
    }
    chunker.finish(&mut chunks)?;
    Ok(chunks)
}

/// The byte ranges of a well-formed archive's chunks, fed whole.
fn zip_ranges(bytes: &[u8]) -> Vec<std::ops::Range<usize>> {
    let mut chunker = ZipChunker::new();
    let mut chunks: Vec<Vec<u8>> = Vec::new();
    chunker.push(bytes, &mut chunks).expect("well-formed archive");
    chunker.finish(&mut chunks).expect("well-formed archive");
    let mut ranges: Vec<std::ops::Range<usize>> = Vec::new();
    let mut start: usize = 0;
    for chunk in &chunks {
        ranges.push(start..start + chunk.len());
        start += chunk.len();
    }
    ranges
}

fn ends_of(ranges: &[std::ops::Range<usize>]) -> Vec<usize> {
    ranges.iter().map(|range| range.end).collect()
}

/// The fault an archive is rejected with.
fn fault_of(bytes: &[u8]) -> Option<&'static str> {
    let mut chunker = ZipChunker::new();
    let mut chunks: Vec<Vec<u8>> = Vec::new();
    let outcome = chunker.push(bytes, &mut chunks).and_then(|()| chunker.finish(&mut chunks));
    match outcome {
        Ok(()) => None,
        Err(ChunkError::MalformedProfileInput { profile, detail, .. }) => {
            assert_eq!(profile, "zip-v1");
            Some(detail)
        },
        Err(other) => panic!("unexpected error: {other:?}"),
    }
}

fn expect_fault(name: &str, bytes: &[u8], fault: ZipFault) {
    assert_eq!(fault_of(bytes), Some(fault.detail()), "{name}");
}

fn find(bytes: &[u8], needle: &[u8]) -> usize {
    (0..=bytes.len() - needle.len()).find(|&at| &bytes[at..at + needle.len()] == needle).expect("needle present")
}

fn rfind(bytes: &[u8], needle: &[u8]) -> usize {
    (0..=bytes.len() - needle.len()).rev().find(|&at| &bytes[at..at + needle.len()] == needle).expect("needle present")
}

const LOCAL: [u8; 4] = [0x50, 0x4B, 0x03, 0x04];
const CENTRAL: [u8; 4] = [0x50, 0x4B, 0x01, 0x02];
const END: [u8; 4] = [0x50, 0x4B, 0x05, 0x06];

fn set32(bytes: &mut [u8], at: usize, value: u32) {
    bytes[at..at + 4].copy_from_slice(&value.to_le_bytes());
}

fn set16(bytes: &mut [u8], at: usize, value: u16) {
    bytes[at..at + 2].copy_from_slice(&value.to_le_bytes());
}

fn sample() -> Vec<u8> {
    docx(&Media::new(), &document_xml("els07/malformed", 1500, "malformed"))
}

// ---------------------------------------------------------------
// The fail-hard corpus.
// ---------------------------------------------------------------

#[test]
fn truncation_fails_at_finish() {
    let bytes: Vec<u8> = docx_with_framings(&Media::new(), &document_xml("els07/trunc", 1500, "t"), true);
    let end: usize = rfind(&bytes, &END);
    let image1 = member_span(&bytes, "word/media/image1.png");
    let cuts: [(&str, usize); 6] = [
        ("inside first header", 10),
        ("inside member data", image1.start + 2000),
        ("before central directory", find(&bytes, &CENTRAL)),
        ("inside central directory", find(&bytes, &CENTRAL) + 50),
        ("inside end record", end + 10),
        ("inside comment", bytes.len() - 2),
    ];
    for (name, cut) in cuts {
        expect_fault(name, &bytes[..cut], ZipFault::Truncated);
    }
}

#[test]
fn unknown_signatures_fail() {
    let mut bytes: Vec<u8> = sample();
    bytes[0] = b'Q';
    expect_fault("first signature", &bytes, ZipFault::UnknownSignature);

    let mut bytes: Vec<u8> = sample();
    let second: usize = member_span(&bytes, "_rels/.rels").start;
    bytes[second + 2] = 0x09;
    expect_fault("second signature", &bytes, ZipFault::UnknownSignature);

    let mut prefixed: Vec<u8> = b"MZ stub".to_vec();
    prefixed.extend_from_slice(&sample());
    expect_fault("prefixed", &prefixed, ZipFault::UnknownSignature);
}

#[test]
fn trailing_bytes_after_the_comment_fail() {
    let mut bytes: Vec<u8> = sample();
    bytes.extend_from_slice(b"junk");
    expect_fault("trailing", &bytes, ZipFault::TrailingBytes);
}

#[test]
fn size_claims_are_checked() {
    let mut bytes: Vec<u8> = sample();
    let at: usize = member_span(&bytes, "[Content_Types].xml").start;
    set32(&mut bytes, at + 22, 5);
    expect_fault("stored sizes", &bytes, ZipFault::StoredSizesDisagree);

    let mut bytes: Vec<u8> = sample();
    let at: usize = member_span(&bytes, "word/document.xml").start;
    set32(&mut bytes, at + 22, u32::MAX - 1);
    expect_fault("expansion", &bytes, ZipFault::ImplausibleExpansion);

    let mut bytes: Vec<u8> = sample();
    let central: usize = central_entry(&bytes, "word/document.xml");
    set32(&mut bytes, central + 24, u32::MAX - 1);
    expect_fault("central expansion", &bytes, ZipFault::ImplausibleExpansion);

    let mut bytes: Vec<u8> = sample();
    let at: usize = member_span(&bytes, "word/styles.xml").start;
    set32(&mut bytes, at + 18, u32::MAX);
    set32(&mut bytes, at + 22, u32::MAX);
    expect_fault("missing zip64", &bytes, ZipFault::MissingZip64Sizes);
}

#[test]
fn descriptor_mismatches_fail() {
    let data: Vec<u8> = noise("els07/descriptor", 30 << 10);
    let bytes: Vec<u8> =
        archive(&[Member::stored("a.bin", &data).framed(Framing::UnsignedDescriptorKnownSize)], Options::default());
    let mut wrong: Vec<u8> = bytes.clone();
    let descriptor: usize = find(&bytes, &LOCAL) + 30 + "a.bin".len() + data.len();
    set32(&mut wrong, descriptor + 4, data.len() as u32 + 1);
    expect_fault("unsigned descriptor", &wrong, ZipFault::DescriptorSizeMismatch);

    let bytes: Vec<u8> =
        archive(&[Member::stored("a.bin", &data).framed(Framing::SignedDescriptor)], Options::default());
    let mut wrong: Vec<u8> = bytes.clone();
    let descriptor: usize = find(&bytes, &LOCAL) + 30 + "a.bin".len() + data.len();
    set32(&mut wrong, descriptor + 8, data.len() as u32 + 1);
    expect_fault("signed descriptor", &wrong, ZipFault::Truncated);
}

#[test]
fn false_descriptor_signatures_inside_data_are_skipped() {
    let mut data: Vec<u8> = noise("els07/false-sig", 40 << 10);
    data[100..104].copy_from_slice(&[0x50, 0x4B, 0x07, 0x08]);
    data[104..108].copy_from_slice(&0u32.to_le_bytes());
    data[108..112].copy_from_slice(&77u32.to_le_bytes());
    data[112..116].copy_from_slice(&77u32.to_le_bytes());
    let bytes: Vec<u8> = archive(
        &[Member::stored("a.bin", &data).framed(Framing::SignedDescriptor), Member::stored("b.txt", b"after")],
        Options::default(),
    );
    assert_eq!(fault_of(&bytes), None, "a real descriptor closes the member");
}

#[test]
fn invalid_directories_fail() {
    let mut bytes: Vec<u8> = sample();
    let end: usize = rfind(&bytes, &END);
    set16(&mut bytes, end + 10, 7);
    expect_fault("entry count", &bytes, ZipFault::EntryCountMismatch);

    let mut bytes: Vec<u8> = sample();
    let end: usize = rfind(&bytes, &END);
    set32(&mut bytes, end + 16, 1);
    expect_fault("central offset", &bytes, ZipFault::CentralDirectoryGeometry);

    let mut bytes: Vec<u8> = sample();
    let end: usize = rfind(&bytes, &END);
    set32(&mut bytes, end + 12, 1);
    expect_fault("central size", &bytes, ZipFault::CentralDirectoryGeometry);

    let mut bytes: Vec<u8> = sample();
    let central: usize = find(&bytes, &CENTRAL);
    set32(&mut bytes, central + 42, central as u32);
    expect_fault("entry offset", &bytes, ZipFault::CentralOffsetOutOfRange);
}

#[test]
fn overlapping_entries_fail() {
    let data: Vec<u8> = noise("els07/overlap", 20 << 10);
    let base: Vec<u8> = archive(&[Member::stored("a.bin", &data)], Options::default());
    let central: usize = find(&base, &CENTRAL);
    let end: usize = rfind(&base, &END);
    let entry: Vec<u8> = base[central..end].to_vec();
    let mut bytes: Vec<u8> = base[..end].to_vec();
    bytes.extend_from_slice(&entry);
    bytes.extend_from_slice(&base[end..]);
    let end: usize = rfind(&bytes, &END);
    set16(&mut bytes, end + 8, 2);
    set16(&mut bytes, end + 10, 2);
    set32(&mut bytes, end + 12, (entry.len() * 2) as u32);
    expect_fault("overlap", &bytes, ZipFault::EntryCountMismatch);
}

#[test]
fn records_out_of_sequence_fail() {
    let base: Vec<u8> = sample();
    let extra_member: Vec<u8> = archive(&[Member::stored("late.txt", b"late")], Options::default());
    let late: &[u8] = &extra_member[..find(&extra_member, &CENTRAL)];
    let end: usize = rfind(&base, &END);
    let mut bytes: Vec<u8> = base[..end].to_vec();
    bytes.extend_from_slice(late);
    bytes.extend_from_slice(&base[end..]);
    expect_fault("late member", &bytes, ZipFault::MemberAfterCentralDirectory);

    let base: Vec<u8> = sample();
    let end: usize = rfind(&base, &END);
    let mut bytes: Vec<u8> = base[..end].to_vec();
    bytes.extend_from_slice(&[0x50, 0x4B, 0x06, 0x07]);
    bytes.extend_from_slice(&[0u8; 16]);
    bytes.extend_from_slice(&base[end..]);
    expect_fault("stray locator", &bytes, ZipFault::RecordOutOfSequence);
}

#[test]
fn malformed_extra_fields_fail() {
    let data: Vec<u8> = noise("els07/extra", 20 << 10);
    let mut bytes: Vec<u8> =
        archive(&[Member::stored("a.bin", &data).framed(Framing::Zip64 { descriptor: false })], Options::default());
    let at: usize = find(&bytes, &LOCAL) + 30 + "a.bin".len();
    set16(&mut bytes, at + 2, 200);
    expect_fault("extra overflow", &bytes, ZipFault::MalformedExtraField);
}

#[test]
fn a_rejected_stream_stays_rejected() {
    let mut chunker = ZipChunker::new();
    let mut sink: Vec<Vec<u8>> = Vec::new();
    chunker.push(b"nope", &mut sink).expect_err("rejects");
    assert!(matches!(chunker.push(&LOCAL, &mut sink), Err(ChunkError::ProfileStreamRejected { .. })));
    assert!(matches!(chunker.finish(&mut sink), Err(ChunkError::ProfileStreamRejected { .. })));
}

// ---------------------------------------------------------------
// Boundaries, framings, reuse.
// ---------------------------------------------------------------

#[test]
fn bounds_coverage_and_member_boundaries() {
    let media = Media::new();
    let bytes: Vec<u8> = docx(&media, &document_xml("els07/bounds", 3000, "bounds"));
    let ranges = zip_ranges(&bytes);
    let header: [u8; 4] = [0x50, 0x4B, 0x03, 0x04];
    let mut expected_start: usize = 0;
    for (position, range) in ranges.iter().enumerate() {
        assert_eq!(range.start, expected_start, "gap or overlap");
        assert!(range.len() <= GENERIC_CDC_CHUNK_MAX_BYTES, "above maximum");
        if position + 1 < ranges.len() && range.len() < GENERIC_CDC_CHUNK_MIN_BYTES {
            assert_eq!(
                &bytes[range.end..range.end + 4],
                &header,
                "sub-minimum chunk {position} does not end at a member start"
            );
        }
        expected_start = range.end;
    }
    assert_eq!(expected_start, bytes.len(), "incomplete coverage");

    let starts: Vec<usize> = ranges.iter().map(|range| range.start).collect();
    for name in ["word/document.xml", "word/media/image1.png", "word/media/image2.png"] {
        let span = member_span(&bytes, name);
        assert!(starts.contains(&span.start), "{name} must begin a chunk");
    }
}

#[test]
fn all_framings_parse_and_feed_order_is_irrelevant() {
    let media = Media::new();
    let document: Vec<u8> = document_xml("els07/framings", 2000, "framings");
    for zip64_end in [false, true] {
        let bytes: Vec<u8> = docx_with_framings(&media, &document, zip64_end);
        let whole: Vec<usize> = ends_of(&zip_ranges(&bytes));
        assert!(whole.len() > 4, "zip64_end={zip64_end}: corpus too small");
        for window in [1usize, 5, 4096, 1 << 17] {
            let chunks: Vec<Vec<u8>> = zip_chunks(&bytes, window).expect("well-formed");
            let mut ends: Vec<usize> = Vec::new();
            let mut end: usize = 0;
            for chunk in &chunks {
                end += chunk.len();
                ends.push(end);
            }
            assert_eq!(ends, whole, "window {window} changed boundaries");
        }
    }
}

#[test]
fn empty_archive_parses() {
    let bytes: Vec<u8> = archive(&[], Options::default());
    assert_eq!(zip_ranges(&bytes).len(), 1);
}

/// A signed-descriptor archive, fed one byte at a time, yields the
/// same chunks as fed whole, and they concatenate to the input.
#[test]
fn zip_chunks_concatenate_to_the_input() {
    let data: Vec<u8> = noise("zip/concat", 70 << 10);
    let bytes: Vec<u8> = archive(
        &[Member::stored("a.bin", &data).framed(Framing::SignedDescriptor), Member::deflated("b.txt", b"tail")],
        Options { zip64_end: false, comment: b"c" },
    );
    let whole: Vec<Vec<u8>> = zip_chunks(&bytes, bytes.len()).expect("well-formed");
    assert_eq!(whole.concat(), bytes);
    assert_eq!(zip_chunks(&bytes, 1).expect("well-formed"), whole);
    assert!(whole.iter().all(|chunk| !chunk.is_empty() && chunk.len() <= GENERIC_CDC_CHUNK_MAX_BYTES));
}

/// A fault reports the offset just past the offending byte, and the
/// error names the profile.
#[test]
fn zip_fault_offsets_and_errors() {
    let mut chunker = ZipChunker::new();
    let mut sink: Vec<Vec<u8>> = Vec::new();
    let error: ChunkError = chunker.push(b"PK\x03\x05", &mut sink).expect_err("unknown signature");
    assert_eq!(
        error,
        ChunkError::MalformedProfileInput { profile: "zip-v1", offset: 3, detail: ZipFault::UnknownSignature.detail() }
    );
    assert!(sink.is_empty());

    let mut chunker = ZipChunker::new();
    chunker.push(b"PK\x03", &mut sink).expect("a prefix parses");
    let error: ChunkError = chunker.finish(&mut sink).expect_err("truncated");
    assert_eq!(
        error,
        ChunkError::MalformedProfileInput { profile: "zip-v1", offset: 3, detail: ZipFault::Truncated.detail() }
    );
}

/// A finished stream starts afresh: the same archive chunks the same
/// way a second time.
#[test]
fn finish_resets_the_zip_chunker() {
    let bytes: Vec<u8> = archive(&[Member::stored("a.txt", b"hello")], Options::default());
    let mut chunker = ZipChunker::new();
    let mut first: Vec<Vec<u8>> = Vec::new();
    chunker.push(&bytes, &mut first).expect("valid");
    chunker.finish(&mut first).expect("valid");
    let mut second: Vec<Vec<u8>> = Vec::new();
    chunker.push(&bytes, &mut second).expect("valid again");
    chunker.finish(&mut second).expect("valid again");
    assert_eq!(first, second);
    assert_eq!(first, vec![bytes]);
}

// ---------------------------------------------------------------
// `ooxml-ber-v1`.
// ---------------------------------------------------------------

/// XML-shaped text: tags and prose lines.
fn xml(seed: &str, len: usize) -> Vec<u8> {
    let raw: Vec<u8> = noise(seed, len);
    let mut out: Vec<u8> = Vec::with_capacity(len * 2);
    out.extend_from_slice(b"<?xml version=\"1.0\"?>\n<root>\n");
    for chunk in raw.chunks(24) {
        out.extend_from_slice(b"<p>");
        for byte in chunk {
            out.push(b'a' + byte % 26);
        }
        out.extend_from_slice(b"</p>\n");
    }
    out.extend_from_slice(b"</root>\n");
    out.truncate(len.max(64));
    out
}

struct Part {
    name: &'static str,
    bytes: Vec<u8>,
    deflate: bool,
}

fn docx_parts(doc_seed: &str, media_seed: &str) -> Vec<Part> {
    vec![
        Part { name: "[Content_Types].xml", bytes: xml("fixtures/content-types", 600), deflate: true },
        Part { name: "_rels/.rels", bytes: xml("fixtures/rels", 400), deflate: true },
        Part { name: "word/document.xml", bytes: xml(doc_seed, 120 << 10), deflate: true },
        Part { name: "word/styles.xml", bytes: xml("fixtures/styles", 6 << 10), deflate: true },
        Part { name: "word/media/image1.png", bytes: noise(media_seed, 300 << 10), deflate: false },
    ]
}

fn package(parts: &[Part]) -> Vec<u8> {
    let members: Vec<Member<'_>> = parts
        .iter()
        .map(|part| if part.deflate { Member::deflated(part.name, &part.bytes) } else { Member::stored(part.name, &part.bytes) })
        .collect();
    archive(&members, Options::default())
}

fn ber_chunks_of(chunker: &mut OoxmlBerChunker, bytes: &[u8], window: usize) -> Result<Vec<Vec<u8>>, ChunkError> {
    let mut chunks: Vec<Vec<u8>> = Vec::new();
    for slice in bytes.chunks(window.max(1)) {
        chunker.push(slice, &mut chunks)?;
    }
    chunker.finish(&mut chunks)?;
    Ok(chunks)
}

fn ber_chunks(bytes: &[u8], window: usize) -> Vec<Vec<u8>> {
    let mut chunker = OoxmlBerChunker::new();
    ber_chunks_of(&mut chunker, bytes, window).expect("valid package")
}

#[test]
fn chunks_concatenate_to_the_input_bytes() {
    let input: Vec<u8> = package(&docx_parts("els15/ber", "els15/ber-media"));
    let chunks: Vec<Vec<u8>> = ber_chunks(&input, 4096);
    assert_eq!(chunks.concat(), input, "BER must be byte-exact");
    assert_eq!(ber_chunks(&input, 1 << 20), chunks, "window independent");
}

#[test]
fn signed_packages_are_accepted() {
    let members = [
        Member::deflated("[Content_Types].xml", b"<Types/>"),
        Member::deflated("word/document.xml", b"<doc/>"),
        Member::deflated("_xmlsignatures/sig1.xml", b"<sig/>"),
    ];
    let input: Vec<u8> = archive(&members, Options::default());
    let chunks: Vec<Vec<u8>> = ber_chunks(&input, 4096);
    assert_eq!(chunks.concat(), input);
}

#[test]
fn unchanged_stored_parts_share_chunks_across_edits() {
    let original: Vec<Vec<u8>> = ber_chunks(&package(&docx_parts("els15/ber-a", "els15/ber-media")), 4096);
    let edited: Vec<Vec<u8>> = ber_chunks(&package(&docx_parts("els15/ber-b", "els15/ber-media")), 4096);
    let original_set: HashSet<&[u8]> = original.iter().map(Vec::as_slice).collect();
    let shared: usize =
        edited.iter().filter(|chunk| original_set.contains(chunk.as_slice())).map(|chunk| chunk.len()).sum();
    assert!(shared >= 280 << 10, "only {shared} shared bytes; the stored media member must reuse");
}

#[test]
fn non_package_zips_reject() {
    let members = [Member::stored("data.bin", b"not a package")];
    let input: Vec<u8> = archive(&members, Options::default());
    let mut chunker = OoxmlBerChunker::new();
    ber_chunks_of(&mut chunker, &input, 4096).expect_err("no [Content_Types].xml first");
}

#[test]
fn noise_members_and_generic_profile_disagree_on_nothing_structural() {
    let bytes: Vec<u8> = noise("els15/noise-sanity", 64);
    assert_eq!(bytes.len(), 64);
}

/// The package check's errors: a first member other than the content
/// types, a package without its main part, and a package of another
/// kind than the one expected.
#[test]
fn ber_package_faults_name_the_profile() {
    let input: Vec<u8> = archive(&[Member::stored("data.bin", b"not a package")], Options::default());
    let mut chunker = OoxmlBerChunker::new();
    match ber_chunks_of(&mut chunker, &input, 4096) {
        Err(ChunkError::MalformedProfileInput { profile, detail, .. }) => {
            assert_eq!(profile, "ooxml-ber-v1");
            assert_eq!(detail, OfficeFault::NotOoxmlPackage.detail());
        },
        other => panic!("unexpected outcome {other:?}"),
    }
    assert!(matches!(chunker.finish(&mut Vec::new()), Err(ChunkError::ProfileStreamRejected { profile: "ooxml-ber-v1" })));

    let input: Vec<u8> = archive(&[Member::deflated("[Content_Types].xml", b"<Types/>")], Options::default());
    let mut chunker = OoxmlBerChunker::new();
    match ber_chunks_of(&mut chunker, &input, 4096) {
        Err(ChunkError::MalformedProfileInput { profile: "ooxml-ber-v1", detail, .. }) => {
            assert_eq!(detail, OfficeFault::UnrecognizedPackage.detail())
        },
        other => panic!("unexpected outcome {other:?}"),
    }

    let members = [
        Member::deflated("[Content_Types].xml", b"<Types/>"),
        Member::deflated("word/document.xml", b"<doc/>"),
    ];
    let input: Vec<u8> = archive(&members, Options::default());
    let mut chunker = OoxmlBerChunker::expecting(Some(legra_chunk::OfficeKind::Excel));
    match ber_chunks_of(&mut chunker, &input, 4096) {
        Err(ChunkError::MalformedProfileInput { profile: "ooxml-ber-v1", detail, .. }) => {
            assert_eq!(detail, OfficeFault::MissingMainPart.detail())
        },
        other => panic!("unexpected outcome {other:?}"),
    }
    let mut chunker = OoxmlBerChunker::expecting(Some(legra_chunk::OfficeKind::Word));
    assert_eq!(ber_chunks_of(&mut chunker, &input, 4096).expect("a word package").concat(), input);
}

/// A ZIP-level fault inside a package is reported under the package
/// profile with the ZIP diagnostic.
#[test]
fn ber_reports_zip_faults_under_its_profile() {
    let mut chunker = OoxmlBerChunker::new();
    match ber_chunks_of(&mut chunker, b"PK\x03\x05", 4096) {
        Err(ChunkError::MalformedProfileInput { profile, detail, offset }) => {
            assert_eq!(profile, "ooxml-ber-v1");
            assert_eq!(detail, ZipFault::UnknownSignature.detail());
            assert_eq!(offset, 3);
        },
        other => panic!("unexpected outcome {other:?}"),
    }
}

// ---------------------------------------------------------------
// The canonical ZIP writer.
// ---------------------------------------------------------------

fn canonical_zip(text: &[u8]) -> Vec<u8> {
    let mut emit: Vec<Vec<u8>> = Vec::new();
    let mut writer = CanonicalZipWriter::new();
    writer.directory(b"docs", &mut emit);
    writer.begin_member(b"docs/readme.md", &mut emit);
    writer.member_bytes(&text[..1000], &mut emit);
    writer.member_bytes(&text[1000..], &mut emit);
    writer.end_member(&mut emit);
    writer.finish(&mut emit);
    emit.concat()
}

/// The canonical writer's output is deterministic, a well-formed
/// archive, stores the member bytes verbatim, and closes each member
/// with a descriptor carrying its CRC-32 and length.
#[test]
fn canonical_zip_writer_output_is_a_valid_archive() {
    let text: Vec<u8> = xml("dec/wzip", 30 << 10);
    let out: Vec<u8> = canonical_zip(&text);
    assert_eq!(out, canonical_zip(&text), "deterministic");
    assert_eq!(zip_chunks(&out, 4096).expect("canonical zip is well-formed").concat(), out);

    // The directory entry: a header for `docs/`, then an empty
    // descriptor.
    assert_eq!(&out[..4], &LOCAL);
    assert_eq!(u16::from_le_bytes([out[6], out[7]]), 8 | 2048);
    assert_eq!(u16::from_le_bytes([out[26], out[27]]), 5);
    assert_eq!(&out[30..35], b"docs/");
    assert_eq!(&out[35..39], &[0x50, 0x4B, 0x07, 0x08]);
    assert_eq!(&out[39..51], &[0u8; 12]);

    // The member: header, verbatim bytes, descriptor.
    let header: usize = 51;
    assert_eq!(&out[header..header + 4], &LOCAL);
    assert_eq!(&out[header + 30..header + 44], b"docs/readme.md");
    let data: usize = header + 44;
    assert_eq!(&out[data..data + text.len()], text.as_slice());
    let descriptor: usize = data + text.len();
    assert_eq!(&out[descriptor..descriptor + 4], &[0x50, 0x4B, 0x07, 0x08]);
    let crc: u32 = u32::from_le_bytes([out[descriptor + 4], out[descriptor + 5], out[descriptor + 6], out[descriptor + 7]]);
    assert_eq!(crc, crc32(&text));
    assert_ne!(crc, 0);
    let len: u32 = u32::from_le_bytes([out[descriptor + 8], out[descriptor + 9], out[descriptor + 10], out[descriptor + 11]]);
    assert_eq!(len as usize, text.len());

    // The central directory follows, and the end record closes it.
    assert_eq!(&out[descriptor + 16..descriptor + 20], &CENTRAL);
    assert_eq!(rfind(&out, &END), out.len() - 22);
}

/// An empty canonical archive is just its end record.
#[test]
fn an_empty_canonical_zip_is_an_end_record() {
    let mut emit: Vec<Vec<u8>> = Vec::new();
    CanonicalZipWriter::new().finish(&mut emit);
    let out: Vec<u8> = emit.concat();
    assert_eq!(out.len(), 22);
    assert_eq!(&out[..4], &END);
    assert_eq!(zip_chunks(&out, 7).expect("well-formed").concat(), out);
}

// ---------------------------------------------------------------
// Reuse across edits and archives.
// ---------------------------------------------------------------

fn chunk_hashes(bytes: &[u8]) -> Vec<(std::ops::Range<usize>, blake3::Hash)> {
    zip_ranges(bytes).into_iter().map(|range| (range.clone(), blake3::hash(&bytes[range]))).collect()
}

#[test]
fn editing_the_document_part_reuses_media_chunks() {
    let media = Media::new();
    let base: Vec<u8> = docx(&media, &document_xml("els07/variation", 3000, "before the edit"));
    let edited: Vec<u8> = docx(&media, &document_xml("els07/variation", 3000, "after the edit, longer"));
    let base_chunks = chunk_hashes(&base);
    let edited_chunks = chunk_hashes(&edited);
    let base_hashes: Vec<blake3::Hash> = base_chunks.iter().map(|(_, hash)| *hash).collect();

    let reused: usize = edited_chunks.iter().filter(|(_, hash)| base_hashes.contains(hash)).count();
    assert_eq!(edited_chunks.len() - reused, 2, "edit reused only {reused} of {} chunks", edited_chunks.len());

    let span = member_span(&edited, "word/media/image2.png");
    let image2: Vec<&(std::ops::Range<usize>, blake3::Hash)> =
        edited_chunks.iter().filter(|(range, _)| range.start >= span.start && range.end <= span.end).collect();
    assert!(image2.len() >= 2, "image2 must span several chunks");
    assert!(image2.iter().all(|(_, hash)| base_hashes.contains(hash)), "every image2 chunk must be reused");
}

#[test]
fn a_shared_member_yields_the_same_chunks_in_different_archives() {
    let shared: Vec<u8> = noise("els07/shared-lib", 700 << 10);
    let lead_a: Vec<u8> = noise("els07/lead-a", 40 << 10);
    let lead_b: Vec<u8> = noise("els07/lead-b", 90 << 10);
    let a: Vec<u8> = archive(
        &[
            Member::stored("lead.bin", &lead_a),
            Member::deflated("lib/shared.bin", &shared),
            Member::stored("tail-a.txt", b"tail a"),
        ],
        Options::default(),
    );
    let b: Vec<u8> = archive(
        &[
            Member::stored("other/lead.bin", &lead_b),
            Member::deflated("lib/shared.bin", &shared),
            Member::stored("different/tail-b.txt", b"tail b, longer"),
        ],
        Options::default(),
    );
    let span_a = member_span(&a, "lib/shared.bin");
    let span_b = member_span(&b, "lib/shared.bin");
    let in_span = |chunks: Vec<(std::ops::Range<usize>, blake3::Hash)>, span: &std::ops::Range<usize>| {
        chunks
            .into_iter()
            .filter(|(range, _)| range.start >= span.start && range.start < span.end)
            .map(|(_, hash)| hash)
            .collect::<Vec<_>>()
    };
    let chunks_a: Vec<blake3::Hash> = in_span(chunk_hashes(&a), &span_a);
    let chunks_b: Vec<blake3::Hash> = in_span(chunk_hashes(&b), &span_b);
    assert!(chunks_a.len() >= 3, "shared member must span several chunks");
    let shared_count: usize = chunks_b.iter().filter(|hash| chunks_a.contains(hash)).count();
    assert!(
        shared_count + 1 >= chunks_a.len().min(chunks_b.len()),
        "only {shared_count} of {} shared-member chunks were reused",
        chunks_a.len()
    );
}

/// A fault names the first rejected byte: junk after a complete empty
/// archive is reported where the junk begins.
#[test]
fn trailing_junk_is_reported_at_its_first_byte() {
    let mut bytes: Vec<u8> = archive(&[], Options::default());
    assert_eq!(bytes.len(), 22);
    bytes.extend_from_slice(b"junk");
    let mut chunker = ZipChunker::new();
    let mut sink: Vec<Vec<u8>> = Vec::new();
    assert_eq!(
        chunker.push(&bytes, &mut sink),
        Err(ChunkError::MalformedProfileInput { profile: "zip-v1", offset: 22, detail: ZipFault::TrailingBytes.detail() })
    );
}

/// A chunker built for one package kind expects that kind again after
/// a finished stream.
#[test]
fn ber_finish_keeps_the_expected_kind() {
    let xlsx: Vec<u8> = archive(
        &[Member::deflated("[Content_Types].xml", b"<Types/>"), Member::deflated("xl/workbook.xml", b"<wb/>")],
        Options::default(),
    );
    let docx_input: Vec<u8> = archive(
        &[Member::deflated("[Content_Types].xml", b"<Types/>"), Member::deflated("word/document.xml", b"<doc/>")],
        Options::default(),
    );
    let mut chunker = OoxmlBerChunker::expecting(Some(legra_chunk::OfficeKind::Excel));
    assert_eq!(ber_chunks_of(&mut chunker, &xlsx, 4096).expect("an excel package").concat(), xlsx);
    match ber_chunks_of(&mut chunker, &docx_input, 4096) {
        Err(ChunkError::MalformedProfileInput { profile: "ooxml-ber-v1", detail, .. }) => {
            assert_eq!(detail, OfficeFault::MissingMainPart.detail())
        },
        other => panic!("unexpected outcome {other:?}"),
    }
}
