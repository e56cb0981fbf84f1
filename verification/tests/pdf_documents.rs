//! `pdf-v1` behavior: byte-exact, window-independent chunks split at
//! object and stream boundaries, and fail-hard rejection.

use std::collections::HashSet;

use legra_chunk::pdf::fault::PdfFault;
use legra_chunk::{ChunkError, PdfChunker};

// ---------------------------------------------------------------
// A deliberately small PDF writer for fixtures.
// ---------------------------------------------------------------

fn noise(seed: &str, len: usize) -> Vec<u8> {
    let mut bytes: Vec<u8> = vec![0u8; len];
    let mut hasher = blake3::Hasher::new();
    hasher.update(seed.as_bytes());
    hasher.finalize_xof().fill(&mut bytes);
    bytes
}

/// One indirect object.
struct Object {
    number: u32,
    body: Vec<u8>,
}

impl Object {
    fn plain(number: u32, body: &str) -> Self {
        Self { number, body: body.as_bytes().to_vec() }
    }

    /// A stream object with a direct `/Length`.
    fn stream(number: u32, payload: &[u8]) -> Self {
        let mut body: Vec<u8> = format!("<< /Length {} >>\nstream\n", payload.len()).into_bytes();
        body.extend_from_slice(payload);
        body.extend_from_slice(b"\nendstream");
        Self { number, body }
    }

    /// A stream object whose `/Length` is an indirect reference.
    fn stream_indirect_length(number: u32, length_obj: u32, payload: &[u8]) -> Self {
        let mut body: Vec<u8> = format!("<< /Length {length_obj} 0 R >>\nstream\n").into_bytes();
        body.extend_from_slice(payload);
        body.extend_from_slice(b"\nendstream");
        Self { number, body }
    }
}

/// One body section: objects, xref, trailer, startxref, `%%EOF`.
fn section(out: &mut Vec<u8>, objects: &[Object], root: u32, size: u32) {
    let mut offsets: Vec<usize> = Vec::new();
    for object in objects {
        offsets.push(out.len());
        out.extend_from_slice(format!("{} 0 obj\n", object.number).as_bytes());
        out.extend_from_slice(&object.body);
        out.extend_from_slice(b"\nendobj\n");
    }
    let xref_at: usize = out.len();
    out.extend_from_slice(b"xref\n");
    out.extend_from_slice(b"0 1\n");
    out.extend_from_slice(b"0000000000 65535 f \n");
    for (object, offset) in objects.iter().zip(&offsets) {
        out.extend_from_slice(format!("{} 1\n", object.number).as_bytes());
        out.extend_from_slice(format!("{offset:010} 00000 n \n").as_bytes());
    }
    out.extend_from_slice(
        format!("trailer\n<< /Size {size} /Root {root} 0 R >>\nstartxref\n{xref_at}\n%%EOF\n").as_bytes(),
    );
}

fn document(objects: &[Object]) -> Vec<u8> {
    let mut out: Vec<u8> = b"%PDF-1.7\n%\xE2\xE3\xCF\xD3\n".to_vec();
    section(&mut out, objects, 1, objects.len() as u32 + 1);
    out
}

fn incremental_update(base: &[u8], objects: &[Object]) -> Vec<u8> {
    let mut out: Vec<u8> = base.to_vec();
    section(&mut out, objects, 1, 100);
    out
}

fn typical(content_seed: &str, image_seed: &str) -> Vec<u8> {
    document(&[
        Object::plain(1, "<< /Type /Catalog /Pages 2 0 R >>"),
        Object::plain(2, "<< /Type /Pages /Kids [3 0 R] /Count 1 >>"),
        Object::plain(3, "<< /Type /Page /Parent 2 0 R /Contents 4 0 R >>"),
        Object::stream(4, &text_stream(content_seed, 20 << 10)),
        Object::stream(5, &noise(image_seed, 200 << 10)),
    ])
}

fn text_stream(seed: &str, len: usize) -> Vec<u8> {
    let raw: Vec<u8> = noise(seed, len);
    let mut out: Vec<u8> = Vec::with_capacity(len + len / 16);
    for (index, byte) in raw.iter().enumerate() {
        out.push(b'A' + byte % 26);
        if index % 40 == 39 {
            out.extend_from_slice(b" Tj\n");
        }
    }
    out
}

fn chunks_of(bytes: &[u8], window: usize) -> Result<Vec<Vec<u8>>, ChunkError> {
    let mut chunker = PdfChunker::new();
    let mut chunks: Vec<Vec<u8>> = Vec::new();
    for slice in bytes.chunks(window.max(1)) {
        chunker.push(slice, &mut chunks)?;
    }
    chunker.finish(&mut chunks)?;
    Ok(chunks)
}

#[test]
fn chunks_concatenate_to_the_input_and_are_window_independent() {
    let input: Vec<u8> = typical("pdf/base", "pdf/base-image");
    let whole: Vec<Vec<u8>> = chunks_of(&input, 4096).expect("valid document");
    assert_eq!(whole.concat(), input);
    for window in [1usize, 13, 1 << 20] {
        assert_eq!(chunks_of(&input, window).expect("valid"), whole, "{window}");
    }
    assert!(whole.len() >= 3, "the image stream must split off");
}

#[test]
fn an_incremental_update_reuses_every_chunk_but_the_last() {
    let base: Vec<u8> = typical("pdf/incremental", "pdf/incremental-image");
    let updated: Vec<u8> =
        incremental_update(&base, &[Object::plain(6, "<< /Type /Annot /Contents (added later) >>")]);
    let base_chunks: Vec<Vec<u8>> = chunks_of(&base, 4096).expect("valid");
    let updated_chunks: Vec<Vec<u8>> = chunks_of(&updated, 4096).expect("valid");
    let shared: HashSet<&[u8]> = base_chunks.iter().map(Vec::as_slice).collect();
    let reused: usize = updated_chunks.iter().filter(|chunk| shared.contains(chunk.as_slice())).count();
    assert!(reused >= base_chunks.len() - 1, "reused only {reused} of {} original chunks", base_chunks.len());
}

#[test]
fn an_edited_object_leaves_the_image_streams_chunks_identical() {
    let original: Vec<Vec<u8>> = chunks_of(&typical("pdf/edit-a", "pdf/shared-image"), 4096).expect("valid");
    let edited: Vec<Vec<u8>> = chunks_of(&typical("pdf/edit-b", "pdf/shared-image"), 4096).expect("valid");
    let original_set: HashSet<&[u8]> = original.iter().map(Vec::as_slice).collect();
    let shared: usize =
        edited.iter().filter(|chunk| original_set.contains(chunk.as_slice())).map(Vec::len).sum();
    assert!(shared >= 190 << 10, "only {shared} shared bytes");
}

#[test]
fn indirect_length_streams_scan_to_endstream() {
    let payload: Vec<u8> = noise("pdf/indirect", 30 << 10);
    let input: Vec<u8> = document(&[
        Object::plain(1, "<< /Type /Catalog >>"),
        Object::stream_indirect_length(2, 3, &payload),
        Object::plain(3, "30720"),
    ]);
    let chunks: Vec<Vec<u8>> = chunks_of(&input, 4096).expect("indirect length is legal");
    assert_eq!(chunks.concat(), input);
}

#[test]
fn a_lying_direct_length_falls_back_to_scanning_deterministically() {
    let payload: Vec<u8> = noise("pdf/lying", 12 << 10);
    let mut body: Vec<u8> = format!("<< /Length {} >>\nstream\n", payload.len() - 500).into_bytes();
    body.extend_from_slice(&payload);
    body.extend_from_slice(b"\nendstream");
    let input: Vec<u8> = document(&[Object::plain(1, "<< /Type /Catalog >>"), Object { number: 2, body }]);
    let whole: Vec<Vec<u8>> = chunks_of(&input, 4096).expect("scan fallback recovers");
    assert_eq!(whole.concat(), input);
    assert_eq!(chunks_of(&input, 7).expect("valid"), whole);
}

#[test]
fn binary_payloads_with_pdf_delimiters_do_not_confuse_the_walker() {
    let mut payload: Vec<u8> = noise("pdf/tricky", 8 << 10);
    payload.extend_from_slice(b")>>] endobj (");
    payload.extend_from_slice(&noise("pdf/tricky2", 8 << 10));
    let input: Vec<u8> = document(&[Object::plain(1, "<< /Type /Catalog >>"), Object::stream(2, &payload)]);
    let chunks: Vec<Vec<u8>> = chunks_of(&input, 4096).expect("length skips the payload");
    assert_eq!(chunks.concat(), input);
}

#[test]
fn malformed_documents_reject() {
    chunks_of(b"not a pdf at all", 4096).expect_err("no magic");
    let mut truncated: Vec<u8> = typical("pdf/truncated", "pdf/truncated-image");
    truncated.truncate(truncated.len() - 40);
    chunks_of(&truncated, 4096).expect_err("no %%EOF");
    let input: Vec<u8> = document(&[Object::plain(1, "<< /K (unterminated")]);
    chunks_of(&input, 4096).expect_err("unterminated string swallows endobj");
}

#[test]
fn the_stream_stays_poisoned_after_rejection() {
    let mut chunker = PdfChunker::new();
    let mut sink: Vec<Vec<u8>> = Vec::new();
    chunker.push(b"garbage", &mut sink).expect_err("not a pdf");
    let error: ChunkError = chunker.push(b"more", &mut sink).expect_err("poisoned");
    assert!(matches!(error, ChunkError::ProfileStreamRejected { .. }));
}

/// The magic is checked byte by byte: the first wrong byte is the
/// reported one, and nothing is emitted.
#[test]
fn pdf_magic_fault_reports_the_offending_byte() {
    let mut chunker = PdfChunker::new();
    let mut sink: Vec<Vec<u8>> = Vec::new();
    let error: ChunkError = chunker.push(b"%PDX", &mut sink).expect_err("not a pdf");
    match error {
        ChunkError::MalformedProfileInput { profile, detail, .. } => {
            assert_eq!(profile, "pdf-v1");
            assert_eq!(detail, PdfFault::NotPdf.detail());
        },
        other => panic!("unexpected error {other:?}"),
    }
    assert!(sink.is_empty());
    assert!(matches!(chunker.finish(&mut sink), Err(ChunkError::ProfileStreamRejected { profile: "pdf-v1" })));
}

/// A complete document minus its `%%EOF` fails at finish; a document
/// that is only the header and `%%EOF` is accepted whole.
#[test]
fn pdf_finish_requires_the_eof_marker() {
    let minimal: Vec<u8> = b"%PDF-1.7\n%%EOF\n".to_vec();
    let chunks: Vec<Vec<u8>> = chunks_of(&minimal, 3).expect("minimal document");
    assert_eq!(chunks, vec![minimal.clone()]);

    let headless: Vec<u8> = b"%PDF-1.7\n".to_vec();
    match chunks_of(&headless, 4096) {
        Err(ChunkError::MalformedProfileInput { profile: "pdf-v1", .. }) => {},
        other => panic!("unexpected outcome {other:?}"),
    }
}

/// The detail a document is rejected with, at push or at finish.
fn pdf_fault_of(bytes: &[u8]) -> &'static str {
    match chunks_of(bytes, 4096) {
        Err(ChunkError::MalformedProfileInput { profile, detail, .. }) => {
            assert_eq!(profile, "pdf-v1");
            detail
        },
        other => panic!("unexpected outcome {other:?}"),
    }
}

/// Every structural fault has an input that produces it.
#[test]
fn pdf_every_fault_has_an_input() {
    assert_eq!(pdf_fault_of(b"%PDX-1.7\n"), PdfFault::NotPdf.detail());
    assert_eq!(pdf_fault_of(b"%PDF"), PdfFault::NotPdf.detail());
    assert_eq!(pdf_fault_of(b"%PDF-1.7\n1 obj\n"), PdfFault::BadObjectHeader.detail());
    assert_eq!(pdf_fault_of(b"%PDF-1.7\n1 0 0 obj\n"), PdfFault::BadObjectHeader.detail());
    assert_eq!(pdf_fault_of(b"%PDF-1.7\n/Name\n"), PdfFault::BadKeyword.detail());
    assert_eq!(pdf_fault_of(b"%PDF-1.7\nstartobj\n"), PdfFault::BadKeyword.detail());
    assert_eq!(
        pdf_fault_of(b"%PDF-1.7\n1 0 obj\n<< /Length 3 >>\nstream abc\nendstream\nendobj\n"),
        PdfFault::BadStreamEol.detail()
    );
    assert_eq!(pdf_fault_of(b"%PDF-1.7\nxref\n0 1 2\n"), PdfFault::XrefGeometry.detail());
    assert_eq!(pdf_fault_of(b"%PDF-1.7\n1 0 obj\n<< /A 1 >>"), PdfFault::Truncated.detail());
    assert_eq!(pdf_fault_of(b"%PDF-1.7\n1 0 obj\n<< /A 1 >>\nendobj\n"), PdfFault::MissingEof.detail());
}

/// A stream object with a CR LF after `stream` and an empty stream
/// are accepted, and the document's bytes come back whole.
#[test]
fn pdf_stream_line_ends_and_empty_streams() {
    let crlf: Vec<u8> =
        b"%PDF-1.7\n1 0 obj\n<< /Length 3 >>\nstream\r\nabc\nendstream\nendobj\n%%EOF\n".to_vec();
    assert_eq!(chunks_of(&crlf, 1).expect("CR LF").concat(), crlf);
    let empty: Vec<u8> = b"%PDF-1.7\n1 0 obj\n<< /Length 0 >>\nstream\n\nendstream\nendobj\n%%EOF\n".to_vec();
    assert_eq!(chunks_of(&empty, 2).expect("empty stream").concat(), empty);
}

/// A fault names the first rejected byte.
#[test]
fn pdf_faults_report_the_first_rejected_byte() {
    let mut chunker = PdfChunker::new();
    let mut sink: Vec<Vec<u8>> = Vec::new();
    assert_eq!(
        chunker.push(b"not a pdf at all", &mut sink),
        Err(ChunkError::MalformedProfileInput { profile: "pdf-v1", offset: 0, detail: PdfFault::NotPdf.detail() })
    );
    assert!(sink.is_empty());
    let mut chunker = PdfChunker::new();
    assert_eq!(
        chunker.push(b"%PDX", &mut sink),
        Err(ChunkError::MalformedProfileInput { profile: "pdf-v1", offset: 3, detail: PdfFault::NotPdf.detail() })
    );
}

/// A scanned payload closes at the first `endstream`, even where a
/// partial match overlaps it.
#[test]
fn overlapping_endstream_closes_the_payload() {
    let input: Vec<u8> =
        b"%PDF-1.7\n1 0 obj\n<< /Length 2 0 R >>\nstream\nendstrendstream\nendobj\n%%EOF\n".to_vec();
    assert_eq!(chunks_of(&input, 1).expect("the payload closes").concat(), input);
    let input: Vec<u8> =
        b"%PDF-1.7\n1 0 obj\n<< /Length 1 >>\nstream\nxendstrendstream\nendobj\n%%EOF\n".to_vec();
    assert_eq!(chunks_of(&input, 3).expect("the lying length falls back").concat(), input);
}
