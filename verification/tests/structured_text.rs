//! `structured-text-v1`: candidate-only cuts, scalar safety at forced
//! cuts, fail-hard malformed input, feed-order independence, and
//! shifted-region reuse.

use legra_chunk::constants::{
    GENERIC_CDC_CHUNK_MAX_BYTES, GENERIC_CDC_CHUNK_MIN_BYTES, GENERIC_CDC_CHUNK_TARGET_BYTES,
};
use legra_chunk::text::chunker::Candidate;
use legra_chunk::text::utf8::Utf8Fault;
use legra_chunk::{ChunkError, StructuredTextChunker};

/// Deterministic word stream: seeded pseudo-random picks from a small
/// vocabulary, so corpora are text-shaped but unique.
struct Words {
    reader: blake3::OutputReader,
}

const VOCABULARY: [&str; 24] = [
    "literal",
    "manifest",
    "chunk",
    "workspace",
    "canonical",
    "boundary",
    "profile",
    "stream",
    "résumé",
    "naïve",
    "日本語",
    "Ελληνικά",
    "emoji😀",
    "block",
    "index",
    "commit",
    "branch",
    "merge",
    "custody",
    "encrypt",
    "deterministic",
    "frozen",
    "registry",
    "datatype",
];

impl Words {
    fn new(seed: &str) -> Self {
        let mut hasher = blake3::Hasher::new();
        hasher.update(seed.as_bytes());
        Self { reader: hasher.finalize_xof() }
    }

    fn byte(&mut self) -> u8 {
        let mut one: [u8; 1] = [0u8; 1];
        self.reader.fill(&mut one);
        one[0]
    }

    fn word(&mut self) -> &'static str {
        VOCABULARY[usize::from(self.byte()) % VOCABULARY.len()]
    }

    fn line(&mut self, n: usize) -> String {
        (0..n).map(|_| self.word()).collect::<Vec<_>>().join(" ")
    }
}

/// Markdown-shaped text of at least `len` bytes.
fn markdown(seed: &str, len: usize) -> Vec<u8> {
    let mut words = Words::new(seed);
    let mut out = String::new();
    let mut paragraph: usize = 0;
    while out.len() < len {
        if paragraph % 5 == 0 {
            out.push_str("## ");
            out.push_str(&words.line(3));
            out.push_str("\n\n");
        }
        if paragraph % 3 == 2 {
            for _ in 0..4 {
                out.push_str("- ");
                out.push_str(&words.line(6));
                out.push('\n');
            }
            out.push('\n');
        } else {
            let sentences: usize = 2 + usize::from(words.byte() % 4);
            for _ in 0..sentences {
                let words_in_sentence: usize = 8 + usize::from(words.byte() % 10);
                out.push_str(&words.line(words_in_sentence));
                out.push_str(". ");
            }
            out.push_str("\n\n");
        }
        paragraph += 1;
    }
    out.into_bytes()
}

/// Minified JSON of at least `len` bytes: one line, no whitespace.
fn minified_json(seed: &str, len: usize) -> Vec<u8> {
    let mut words = Words::new(seed);
    let mut out = String::from("[");
    let mut first: bool = true;
    while out.len() < len {
        if !first {
            out.push(',');
        }
        first = false;
        let id: u32 = u32::from(words.byte()) * 7919;
        let name: &str = words.word();
        let tag_a: &str = words.word();
        let tag_b: &str = words.word();
        out.push_str(&format!("{{\"id\":{id},\"name\":\"{name}\",\"tags\":[\"{tag_a}\",\"{tag_b}\"]}}"));
    }
    out.push(']');
    out.into_bytes()
}

/// Pretty-printed XML of at least `len` bytes.
fn xml(seed: &str, len: usize) -> Vec<u8> {
    let mut words = Words::new(seed);
    let mut out = String::from("<?xml version=\"1.0\" encoding=\"UTF-8\"?>\n<corpus>\n");
    while out.len() < len {
        let id: u32 = u32::from(words.byte());
        let title: String = words.line(3);
        let body: String = words.line(12);
        out.push_str(&format!(
            "  <entry id=\"{id}\">\n    <title>{title}</title>\n    <body>{body}</body>\n  </entry>\n"
        ));
    }
    out.push_str("</corpus>\n");
    out.into_bytes()
}

/// The chunks of a text fed in `window`-sized pushes.
fn chunks_of(bytes: &[u8], window: usize) -> Result<Vec<Vec<u8>>, ChunkError> {
    let mut chunker = StructuredTextChunker::new();
    let mut chunks: Vec<Vec<u8>> = Vec::new();
    for slice in bytes.chunks(window.max(1)) {
        chunker.push(slice, &mut chunks)?;
    }
    chunker.finish(&mut chunks)?;
    Ok(chunks)
}

/// The byte ranges of a well-formed text's chunks, fed whole.
fn structured(bytes: &[u8]) -> Vec<std::ops::Range<usize>> {
    let chunks: Vec<Vec<u8>> = chunks_of(bytes, bytes.len()).expect("well-formed text");
    let mut ranges: Vec<std::ops::Range<usize>> = Vec::new();
    let mut start: usize = 0;
    for chunk in &chunks {
        ranges.push(start..start + chunk.len());
        start += chunk.len();
    }
    ranges
}

/// Whether a chunk's final byte is a frozen cut candidate.
fn ends_at_candidate(chunk: &[u8]) -> bool {
    matches!(chunk.last(), Some(b'\n' | b'\t' | b'\r' | b' ' | b',' | b';' | b'.' | b'}' | b']' | b'>' | b')'))
}

#[test]
fn bounds_coverage_and_candidate_cuts() {
    for (name, bytes) in [
        ("markdown", markdown("els06/bounds", 2 << 20)),
        ("json", minified_json("els06/bounds", 2 << 20)),
        ("xml", xml("els06/bounds", 2 << 20)),
    ] {
        let ranges = structured(&bytes);
        assert!(ranges.len() > 8, "{name}: corpus too small to exercise cuts");
        let mut expected_start: usize = 0;
        for (position, range) in ranges.iter().enumerate() {
            assert_eq!(range.start, expected_start, "{name}: gap or overlap");
            let chunk: &[u8] = &bytes[range.clone()];
            assert!(chunk.len() <= GENERIC_CDC_CHUNK_MAX_BYTES, "{name}: above maximum");
            assert!(std::str::from_utf8(chunk).is_ok(), "{name}: chunk splits a scalar");
            let last: bool = position + 1 == ranges.len();
            if !last {
                assert!(chunk.len() >= GENERIC_CDC_CHUNK_MIN_BYTES, "{name}: non-final chunk below minimum");
                assert!(
                    ends_at_candidate(chunk) || chunk.len() >= GENERIC_CDC_CHUNK_MAX_BYTES - 3,
                    "{name}: chunk {position} ends at a non-candidate byte"
                );
            }
            expected_start = range.end;
        }
        assert_eq!(expected_start, bytes.len(), "{name}: incomplete coverage");
    }
}

#[test]
fn long_lines_still_cut_near_target() {
    let bytes: Vec<u8> = minified_json("els06/long-lines", 4 << 20);
    let ranges = structured(&bytes);
    let forced: usize = ranges.iter().filter(|range| range.len() >= GENERIC_CDC_CHUNK_MAX_BYTES - 3).count();
    assert!(forced * 4 < ranges.len(), "{forced} of {} chunks were forced at the maximum", ranges.len());
    let mean: usize = bytes.len() / ranges.len();
    assert!(mean < GENERIC_CDC_CHUNK_TARGET_BYTES * 2, "mean chunk {mean} bytes drifted far above target");
}

#[test]
fn forced_cuts_never_split_a_scalar() {
    let mut bytes: Vec<u8> = "€".as_bytes().to_vec();
    bytes.extend("😀".repeat(GENERIC_CDC_CHUNK_MAX_BYTES * 2).as_bytes());
    let ranges = structured(&bytes);
    assert!(ranges.len() >= 8);
    for (position, range) in ranges.iter().enumerate() {
        let chunk: &[u8] = &bytes[range.clone()];
        assert!(std::str::from_utf8(chunk).is_ok(), "chunk {position} splits a scalar");
        if position + 1 < ranges.len() {
            assert!(
                chunk.len() <= GENERIC_CDC_CHUNK_MAX_BYTES && chunk.len() >= GENERIC_CDC_CHUNK_MAX_BYTES - 3,
                "chunk {position} is {} bytes, not a maximum cut",
                chunk.len()
            );
        }
    }
}

#[test]
fn tests_empty_payload_produces_no_chunks() {
    assert!(structured(&[]).is_empty());
}

#[test]
fn malformed_input_fails_hard() {
    let mut prefix: Vec<u8> = markdown("els06/malformed", 40 << 10);
    prefix.truncate(40 << 10);
    while std::str::from_utf8(&prefix).is_err() {
        prefix.pop();
    }
    let at: u64 = prefix.len() as u64;
    let tails: [(&str, Vec<u8>); 7] = [
        ("stray continuation", vec![0x80u8]),
        ("overlong two-byte", vec![0xC0, 0x80]),
        ("overlong three-byte", vec![0xE0, 0x80, 0x80]),
        ("surrogate", vec![0xED, 0xA0, 0x80]),
        ("above U+10FFFF", vec![0xF4, 0x90, 0x80, 0x80]),
        ("F5 lead", vec![0xF5]),
        ("broken continuation", vec![0xE2, 0x28, 0xA1]),
    ];
    for (name, tail) in tails {
        let mut bytes: Vec<u8> = prefix.clone();
        bytes.extend_from_slice(&tail);
        let error: ChunkError = chunks_of(&bytes, bytes.len()).expect_err(name);
        match error {
            ChunkError::MalformedProfileInput { profile, offset, .. } => {
                assert_eq!(profile, "structured-text-v1", "{name}");
                assert!(offset >= at && offset < at + tail.len() as u64, "{name}: fault at {offset}, tail starts at {at}");
            },
            other => panic!("{name}: expected malformed-input error, got {other:?}"),
        }
    }

    let mut bytes: Vec<u8> = prefix.clone();
    bytes.extend_from_slice(&[0xE2, 0x82]);
    let error: ChunkError = chunks_of(&bytes, bytes.len()).expect_err("truncated scalar");
    assert!(matches!(error, ChunkError::MalformedProfileInput { .. }), "truncated scalar: {error:?}");

    let mut chunker = StructuredTextChunker::new();
    let mut sink: Vec<Vec<u8>> = Vec::new();
    chunker.push(&[0xFF], &mut sink).expect_err("rejects");
    assert!(matches!(chunker.push(b"fine", &mut sink), Err(ChunkError::ProfileStreamRejected { .. })));
    assert!(matches!(chunker.finish(&mut sink), Err(ChunkError::ProfileStreamRejected { .. })));
}

#[test]
fn tests_feed_order_does_not_change_boundaries() {
    let bytes: Vec<u8> = markdown("els06/windows", 1 << 20);
    let whole: Vec<usize> = structured(&bytes).iter().map(|range| range.end).collect();
    for window in [1usize, 3, 7, 4096, 1 << 17] {
        let chunks: Vec<Vec<u8>> = chunks_of(&bytes, window).expect("well-formed");
        let mut ends: Vec<usize> = Vec::new();
        let mut end: usize = 0;
        for chunk in &chunks {
            end += chunk.len();
            ends.push(end);
        }
        assert_eq!(ends, whole, "window size {window} changed boundaries");
    }
}

fn chunk_hashes(bytes: &[u8]) -> Vec<blake3::Hash> {
    structured(bytes).into_iter().map(|range| blake3::hash(&bytes[range])).collect()
}

fn reuse_ratio(base: &[blake3::Hash], edited: &[blake3::Hash]) -> f64 {
    let reused: usize = edited.iter().filter(|hash| base.contains(hash)).count();
    reused as f64 / edited.len() as f64
}

#[test]
fn boundaries_resynchronize_after_edits() {
    let shared: Vec<u8> = markdown("els06/shared", 4 << 20);
    let base: Vec<blake3::Hash> = chunk_hashes(&shared);

    for prefix_len in [1usize, 64, 4096, 65_536] {
        let mut shifted: Vec<u8> = markdown("els06/prefix", prefix_len);
        shifted.truncate(prefix_len);
        while std::str::from_utf8(&shifted).is_err() {
            shifted.pop();
        }
        shifted.extend_from_slice(&shared);
        let ratio: f64 = reuse_ratio(&base, &chunk_hashes(&shifted));
        assert!(ratio > 0.90, "a {prefix_len}-byte shift reused only {ratio:.3} of chunks");
    }

    let middle: usize = shared.len() / 2;
    let split: usize = (middle..shared.len()).find(|&offset| shared[offset] == b'\n').expect("a line end") + 1;
    let mut edited: Vec<u8> = shared[..split].to_vec();
    edited.extend_from_slice(markdown("els06/insert", 2 << 10).as_slice());
    edited.extend_from_slice(&shared[split..]);
    let ratio: f64 = reuse_ratio(&base, &chunk_hashes(&edited));
    assert!(ratio > 0.90, "a mid-document insertion reused only {ratio:.3} of chunks");
}

/// Chunks concatenate to the input, and no chunk is empty.
#[test]
fn text_chunks_concatenate_to_the_input() {
    let bytes: Vec<u8> = xml("text/concat", 600 << 10);
    let chunks: Vec<Vec<u8>> = chunks_of(&bytes, 4093).expect("well-formed");
    assert_eq!(chunks.concat(), bytes);
    assert!(chunks.iter().all(|chunk| !chunk.is_empty()));
}

/// A short text is a single chunk: nothing closes before the minimum.
#[test]
fn a_short_text_is_one_chunk() {
    let bytes: Vec<u8> = "short text, with candidates.\n".as_bytes().to_vec();
    assert_eq!(chunks_of(&bytes, 5).expect("well-formed"), vec![bytes.clone()]);
}

/// The frozen candidate classes: line ends, soft breaks, and the rest.
#[test]
fn candidate_classes_are_frozen() {
    for byte in [b'\n'] {
        assert!(matches!(Candidate::of(byte), Candidate::LineEnd));
    }
    for byte in [b'\t', b'\r', b' ', b',', b';', b'.', b'}', b']', b'>', b')'] {
        assert!(matches!(Candidate::of(byte), Candidate::SoftBreak), "{byte}");
    }
    for byte in [b'a', b'{', b'[', b'<', b'(', 0xE2u8, 0x80] {
        assert!(matches!(Candidate::of(byte), Candidate::NotCandidate), "{byte}");
    }
}

/// The offset of a malformed byte is exact, and a stream that ends
/// inside a scalar is reported at its end.
#[test]
fn malformed_offsets_are_exact() {
    let mut chunker = StructuredTextChunker::new();
    let mut sink: Vec<Vec<u8>> = Vec::new();
    chunker.push(b"abc", &mut sink).expect("well-formed");
    match chunker.push(&[0x80], &mut sink) {
        Err(ChunkError::MalformedProfileInput { profile, offset, .. }) => {
            assert_eq!(profile, "structured-text-v1");
            assert_eq!(offset, 3);
        },
        other => panic!("unexpected outcome {other:?}"),
    }
    let mut chunker = StructuredTextChunker::new();
    chunker.push(&[b'a', 0xE2, 0x82], &mut sink).expect("a prefix of a scalar");
    match chunker.finish(&mut sink) {
        Err(ChunkError::MalformedProfileInput { profile, offset, .. }) => {
            assert_eq!(profile, "structured-text-v1");
            assert_eq!(offset, 3);
        },
        other => panic!("unexpected outcome {other:?}"),
    }
}

/// Each UTF-8 fault names its cause: a byte that cannot begin a
/// scalar, or one that cannot continue it.
#[test]
fn utf8_faults_carry_their_detail() {
    for (bytes, fault) in [
        (vec![0x80u8], Utf8Fault::InvalidLeadByte),
        (vec![0xC1u8, 0x81], Utf8Fault::InvalidLeadByte),
        (vec![0xF5u8], Utf8Fault::InvalidLeadByte),
        (vec![0xE0u8, 0x80], Utf8Fault::InvalidContinuation),
        (vec![0xED, 0xA0], Utf8Fault::InvalidContinuation),
        (vec![0xF4, 0x90], Utf8Fault::InvalidContinuation),
        (vec![0xE2, 0x28], Utf8Fault::InvalidContinuation),
    ] {
        match chunks_of(&bytes, 1) {
            Err(ChunkError::MalformedProfileInput { detail, .. }) => assert_eq!(detail, fault.detail(), "{bytes:?}"),
            other => panic!("unexpected outcome {other:?}"),
        }
    }
}
