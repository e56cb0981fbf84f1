//! [`Walker`] — the forward-only PDF structure walker.
//!
//! It reads the document exactly once: the header line, then body
//! items — indirect objects (with their stream payloads skipped by
//! the direct `/Length` when one is present, else by scanning for
//! `endstream`), comments, classic `xref` tables, `trailer`
//! dictionaries, and `startxref` — through any number of
//! incremental-update sections. Nothing is decoded; only item
//! boundaries and gross structure are checked.
//!
//! The walk is specified as a transition function on a mathematical
//! model ([`pdf_consume_spec`]); the executable walker is proved to
//! follow it byte by byte.

use vstd::prelude::*;
use vstd::string::StringSliceAdditionalSpecFns;

use super::fault::PdfFault;
use super::object::{
    all_digits, decimal_value, is_digit, is_whitespace, parse_int, parse_int_spec, pdf_whitespace, scan_byte_spec, scan_length, scan_wf,
    scanner_initial, lemma_scan_byte_bounds, ObjectScanner, ObjectSignal, ScanModel,
};

verus! {

broadcast use vstd::seq_lib::group_seq_properties;

/// Longest line the xref parser retains.
pub const LINE_MAX: usize = 128;
/// Longest item keyword (`startxref` is 9).
pub const KEYWORD_MAX: usize = 10;
/// The `%PDF-` magic.
pub const MAGIC: &'static str = "%PDF-";
/// The keyword that closes a stream payload.
pub const ENDSTREAM: &'static str = "endstream";
/// The end-of-file marker.
pub const EOF_MARKER: &'static str = "%%EOF";
/// The cross-reference table keyword.
pub const XREF_KEYWORD: &'static str = "xref";
/// The trailer keyword.
pub const TRAILER_KEYWORD: &'static str = "trailer";
/// The startxref keyword.
pub const STARTXREF_KEYWORD: &'static str = "startxref";

/// The keyword literals as bytes.
pub proof fn lemma_pdf_literals()
    ensures
        MAGIC.spec_bytes() == seq![37u8, 80u8, 68u8, 70u8, 45u8],
        ENDSTREAM.spec_bytes() == seq![101u8, 110u8, 100u8, 115u8, 116u8, 114u8, 101u8, 97u8, 109u8],
        EOF_MARKER.spec_bytes() == seq![37u8, 37u8, 69u8, 79u8, 70u8],
        TRAILER_KEYWORD.spec_bytes() == seq![116u8, 114u8, 97u8, 105u8, 108u8, 101u8, 114u8],
{
    reveal_strlit("%PDF-");
    reveal_strlit("endstream");
    reveal_strlit("%%EOF");
    reveal_strlit("trailer");
    vstd::string::is_ascii_spec_bytes(MAGIC);
    vstd::string::is_ascii_spec_bytes(ENDSTREAM);
    vstd::string::is_ascii_spec_bytes(EOF_MARKER);
    vstd::string::is_ascii_spec_bytes(TRAILER_KEYWORD);
    assert(vstd::string::is_ascii(MAGIC));
    assert(vstd::string::is_ascii(ENDSTREAM));
    assert(vstd::string::is_ascii(EOF_MARKER));
    assert(vstd::string::is_ascii(TRAILER_KEYWORD));
    assert(MAGIC.spec_bytes() =~= seq![37u8, 80u8, 68u8, 70u8, 45u8]);
    assert(ENDSTREAM.spec_bytes() =~= seq![101u8, 110u8, 100u8, 115u8, 116u8, 114u8, 101u8, 97u8, 109u8]);
    assert(EOF_MARKER.spec_bytes() =~= seq![37u8, 37u8, 69u8, 79u8, 70u8]);
    assert(TRAILER_KEYWORD.spec_bytes() =~= seq![116u8, 114u8, 97u8, 105u8, 108u8, 101u8, 114u8]);
}

/// What the walker is doing, as a mathematical value.
pub enum PdfState {
    /// Matching the `%PDF-` magic.
    Magic { matched: usize },
    /// Consuming the rest of the header line.
    HeaderLine,
    /// Between body items, skipping white space. The next non-white
    /// byte begins an item — the profile's cut candidate.
    Item,
    /// A `%` comment line: its first five bytes and its length.
    Comment { line: Seq<u8>, len: u64 },
    /// Collecting `number generation obj`.
    ObjHeader { ints: u8, seen_digits: bool },
    /// Inside an object body.
    Object { scanner: ScanModel },
    /// After `stream`, awaiting CR/LF or LF.
    StreamEol { scanner: ScanModel, saw_cr: bool },
    /// Counting a known-length stream payload.
    StreamBytes { scanner: ScanModel, remaining: u64 },
    /// After a known-length payload: white space then `endstream`.
    StreamClose { scanner: ScanModel, matched: usize },
    /// Scanning an unknown-length payload for `endstream`.
    StreamScan { scanner: ScanModel, matched: usize },
    /// Collecting one keyword at item start.
    ItemKeyword { token: Seq<u8> },
    /// Collecting one xref line.
    XrefLine { line: Seq<u8> },
    /// Skipping fixed-width xref entries.
    XrefEntries { remaining: u64 },
    /// Inside the trailer dictionary.
    Trailer { scanner: ScanModel },
    /// Collecting the startxref offset line.
    StartxrefLine { len: u64, seen_digit: bool },
}

/// The walker as a mathematical value.
pub struct PdfWalkerModel {
    /// What the walker is doing.
    pub state: PdfState,
    /// Bytes consumed so far.
    pub offset: u64,
    /// The last completed item was the `%%EOF` marker.
    pub eof_last: bool,
    /// Whether the next consumed byte may begin a body item.
    pub boundary_pending: bool,
}

/// A fresh walker.
pub open spec fn pdf_walker_initial() -> PdfWalkerModel {
    PdfWalkerModel { state: PdfState::Magic { matched: 0 }, offset: 0, eof_last: false, boundary_pending: false }
}

/// An ASCII line end.
pub open spec fn line_end(byte: u8) -> bool {
    byte == 10 || byte == 13
}

/// An ASCII decimal digit.
pub open spec fn digit(byte: u8) -> bool {
    48 <= byte <= 57
}

/// The white-space-separated words of an xref line.
pub open spec fn xref_words(line: Seq<u8>) -> Seq<Seq<u8>>
    decreases line.len(),
{
    if line.len() == 0 {
        Seq::empty()
    } else {
        let words = xref_words(line.drop_last());
        let byte = line.last();
        if pdf_whitespace(byte) {
            words
        } else if line.len() >= 2 && !pdf_whitespace(line[line.len() - 2]) {
            words.update(words.len() - 1, words.last().push(byte))
        } else {
            words.push(seq![byte])
        }
    }
}

/// The words after the first, each preceded by one space.
pub open spec fn spaced(words: Seq<Seq<u8>>) -> Seq<u8>
    decreases words.len(),
{
    if words.len() == 0 {
        Seq::empty()
    } else {
        spaced(words.drop_last()) + seq![32u8] + words.last()
    }
}

/// The total length of some words.
pub open spec fn words_len(words: Seq<Seq<u8>>) -> nat
    decreases words.len(),
{
    if words.len() == 0 {
        0
    } else {
        words_len(words.drop_last()) + words.last().len()
    }
}

/// The scanner after `bytes`, signals ignored.
pub open spec fn scan_all(s: ScanModel, bytes: Seq<u8>) -> ScanModel
    decreases bytes.len(),
{
    if bytes.len() == 0 {
        s
    } else {
        scan_byte_spec(scan_all(s, bytes.drop_last()), bytes.last()).0
    }
}

/// The scanner after `bytes`, stopping at the byte that closes the
/// dictionary; whether one did.
pub open spec fn scan_until_closed(s: ScanModel, bytes: Seq<u8>) -> (ScanModel, bool)
    decreases bytes.len(),
{
    if bytes.len() == 0 {
        (s, false)
    } else {
        let (s1, closed) = scan_until_closed(s, bytes.drop_last());
        if closed {
            (s1, true)
        } else {
            let (s2, signal) = scan_byte_spec(s1, bytes.last());
            (s2, signal == ObjectSignal::DictClosed)
        }
    }
}

/// Whether `bytes` begins with `prefix`.
pub open spec fn has_prefix(bytes: Seq<u8>, prefix: Seq<u8>) -> bool {
    prefix.len() <= bytes.len() && bytes.subrange(0, prefix.len() as int) == prefix
}

/// The state that consumes a stream payload whose dictionary scanner
/// just crossed its line end.
pub open spec fn stream_payload_spec(scanner: ScanModel) -> PdfState {
    match scan_length(scanner) {
        Some(length) => if length == 0 {
            PdfState::StreamClose { scanner, matched: 0 }
        } else {
            PdfState::StreamBytes { scanner, remaining: length }
        },
        None => PdfState::StreamScan { scanner, matched: 0 },
    }
}

/// An empty xref line buffer.
pub open spec fn fresh_xref_line() -> PdfState {
    PdfState::XrefLine { line: Seq::empty() }
}

/// One completed xref line: blank, a `start count` subsection
/// header, or the start of the trailer.
pub open spec fn close_xref_line_spec(line: Seq<u8>) -> Result<PdfState, PdfFault> {
    let words = xref_words(line);
    if words.len() == 0 {
        Ok(fresh_xref_line())
    } else if words.len() == 2 {
        match (parse_int_spec(words[0]), parse_int_spec(words[1])) {
            (Some(_), Some(count)) => if count == 0 {
                Ok(fresh_xref_line())
            } else if count * 20 > u64::MAX {
                Err(PdfFault::XrefGeometry)
            } else {
                Ok(PdfState::XrefEntries { remaining: (count * 20) as u64 })
            },
            _ => Err(PdfFault::XrefGeometry),
        }
    } else if has_prefix(words[0], TRAILER_KEYWORD.spec_bytes()) {
        let opened = scan_all(scanner_initial(), words[0].subrange(7, words[0].len() as int));
        let (scanner, closed) = scan_until_closed(opened, spaced(words.drop_first()));
        if closed {
            Ok(PdfState::Item)
        } else {
            Ok(PdfState::Trailer { scanner })
        }
    } else {
        Err(PdfFault::XrefGeometry)
    }
}

/// One byte at item level (the `eof_last` flag and the state).
pub open spec fn item_byte_spec(w: PdfWalkerModel, byte: u8) -> Result<PdfWalkerModel, PdfFault> {
    if pdf_whitespace(byte) {
        Ok(w)
    } else {
        let w1 = PdfWalkerModel { eof_last: false, ..w };
        if byte == 37 {
            Ok(PdfWalkerModel { state: PdfState::Comment { line: seq![37u8], len: 1 }, ..w1 })
        } else if digit(byte) {
            Ok(PdfWalkerModel { state: PdfState::ObjHeader { ints: 0, seen_digits: true }, ..w1 })
        } else if byte == 120 || byte == 116 || byte == 115 {
            Ok(PdfWalkerModel { state: PdfState::ItemKeyword { token: seq![byte] }, ..w1 })
        } else {
            Err(PdfFault::BadKeyword)
        }
    }
}

/// One byte of an object header.
pub open spec fn obj_header_spec(ints: u8, seen_digits: bool, byte: u8) -> Result<PdfState, PdfFault> {
    if digit(byte) {
        Ok(PdfState::ObjHeader { ints, seen_digits: true })
    } else if pdf_whitespace(byte) {
        if seen_digits {
            if ints + 1 > 2 {
                Err(PdfFault::BadObjectHeader)
            } else {
                Ok(PdfState::ObjHeader { ints: (ints + 1) as u8, seen_digits: false })
            }
        } else {
            Ok(PdfState::ObjHeader { ints, seen_digits })
        }
    } else if byte == 111 || byte == 98 || byte == 106 {
        let counted: int = if seen_digits { ints + 1 } else { ints as int };
        if counted != 2 {
            Err(PdfFault::BadObjectHeader)
        } else if byte == 106 {
            Ok(PdfState::Object { scanner: scanner_initial() })
        } else {
            Ok(PdfState::ObjHeader { ints: 2, seen_digits: false })
        }
    } else {
        Err(PdfFault::BadObjectHeader)
    }
}

/// How much of `endstream` is matched after `matched` bytes of it
/// and a `byte` that does not continue them: the longest prefix of
/// the keyword that ends the bytes seen. Only `endstre` has a proper
/// suffix that begins the keyword (its final `e`), so after it an `n`
/// leaves `en` matched; otherwise an `e` begins a new match.
pub open spec fn endstream_resume(matched: usize, byte: u8) -> usize {
    if matched == 7 && byte == 110 {
        2
    } else if byte == 101 {
        1
    } else {
        0
    }
}

/// One byte matched against `endstream` after `matched` bytes of it.
pub open spec fn endstream_step(scanner: ScanModel, matched: usize, byte: u8) -> PdfState {
    if byte == ENDSTREAM.spec_bytes()[matched as int] {
        if matched + 1 == 9 {
            PdfState::Object { scanner }
        } else {
            PdfState::StreamScan { scanner, matched: (matched + 1) as usize }
        }
    } else {
        PdfState::StreamScan { scanner, matched: endstream_resume(matched, byte) }
    }
}

/// One byte of the walk (the offset still counts the bytes before
/// it).
pub open spec fn pdf_step_spec(w: PdfWalkerModel, byte: u8) -> Result<PdfWalkerModel, PdfFault> {
    match w.state {
        PdfState::XrefLine { line } => if line_end(byte) {
            match close_xref_line_spec(line) {
                Err(fault) => Err(fault),
                Ok(state) => Ok(PdfWalkerModel { state, ..w }),
            }
        } else if line.len() >= LINE_MAX {
            Err(PdfFault::XrefGeometry)
        } else {
            Ok(PdfWalkerModel { state: PdfState::XrefLine { line: line.push(byte) }, ..w })
        },
        PdfState::Magic { matched } => if byte != MAGIC.spec_bytes()[matched as int] {
            Err(PdfFault::NotPdf)
        } else if matched + 1 == 5 {
            Ok(PdfWalkerModel { state: PdfState::HeaderLine, ..w })
        } else {
            Ok(PdfWalkerModel { state: PdfState::Magic { matched: (matched + 1) as usize }, ..w })
        },
        PdfState::HeaderLine => if line_end(byte) {
            Ok(PdfWalkerModel { state: PdfState::Item, ..w })
        } else {
            Ok(w)
        },
        PdfState::Item => item_byte_spec(w, byte),
        PdfState::Comment { line, len } => if line_end(byte) {
            Ok(PdfWalkerModel { state: PdfState::Item, eof_last: len == 5 && line == EOF_MARKER.spec_bytes(), ..w })
        } else {
            Ok(PdfWalkerModel {
                state: PdfState::Comment { line: if len < 5 { line.push(byte) } else { line }, len: (len + 1) as u64 },
                ..w
            })
        },
        PdfState::ObjHeader { ints, seen_digits } => match obj_header_spec(ints, seen_digits, byte) {
            Err(fault) => Err(fault),
            Ok(state) => Ok(PdfWalkerModel { state, ..w }),
        },
        PdfState::Object { scanner } => {
            let (s2, signal) = scan_byte_spec(scanner, byte);
            if signal == ObjectSignal::StreamBegins {
                if byte == 10 {
                    Ok(PdfWalkerModel { state: stream_payload_spec(s2), ..w })
                } else if byte == 13 {
                    Ok(PdfWalkerModel { state: PdfState::StreamEol { scanner: s2, saw_cr: true }, ..w })
                } else {
                    Err(PdfFault::BadStreamEol)
                }
            } else if signal == ObjectSignal::ObjectEnds {
                Ok(PdfWalkerModel { state: PdfState::Item, ..w })
            } else {
                Ok(PdfWalkerModel { state: PdfState::Object { scanner: s2 }, ..w })
            }
        },
        PdfState::StreamEol { scanner, saw_cr } => if byte == 10 {
            Ok(PdfWalkerModel { state: stream_payload_spec(scanner), ..w })
        } else if byte == 13 && !saw_cr {
            Ok(PdfWalkerModel { state: PdfState::StreamEol { scanner, saw_cr: true }, ..w })
        } else {
            Err(PdfFault::BadStreamEol)
        },
        PdfState::StreamBytes { scanner, remaining } => if remaining <= 1 {
            Ok(PdfWalkerModel { state: PdfState::StreamClose { scanner, matched: 0 }, ..w })
        } else {
            Ok(PdfWalkerModel { state: PdfState::StreamBytes { scanner, remaining: (remaining - 1) as u64 }, ..w })
        },
        PdfState::StreamClose { scanner, matched } => if matched == 0 && pdf_whitespace(byte) {
            Ok(w)
        } else if byte == ENDSTREAM.spec_bytes()[matched as int] {
            if matched + 1 == 9 {
                Ok(PdfWalkerModel { state: PdfState::Object { scanner }, ..w })
            } else {
                Ok(PdfWalkerModel { state: PdfState::StreamClose { scanner, matched: (matched + 1) as usize }, ..w })
            }
        } else {
            Ok(PdfWalkerModel { state: PdfState::StreamScan { scanner, matched: endstream_resume(matched, byte) }, ..w })
        },
        PdfState::StreamScan { scanner, matched } => Ok(PdfWalkerModel { state: endstream_step(scanner, matched, byte), ..w }),
        PdfState::ItemKeyword { token } => if 97 <= byte <= 122 {
            if token.len() >= KEYWORD_MAX {
                Err(PdfFault::BadKeyword)
            } else {
                Ok(PdfWalkerModel { state: PdfState::ItemKeyword { token: token.push(byte) }, ..w })
            }
        } else if token == XREF_KEYWORD.spec_bytes() {
            Ok(PdfWalkerModel { state: fresh_xref_line(), ..w })
        } else if token == TRAILER_KEYWORD.spec_bytes() {
            Ok(PdfWalkerModel { state: PdfState::Trailer { scanner: scan_byte_spec(scanner_initial(), byte).0 }, ..w })
        } else if token == STARTXREF_KEYWORD.spec_bytes() {
            Ok(PdfWalkerModel { state: PdfState::StartxrefLine { len: 0, seen_digit: digit(byte) }, ..w })
        } else {
            Err(PdfFault::BadKeyword)
        },
        PdfState::XrefEntries { remaining } => if remaining <= 1 {
            Ok(PdfWalkerModel { state: fresh_xref_line(), ..w })
        } else {
            Ok(PdfWalkerModel { state: PdfState::XrefEntries { remaining: (remaining - 1) as u64 }, ..w })
        },
        PdfState::Trailer { scanner } => {
            let (s2, signal) = scan_byte_spec(scanner, byte);
            if signal == ObjectSignal::DictClosed {
                Ok(PdfWalkerModel { state: PdfState::Item, ..w })
            } else {
                Ok(PdfWalkerModel { state: PdfState::Trailer { scanner: s2 }, ..w })
            }
        },
        PdfState::StartxrefLine { len, seen_digit } => if digit(byte) {
            Ok(PdfWalkerModel { state: PdfState::StartxrefLine { len: (len + 1) as u64, seen_digit: true }, ..w })
        } else if pdf_whitespace(byte) {
            if seen_digit {
                Ok(PdfWalkerModel { state: PdfState::Item, ..w })
            } else {
                Ok(w)
            }
        } else {
            Err(PdfFault::BadKeyword)
        },
    }
}

/// One consumed byte: the step, then the offset advances and the
/// item-boundary flag is set for the next byte when the walker is
/// between items.
pub open spec fn pdf_consume_spec(w: PdfWalkerModel, byte: u8) -> Result<PdfWalkerModel, PdfFault> {
    match pdf_step_spec(PdfWalkerModel { boundary_pending: false, ..w }, byte) {
        Err(fault) => Err(fault),
        Ok(w2) => Ok(PdfWalkerModel { offset: (w.offset + 1) as u64, boundary_pending: w2.state is Item, ..w2 }),
    }
}

/// The document is complete: between items, right after `%%EOF`.
pub open spec fn pdf_finish_spec(w: PdfWalkerModel) -> Result<(), PdfFault> {
    match w.state {
        PdfState::Item => if w.eof_last { Ok(()) } else { Err(PdfFault::MissingEof) },
        PdfState::Comment { .. } => Err(PdfFault::MissingEof),
        PdfState::Magic { .. } => Err(PdfFault::NotPdf),
        PdfState::HeaderLine => Err(PdfFault::NotPdf),
        _ => Err(PdfFault::Truncated),
    }
}

/// A scanner whose nesting is bounded by the bytes consumed.
pub open spec fn scan_ok(s: ScanModel, offset: u64) -> bool {
    scan_wf(s) && s.string_depth <= offset && s.dict_depth <= offset
}

/// The bounded-state invariant.
pub open spec fn pdf_walker_wf(w: PdfWalkerModel) -> bool {
    match w.state {
        PdfState::Magic { matched } => matched < 5,
        PdfState::Comment { line, len } => 1 <= len <= w.offset && line.len() == (if len < 5 { len as int } else { 5 }),
        PdfState::ObjHeader { ints, .. } => ints <= 2,
        PdfState::Object { scanner } => scan_ok(scanner, w.offset),
        PdfState::StreamEol { scanner, .. } => scan_ok(scanner, w.offset),
        PdfState::StreamBytes { scanner, remaining } => scan_ok(scanner, w.offset) && remaining > 0,
        PdfState::StreamClose { scanner, matched } => scan_ok(scanner, w.offset) && matched < 9,
        PdfState::StreamScan { scanner, matched } => scan_ok(scanner, w.offset) && matched < 9,
        PdfState::ItemKeyword { token } => token.len() <= KEYWORD_MAX,
        PdfState::XrefLine { line } => line.len() <= LINE_MAX && line.len() <= w.offset,
        PdfState::XrefEntries { remaining } => remaining > 0,
        PdfState::Trailer { scanner } => scan_ok(scanner, w.offset),
        PdfState::StartxrefLine { len, .. } => len <= w.offset,
        _ => true,
    }
}

/// The words of a line take no more room than the line.
pub proof fn lemma_xref_words(line: Seq<u8>)
    ensures
        words_len(xref_words(line)) + xref_words(line).len() <= line.len() + (if line.len() > 0 && !pdf_whitespace(line.last()) { 1int } else { 0 }),
        line.len() > 0 && !pdf_whitespace(line.last()) ==> xref_words(line).len() > 0,
        forall|i: int| 0 <= i < xref_words(line).len() ==> #[trigger] xref_words(line)[i].len() > 0,
    decreases line.len(),
{
    if line.len() > 0 {
        let prefix = line.drop_last();
        lemma_xref_words(prefix);
        let words = xref_words(prefix);
        let byte = line.last();
        if !pdf_whitespace(byte) {
            if line.len() >= 2 && !pdf_whitespace(line[line.len() - 2]) {
                assert(prefix.last() == line[line.len() - 2]);
                lemma_words_len_update(words, words.last().push(byte));
            } else {
                assert(words.push(seq![byte]).drop_last() =~= words);
            }
        }
    }
}

/// Replacing the last word by a longer one.
proof fn lemma_words_len_update(words: Seq<Seq<u8>>, last: Seq<u8>)
    requires
        words.len() > 0,
    ensures
        words_len(words.update(words.len() - 1, last)) == words_len(words) - words.last().len() + last.len(),
{
    assert(words.update(words.len() - 1, last).drop_last() =~= words.drop_last());
}

/// The spaced words take their lengths plus one byte each.
pub proof fn lemma_spaced_len(words: Seq<Seq<u8>>)
    ensures
        spaced(words).len() == words_len(words) + words.len(),
    decreases words.len(),
{
    if words.len() > 0 {
        lemma_spaced_len(words.drop_last());
    }
}

/// The words after the first take their lengths.
proof fn lemma_words_len_tail(words: Seq<Seq<u8>>)
    requires
        words.len() > 0,
    ensures
        words_len(words) == words[0].len() + words_len(words.drop_first()),
    decreases words.len(),
{
    if words.len() > 1 {
        lemma_words_len_tail(words.drop_last());
        assert(words.drop_last().drop_first() =~= words.drop_first().drop_last());
        assert(words.drop_first().last() == words.last());
        assert(words.drop_last()[0] == words[0]);
        let tail = words.drop_first();
        assert(words_len(tail) == words_len(tail.drop_last()) + tail.last().len());
        assert(words_len(words) == words_len(words.drop_last()) + words.last().len());
    } else {
        assert(words_len(words) == words_len(words.drop_last()) + words.last().len());
        assert(words.drop_last().len() == 0);
        assert(words.drop_first() =~= Seq::<Seq<u8>>::empty());
    }
}

/// Scanning deepens each nesting by at most one per byte.
pub proof fn lemma_scan_all_bounds(s: ScanModel, bytes: Seq<u8>)
    requires
        scan_wf(s),
    ensures
        scan_wf(scan_all(s, bytes)),
        scan_all(s, bytes).string_depth <= s.string_depth + bytes.len(),
        scan_all(s, bytes).dict_depth <= s.dict_depth + bytes.len(),
    decreases bytes.len(),
{
    if bytes.len() > 0 {
        lemma_scan_all_bounds(s, bytes.drop_last());
        lemma_scan_byte_bounds(scan_all(s, bytes.drop_last()), bytes.last());
    }
}

/// Scanning to a close deepens each nesting by at most one per byte.
pub proof fn lemma_scan_until_bounds(s: ScanModel, bytes: Seq<u8>)
    requires
        scan_wf(s),
    ensures
        scan_wf(scan_until_closed(s, bytes).0),
        scan_until_closed(s, bytes).0.string_depth <= s.string_depth + bytes.len(),
        scan_until_closed(s, bytes).0.dict_depth <= s.dict_depth + bytes.len(),
    decreases bytes.len(),
{
    if bytes.len() > 0 {
        lemma_scan_until_bounds(s, bytes.drop_last());
        lemma_scan_byte_bounds(scan_until_closed(s, bytes.drop_last()).0, bytes.last());
    }
}

/// Once the dictionary closed within a prefix, the rest is not
/// scanned.
pub proof fn lemma_scan_until_prefix(s: ScanModel, bytes: Seq<u8>, n: nat)
    requires
        n <= bytes.len(),
        scan_until_closed(s, bytes.subrange(0, n as int)).1,
    ensures
        scan_until_closed(s, bytes) == scan_until_closed(s, bytes.subrange(0, n as int)),
    decreases bytes.len() - n,
{
    if n < bytes.len() {
        assert(bytes.subrange(0, n + 1 as int).drop_last() =~= bytes.subrange(0, n as int));
        lemma_scan_until_prefix(s, bytes, n + 1);
    } else {
        assert(bytes.subrange(0, n as int) =~= bytes);
    }
}

/// A completed xref line leaves a bounded state: a trailer scanner
/// has seen no more bytes than the line held.
proof fn lemma_close_xref_wf(w: PdfWalkerModel, line: Seq<u8>)
    requires
        line.len() <= w.offset,
        w.offset < u64::MAX,
    ensures
        close_xref_line_spec(line) matches Ok(state) ==> pdf_walker_wf(PdfWalkerModel { state, offset: (w.offset + 1) as u64, ..w }),
{
    lemma_pdf_literals();
    let words = xref_words(line);
    lemma_xref_words(line);
    if words.len() != 0 && words.len() != 2 && has_prefix(words[0], TRAILER_KEYWORD.spec_bytes()) {
        let head = words[0].subrange(7, words[0].len() as int);
        let rest = spaced(words.drop_first());
        lemma_scan_all_bounds(scanner_initial(), head);
        lemma_scan_until_bounds(scan_all(scanner_initial(), head), rest);
        lemma_spaced_len(words.drop_first());
        lemma_words_len_tail(words);
        assert(words[0].len() > 0);
    }
}

/// Every accepted byte keeps the walker within its bounded state.
#[verifier::rlimit(40)]
pub proof fn lemma_pdf_consume_wf(w: PdfWalkerModel, byte: u8)
    requires
        pdf_walker_wf(w),
        w.offset < u64::MAX,
    ensures
        pdf_consume_spec(w, byte) matches Ok(w2) ==> pdf_walker_wf(w2) && w2.offset == w.offset + 1,
{
    lemma_pdf_literals();
    match w.state {
        PdfState::Object { scanner } => lemma_scan_byte_bounds(scanner, byte),
        PdfState::Trailer { scanner } => lemma_scan_byte_bounds(scanner, byte),
        PdfState::ItemKeyword { .. } => lemma_scan_byte_bounds(scanner_initial(), byte),
        PdfState::XrefLine { line } => lemma_close_xref_wf(w, line),
        _ => {},
    }
}

/// The walk over `bytes` from `w`, one consumed byte after another:
/// the walker after them, or the first rejection.
pub open spec fn pdf_consume_all(w: PdfWalkerModel, bytes: Seq<u8>) -> Result<PdfWalkerModel, PdfFault>
    decreases bytes.len(),
{
    if bytes.len() == 0 {
        Ok(w)
    } else {
        match pdf_consume_spec(w, bytes[0]) {
            Err(fault) => Err(fault),
            Ok(w1) => pdf_consume_all(w1, bytes.drop_first()),
        }
    }
}

/// A word free of white space after a line that is empty or ends in
/// white space is one more word of the line.
pub proof fn lemma_xref_words_append(line: Seq<u8>, word: Seq<u8>)
    requires
        line.len() == 0 || pdf_whitespace(line.last()),
        word.len() > 0,
        forall|i: int| 0 <= i < word.len() ==> !pdf_whitespace(#[trigger] word[i]),
    ensures
        xref_words(line + word) == xref_words(line).push(word),
    decreases word.len(),
{
    let all = line + word;
    if word.len() == 1 {
        assert(all.drop_last() =~= line);
        assert(all.last() == word[0]);
        assert(seq![word[0]] =~= word);
        if line.len() > 0 {
            assert(all[all.len() - 2] == line.last());
        }
    } else {
        let head = word.drop_last();
        assert forall|i: int| 0 <= i < head.len() implies !pdf_whitespace(#[trigger] head[i]) by {
            assert(head[i] == word[i]);
        }
        lemma_xref_words_append(line, head);
        assert(all.drop_last() =~= line + head);
        assert(all.last() == word.last());
        assert(all[all.len() - 2] == word[word.len() - 2]);
        let words = xref_words(line + head);
        assert(words.update(words.len() - 1, words.last().push(word.last())) =~= xref_words(line).push(word)) by {
            assert(head.push(word.last()) =~= word);
        }
    }
}

/// A line of two decimal words `start count` closed by its line end
/// is a subsection header: with `count` zero the next xref line
/// follows; otherwise the walker is set to skip exactly `20 * count`
/// entry bytes; a number beyond 64 bits, or entries beyond them,
/// rejects the table.
pub proof fn lemma_subsection_header_counts_entries(w: PdfWalkerModel, start: Seq<u8>, count: Seq<u8>, eol: u8)
    requires
        w.state == (PdfState::XrefLine { line: start + seq![32u8] + count }),
        line_end(eol),
        start.len() > 0,
        count.len() > 0,
        all_digits(start),
        all_digits(count),
    ensures
        decimal_value(start) > u64::MAX || 20 * decimal_value(count) > u64::MAX ==> pdf_step_spec(w, eol)
            == Err::<PdfWalkerModel, PdfFault>(PdfFault::XrefGeometry),
        decimal_value(start) <= u64::MAX && decimal_value(count) == 0 ==> pdf_step_spec(w, eol) == Ok::<
            PdfWalkerModel,
            PdfFault,
        >(PdfWalkerModel { state: fresh_xref_line(), ..w }),
        decimal_value(start) <= u64::MAX && 0 < decimal_value(count) && 20 * decimal_value(count) <= u64::MAX
            ==> pdf_step_spec(w, eol) == Ok::<PdfWalkerModel, PdfFault>(
            PdfWalkerModel { state: PdfState::XrefEntries { remaining: (20 * decimal_value(count)) as u64 }, ..w },
        ),
{
    assert forall|i: int| 0 <= i < start.len() implies !pdf_whitespace(#[trigger] start[i]) by {
        assert(is_digit(start[i]));
    }
    assert forall|i: int| 0 <= i < count.len() implies !pdf_whitespace(#[trigger] count[i]) by {
        assert(is_digit(count[i]));
    }
    lemma_xref_words_append(Seq::empty(), start);
    assert(Seq::<u8>::empty() + start =~= start);
    let spaced_start = start + seq![32u8];
    assert(spaced_start.drop_last() =~= start);
    assert(xref_words(spaced_start) == xref_words(start));
    lemma_xref_words_append(spaced_start, count);
    let words = xref_words(start + seq![32u8] + count);
    assert(words =~= seq![start, count]);
}

/// A line of white space has no words.
proof fn lemma_xref_words_blank(line: Seq<u8>)
    requires
        forall|i: int| 0 <= i < line.len() ==> pdf_whitespace(#[trigger] line[i]),
    ensures
        xref_words(line).len() == 0,
    decreases line.len(),
{
    if line.len() > 0 {
        lemma_xref_words_blank(line.drop_last());
    }
}

/// A blank xref line (white space only) closed by its line end is
/// passed over: the next xref line begins.
pub proof fn lemma_blank_xref_line(w: PdfWalkerModel, line: Seq<u8>, eol: u8)
    requires
        w.state == (PdfState::XrefLine { line }),
        forall|i: int| 0 <= i < line.len() ==> pdf_whitespace(#[trigger] line[i]),
        line_end(eol),
    ensures
        pdf_step_spec(w, eol) == Ok::<PdfWalkerModel, PdfFault>(PdfWalkerModel { state: fresh_xref_line(), ..w }),
{
    lemma_xref_words_blank(line);
}

/// In the skip state, each consumed byte, whatever it holds, counts
/// one entry byte off; after the last the next xref line begins.
pub proof fn lemma_xref_entries_skip(w: PdfWalkerModel, remaining: u64, bytes: Seq<u8>)
    requires
        w.state == (PdfState::XrefEntries { remaining }),
        0 < remaining,
        bytes.len() <= remaining,
    ensures
        pdf_consume_all(w, bytes) matches Ok(w2) && w2.state == (if bytes.len() == remaining {
            fresh_xref_line()
        } else {
            PdfState::XrefEntries { remaining: (remaining - bytes.len()) as u64 }
        }),
    decreases bytes.len(),
{
    if bytes.len() > 0 {
        let w1 = pdf_consume_spec(w, bytes[0])->Ok_0;
        if remaining > 1 {
            lemma_xref_entries_skip(w1, (remaining - 1) as u64, bytes.drop_first());
        }
    }
}

/// After a subsection header `start count` (count not zero) and its
/// line end, the walker skips exactly `20 * count` entry bytes,
/// whatever they hold, before it reads the next xref line: any
/// shorter run leaves it skipping the rest.
pub proof fn lemma_subsection_skips_its_entries(
    w: PdfWalkerModel,
    start: Seq<u8>,
    count: Seq<u8>,
    eol: u8,
    entries: Seq<u8>,
)
    requires
        w.state == (PdfState::XrefLine { line: start + seq![32u8] + count }),
        line_end(eol),
        start.len() > 0,
        count.len() > 0,
        all_digits(start),
        all_digits(count),
        decimal_value(start) <= u64::MAX,
        0 < decimal_value(count),
        20 * decimal_value(count) <= u64::MAX,
        entries.len() <= 20 * decimal_value(count),
    ensures
        pdf_consume_all(w, seq![eol] + entries) matches Ok(w2) && w2.state == (if entries.len() == 20
            * decimal_value(count) {
            fresh_xref_line()
        } else {
            PdfState::XrefEntries { remaining: (20 * decimal_value(count) - entries.len()) as u64 }
        }),
{
    lemma_subsection_header_counts_entries(PdfWalkerModel { boundary_pending: false, ..w }, start, count, eol);
    let all = seq![eol] + entries;
    assert(all[0] == eol);
    assert(all.drop_first() =~= entries);
    let w1 = pdf_consume_spec(w, eol)->Ok_0;
    lemma_xref_entries_skip(w1, (20 * decimal_value(count)) as u64, entries);
}

/// The exec state.
pub enum State {
    /// Matching the `%PDF-` magic.
    Magic { matched: usize },
    /// Consuming the rest of the header line.
    HeaderLine,
    /// Between body items.
    Item,
    /// A `%` comment line.
    Comment { line: Vec<u8>, len: u64 },
    /// Collecting `number generation obj`.
    ObjHeader { ints: u8, seen_digits: bool },
    /// Inside an object body.
    Object { scanner: ObjectScanner },
    /// After `stream`, awaiting CR/LF or LF.
    StreamEol { scanner: ObjectScanner, saw_cr: bool },
    /// Counting a known-length stream payload.
    StreamBytes { scanner: ObjectScanner, remaining: u64 },
    /// After a known-length payload: white space then `endstream`.
    StreamClose { scanner: ObjectScanner, matched: usize },
    /// Scanning an unknown-length payload for `endstream`.
    StreamScan { scanner: ObjectScanner, matched: usize },
    /// Collecting one keyword at item start.
    ItemKeyword { token: Vec<u8> },
    /// Collecting one xref line.
    XrefLine { line: Vec<u8> },
    /// Skipping fixed-width xref entries.
    XrefEntries { remaining: u64 },
    /// Inside the trailer dictionary.
    Trailer { scanner: ObjectScanner },
    /// Collecting the startxref offset line.
    StartxrefLine { len: u64, seen_digit: bool },
}

impl View for State {
    type V = PdfState;

    open spec fn view(&self) -> PdfState {
        match self {
            State::Magic { matched } => PdfState::Magic { matched: *matched },
            State::HeaderLine => PdfState::HeaderLine,
            State::Item => PdfState::Item,
            State::Comment { line, len } => PdfState::Comment { line: line@, len: *len },
            State::ObjHeader { ints, seen_digits } => PdfState::ObjHeader { ints: *ints, seen_digits: *seen_digits },
            State::Object { scanner } => PdfState::Object { scanner: scanner@ },
            State::StreamEol { scanner, saw_cr } => PdfState::StreamEol { scanner: scanner@, saw_cr: *saw_cr },
            State::StreamBytes { scanner, remaining } => PdfState::StreamBytes { scanner: scanner@, remaining: *remaining },
            State::StreamClose { scanner, matched } => PdfState::StreamClose { scanner: scanner@, matched: *matched },
            State::StreamScan { scanner, matched } => PdfState::StreamScan { scanner: scanner@, matched: *matched },
            State::ItemKeyword { token } => PdfState::ItemKeyword { token: token@ },
            State::XrefLine { line } => PdfState::XrefLine { line: line@ },
            State::XrefEntries { remaining } => PdfState::XrefEntries { remaining: *remaining },
            State::Trailer { scanner } => PdfState::Trailer { scanner: scanner@ },
            State::StartxrefLine { len, seen_digit } => PdfState::StartxrefLine { len: *len, seen_digit: *seen_digit },
        }
    }
}

/// The walker. State is one small scanner and a line buffer — never
/// the document.
pub struct Walker {
    state: State,
    offset: u64,
    eof_last: bool,
    boundary_pending: bool,
}

impl View for Walker {
    type V = PdfWalkerModel;

    closed spec fn view(&self) -> PdfWalkerModel {
        PdfWalkerModel { state: self.state@, offset: self.offset, eof_last: self.eof_last, boundary_pending: self.boundary_pending }
    }
}

/// The byte strings of some exec words.
pub open spec fn words_view(words: Seq<Vec<u8>>) -> Seq<Seq<u8>> {
    words.map_values(|word: Vec<u8>| word@)
}

/// The white-space-separated words of an xref line.
fn xref_words_of(line: &Vec<u8>) -> (words: Vec<Vec<u8>>)
    ensures
        words_view(words@) == xref_words(line@),
{
    let mut words: Vec<Vec<u8>> = Vec::new();
    let mut current: Vec<u8> = Vec::new();
    let mut i: usize = 0;
    while i < line.len()
        invariant
            i <= line@.len(),
            current@.len() > 0 <==> (i > 0 && !pdf_whitespace(line@[i - 1])),
            words_view(words@) + (if current@.len() > 0 { seq![current@] } else { Seq::empty() })
                == xref_words(line@.subrange(0, i as int)),
        decreases line@.len() - i,
    {
        let byte = line[i];
        let ghost prefix = line@.subrange(0, i + 1);
        assert(prefix.drop_last() =~= line@.subrange(0, i as int));
        assert(prefix.last() == byte);
        if i > 0 {
            assert(prefix[prefix.len() - 2] == line@[i - 1]);
        }
        let ghost before = words_view(words@);
        if is_whitespace(byte) {
            if current.len() > 0 {
                let mut done: Vec<u8> = Vec::new();
                std::mem::swap(&mut done, &mut current);
                words.push(done);
                assert(words_view(words@) =~= before.push(done@));
            }
            assert(words_view(words@) + Seq::<Seq<u8>>::empty() =~= words_view(words@));
        } else {
            let ghost old_current = current@;
            current.push(byte);
            if current.len() > 1 {
                assert((before + seq![old_current]).update(before.len() as int, old_current.push(byte))
                    =~= before + seq![current@]);
            } else {
                assert((before + Seq::<Seq<u8>>::empty()).push(seq![byte]) =~= before + seq![current@]);
            }
        }
        i = i + 1;
    }
    assert(line@.subrange(0, i as int) =~= line@);
    if current.len() > 0 {
        let ghost before = words_view(words@);
        words.push(current);
        assert(words_view(words@) =~= before + seq![words@.last()@]);
    } else {
        assert(words_view(words@) + Seq::<Seq<u8>>::empty() =~= words_view(words@));
    }
    words
}

/// The state that consumes a stream payload.
fn stream_payload(scanner: ObjectScanner) -> (state: State)
    ensures
        state@ == stream_payload_spec(scanner@),
{
    match scanner.length() {
        Some(length) => if length == 0 {
            State::StreamClose { scanner, matched: 0 }
        } else {
            State::StreamBytes { scanner, remaining: length }
        },
        None => State::StreamScan { scanner, matched: 0 },
    }
}

/// One completed xref line.
fn close_xref_line(line: &Vec<u8>) -> (result: Result<State, PdfFault>)
    requires
        line@.len() <= LINE_MAX,
    ensures
        match close_xref_line_spec(line@) {
            Ok(state) => result is Ok && result->Ok_0@ == state,
            Err(fault) => result == Err::<State, PdfFault>(fault),
        },
{
    proof {
        lemma_pdf_literals();
        lemma_xref_words(line@);
    }
    let words = xref_words_of(line);
    let ghost view = words_view(words@);
    assert(view.len() == words@.len());
    if words.len() == 0 {
        return Ok(State::XrefLine { line: Vec::new() });
    }
    assert(view[0] == words@[0]@);
    if words.len() == 2 {
        assert(view[1] == words@[1]@);
        let start = parse_int(words[0].as_slice());
        let count = parse_int(words[1].as_slice());
        return match (start, count) {
            (Some(_), Some(count)) => if count == 0 {
                Ok(State::XrefLine { line: Vec::new() })
            } else {
                match count.checked_mul(20) {
                    Some(remaining) => Ok(State::XrefEntries { remaining }),
                    None => Err(PdfFault::XrefGeometry),
                }
            },
            _ => Err(PdfFault::XrefGeometry),
        };
    }
    if !crate::office::kind::bytes_start_with(words[0].as_slice(), TRAILER_KEYWORD.as_bytes()) {
        return Err(PdfFault::XrefGeometry);
    }
    proof {
        lemma_words_len_tail(view);
        lemma_spaced_len(view.drop_first());
    }
    let first = &words[0];
    let mut scanner = ObjectScanner::new();
    let mut j: usize = 7;
    while j < first.len()
        invariant
            7 <= j <= first@.len(),
            first@.len() <= LINE_MAX + 1,
            scanner@ == scan_all(scanner_initial(), first@.subrange(7, j as int)),
            scan_wf(scanner@),
            scanner@.string_depth <= j - 7,
            scanner@.dict_depth <= j - 7,
        decreases first@.len() - j,
    {
        proof {
            lemma_scan_byte_bounds(scanner@, first@[j as int]);
            assert(first@.subrange(7, j + 1).drop_last() =~= first@.subrange(7, j as int));
        }
        scanner.consume(first[j]);
        j = j + 1;
    }
    assert(first@.subrange(7, j as int) =~= first@.subrange(7, first@.len() as int));
    let ghost opened = scanner@;
    let mut feed: Vec<u8> = Vec::new();
    let mut k: usize = 1;
    while k < words.len()
        invariant
            1 <= k <= words@.len(),
            view == words_view(words@),
            feed@ == spaced(view.subrange(1, k as int)),
        decreases words@.len() - k,
    {
        let ghost before = feed@;
        feed.push(32);
        let word = &words[k];
        assert(view[k as int] == word@);
        let mut b: usize = 0;
        while b < word.len()
            invariant
                b <= word@.len(),
                feed@ == before + seq![32u8] + word@.subrange(0, b as int),
            decreases word@.len() - b,
        {
            feed.push(word[b]);
            assert(word@.subrange(0, b + 1) =~= word@.subrange(0, b as int).push(word@[b as int]));
            b = b + 1;
        }
        assert(word@.subrange(0, b as int) =~= word@);
        assert(view.subrange(1, k + 1).drop_last() =~= view.subrange(1, k as int));
        k = k + 1;
    }
    assert(view.subrange(1, k as int) =~= view.drop_first());
    assert(close_xref_line_spec(line@) == (if scan_until_closed(opened, feed@).1 {
        Ok::<PdfState, PdfFault>(PdfState::Item)
    } else {
        Ok::<PdfState, PdfFault>(PdfState::Trailer { scanner: scan_until_closed(opened, feed@).0 })
    }));
    let mut m: usize = 0;
    while m < feed.len()
        invariant
            m <= feed@.len(),
            close_xref_line_spec(line@) == (if scan_until_closed(opened, feed@).1 {
                Ok::<PdfState, PdfFault>(PdfState::Item)
            } else {
                Ok::<PdfState, PdfFault>(PdfState::Trailer { scanner: scan_until_closed(opened, feed@).0 })
            }),
            feed@.len() <= LINE_MAX + 1,
            scan_until_closed(opened, feed@.subrange(0, m as int)) == (scanner@, false),
            scan_wf(opened),
            opened.string_depth <= LINE_MAX + 1,
            opened.dict_depth <= LINE_MAX + 1,
        decreases feed@.len() - m,
    {
        proof {
            lemma_scan_until_bounds(opened, feed@.subrange(0, m as int));
            assert(feed@.subrange(0, m + 1).drop_last() =~= feed@.subrange(0, m as int));
        }
        let signal = scanner.consume(feed[m]);
        if signal == ObjectSignal::DictClosed {
            proof {
                lemma_scan_until_prefix(opened, feed@, (m + 1) as nat);
            }
            return Ok(State::Item);
        }
        m = m + 1;
    }
    assert(feed@.subrange(0, m as int) =~= feed@);
    Ok(State::Trailer { scanner })
}

/// One byte of an object header.
fn obj_header(ints: u8, seen_digits: bool, byte: u8) -> (result: Result<State, PdfFault>)
    requires
        ints <= 2,
    ensures
        match obj_header_spec(ints, seen_digits, byte) {
            Ok(state) => result is Ok && result->Ok_0@ == state,
            Err(fault) => result == Err::<State, PdfFault>(fault),
        },
{
    if 48 <= byte && byte <= 57 {
        Ok(State::ObjHeader { ints, seen_digits: true })
    } else if is_whitespace(byte) {
        if seen_digits {
            if ints + 1 > 2 {
                Err(PdfFault::BadObjectHeader)
            } else {
                Ok(State::ObjHeader { ints: ints + 1, seen_digits: false })
            }
        } else {
            Ok(State::ObjHeader { ints, seen_digits })
        }
    } else if byte == 111 || byte == 98 || byte == 106 {
        let counted: u8 = if seen_digits { ints + 1 } else { ints };
        if counted != 2 {
            Err(PdfFault::BadObjectHeader)
        } else if byte == 106 {
            Ok(State::Object { scanner: ObjectScanner::new() })
        } else {
            Ok(State::ObjHeader { ints: 2, seen_digits: false })
        }
    } else {
        Err(PdfFault::BadObjectHeader)
    }
}

/// How much of `endstream` is matched after a byte that does not
/// continue a partial match.
fn resume_endstream(matched: usize, byte: u8) -> (next: usize)
    ensures
        next == endstream_resume(matched, byte),
{
    if matched == 7 && byte == 110 {
        2
    } else if byte == 101 {
        1
    } else {
        0
    }
}

impl Walker {
    /// A walker at the start of a document.
    pub fn new() -> (walker: Self)
        ensures
            walker@ == pdf_walker_initial(),
            pdf_walker_wf(walker@),
    {
        Walker { state: State::Magic { matched: 0 }, offset: 0, eof_last: false, boundary_pending: false }
    }

    /// Bytes consumed so far.
    pub fn offset(&self) -> (offset: u64)
        ensures
            offset == self@.offset,
    {
        self.offset
    }

    /// Whether the byte just about to be consumed may begin a body
    /// item — the profile's cut candidate.
    pub fn at_item_boundary(&self) -> (at: bool)
        ensures
            at == self@.boundary_pending,
    {
        self.boundary_pending
    }

    /// Consume one byte.
    pub fn consume(&mut self, byte: u8) -> (result: Result<(), PdfFault>)
        requires
            pdf_walker_wf(old(self)@),
            old(self)@.offset < u64::MAX,
        ensures
            final(self)@.offset == old(self)@.offset + 1,
            match result {
                Ok(()) => pdf_consume_spec(old(self)@, byte) == Ok::<PdfWalkerModel, PdfFault>(final(self)@),
                Err(fault) => pdf_consume_spec(old(self)@, byte) == Err::<PdfWalkerModel, PdfFault>(fault),
            },
    {
        self.boundary_pending = false;
        let result = self.step(byte);
        self.offset = self.offset + 1;
        if matches!(self.state, State::Item) {
            self.boundary_pending = true;
        }
        result
    }

    /// The stream ended.
    pub fn finish(&self) -> (result: Result<(), PdfFault>)
        ensures
            result == pdf_finish_spec(self@),
    {
        match self.state {
            State::Item => if self.eof_last { Ok(()) } else { Err(PdfFault::MissingEof) },
            State::Comment { .. } => Err(PdfFault::MissingEof),
            State::Magic { .. } => Err(PdfFault::NotPdf),
            State::HeaderLine => Err(PdfFault::NotPdf),
            _ => Err(PdfFault::Truncated),
        }
    }

    #[verifier::rlimit(100)]
    #[verifier::spinoff_prover]
    fn step(&mut self, byte: u8) -> (result: Result<(), PdfFault>)
        requires
            pdf_walker_wf(old(self)@),
            old(self)@.offset < u64::MAX,
        ensures
            final(self)@.offset == old(self)@.offset,
            match pdf_step_spec(old(self)@, byte) {
                Ok(w2) => result is Ok && final(self)@ == w2,
                Err(fault) => result == Err::<(), PdfFault>(fault),
            },
    {
        proof {
            lemma_pdf_literals();
        }
        let mut state = State::Item;
        std::mem::swap(&mut state, &mut self.state);
        match state {
            State::XrefLine { mut line } => {
                if byte == 10 || byte == 13 {
                    match close_xref_line(&line) {
                        Ok(next) => {
                            self.state = next;
                            Ok(())
                        },
                        Err(fault) => Err(fault),
                    }
                } else if line.len() >= LINE_MAX {
                    Err(PdfFault::XrefGeometry)
                } else {
                    line.push(byte);
                    self.state = State::XrefLine { line };
                    Ok(())
                }
            },
            State::Magic { matched } => {
                if byte != MAGIC.as_bytes()[matched] {
                    return Err(PdfFault::NotPdf);
                }
                if matched + 1 == 5 {
                    self.state = State::HeaderLine;
                } else {
                    self.state = State::Magic { matched: matched + 1 };
                }
                Ok(())
            },
            State::HeaderLine => {
                if byte == 10 || byte == 13 {
                    self.state = State::Item;
                } else {
                    self.state = State::HeaderLine;
                }
                Ok(())
            },
            State::Item => {
                if is_whitespace(byte) {
                    self.state = State::Item;
                    return Ok(());
                }
                self.eof_last = false;
                if byte == 37 {
                    let mut line: Vec<u8> = Vec::new();
                    line.push(37);
                    self.state = State::Comment { line, len: 1 };
                    Ok(())
                } else if 48 <= byte && byte <= 57 {
                    self.state = State::ObjHeader { ints: 0, seen_digits: true };
                    Ok(())
                } else if byte == 120 || byte == 116 || byte == 115 {
                    let mut token: Vec<u8> = Vec::new();
                    token.push(byte);
                    self.state = State::ItemKeyword { token };
                    Ok(())
                } else {
                    Err(PdfFault::BadKeyword)
                }
            },
            State::Comment { mut line, len } => {
                if byte == 10 || byte == 13 {
                    self.eof_last = len == 5 && crate::office::kind::bytes_equal(line.as_slice(), EOF_MARKER.as_bytes());
                    self.state = State::Item;
                    return Ok(());
                }
                if len < 5 {
                    line.push(byte);
                }
                self.state = State::Comment { line, len: len + 1 };
                Ok(())
            },
            State::ObjHeader { ints, seen_digits } => match obj_header(ints, seen_digits, byte) {
                Ok(next) => {
                    self.state = next;
                    Ok(())
                },
                Err(fault) => Err(fault),
            },
            State::Object { mut scanner } => {
                let signal = scanner.consume(byte);
                if signal == ObjectSignal::StreamBegins {
                    if byte == 10 {
                        self.state = stream_payload(scanner);
                        Ok(())
                    } else if byte == 13 {
                        self.state = State::StreamEol { scanner, saw_cr: true };
                        Ok(())
                    } else {
                        Err(PdfFault::BadStreamEol)
                    }
                } else if signal == ObjectSignal::ObjectEnds {
                    self.state = State::Item;
                    Ok(())
                } else {
                    self.state = State::Object { scanner };
                    Ok(())
                }
            },
            State::StreamEol { scanner, saw_cr } => {
                if byte == 10 {
                    self.state = stream_payload(scanner);
                    Ok(())
                } else if byte == 13 && !saw_cr {
                    self.state = State::StreamEol { scanner, saw_cr: true };
                    Ok(())
                } else {
                    Err(PdfFault::BadStreamEol)
                }
            },
            State::StreamBytes { scanner, remaining } => {
                if remaining <= 1 {
                    self.state = State::StreamClose { scanner, matched: 0 };
                } else {
                    self.state = State::StreamBytes { scanner, remaining: remaining - 1 };
                }
                Ok(())
            },
            State::StreamClose { scanner, matched } => {
                if matched == 0 && is_whitespace(byte) {
                    self.state = State::StreamClose { scanner, matched };
                } else if byte == ENDSTREAM.as_bytes()[matched] {
                    if matched + 1 == 9 {
                        self.state = State::Object { scanner };
                    } else {
                        self.state = State::StreamClose { scanner, matched: matched + 1 };
                    }
                } else {
                    self.state = State::StreamScan { scanner, matched: resume_endstream(matched, byte) };
                }
                Ok(())
            },
            State::StreamScan { scanner, matched } => {
                if byte == ENDSTREAM.as_bytes()[matched] {
                    if matched + 1 == 9 {
                        self.state = State::Object { scanner };
                    } else {
                        self.state = State::StreamScan { scanner, matched: matched + 1 };
                    }
                } else {
                    self.state = State::StreamScan { scanner, matched: resume_endstream(matched, byte) };
                }
                Ok(())
            },
            State::ItemKeyword { mut token } => {
                if 97 <= byte && byte <= 122 {
                    if token.len() >= KEYWORD_MAX {
                        return Err(PdfFault::BadKeyword);
                    }
                    token.push(byte);
                    self.state = State::ItemKeyword { token };
                    Ok(())
                } else if crate::office::kind::bytes_equal(token.as_slice(), XREF_KEYWORD.as_bytes()) {
                    self.state = State::XrefLine { line: Vec::new() };
                    Ok(())
                } else if crate::office::kind::bytes_equal(token.as_slice(), TRAILER_KEYWORD.as_bytes()) {
                    let mut scanner = ObjectScanner::new();
                    scanner.consume(byte);
                    self.state = State::Trailer { scanner };
                    Ok(())
                } else if crate::office::kind::bytes_equal(token.as_slice(), STARTXREF_KEYWORD.as_bytes()) {
                    self.state = State::StartxrefLine { len: 0, seen_digit: 48 <= byte && byte <= 57 };
                    Ok(())
                } else {
                    Err(PdfFault::BadKeyword)
                }
            },
            State::XrefEntries { remaining } => {
                if remaining <= 1 {
                    self.state = State::XrefLine { line: Vec::new() };
                } else {
                    self.state = State::XrefEntries { remaining: remaining - 1 };
                }
                Ok(())
            },
            State::Trailer { mut scanner } => {
                let signal = scanner.consume(byte);
                if signal == ObjectSignal::DictClosed {
                    self.state = State::Item;
                } else {
                    self.state = State::Trailer { scanner };
                }
                Ok(())
            },
            State::StartxrefLine { len, seen_digit } => {
                if 48 <= byte && byte <= 57 {
                    self.state = State::StartxrefLine { len: len + 1, seen_digit: true };
                    Ok(())
                } else if is_whitespace(byte) {
                    if seen_digit {
                        self.state = State::Item;
                    } else {
                        self.state = State::StartxrefLine { len, seen_digit };
                    }
                    Ok(())
                } else {
                    Err(PdfFault::BadKeyword)
                }
            },
        }
    }
}

} // verus!
