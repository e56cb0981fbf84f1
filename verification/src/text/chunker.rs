//! [`StructuredTextChunker`] — the `structured-text-v1` streaming
//! boundary detector.

use vstd::prelude::*;

use super::utf8::{
    lemma_utf8_push_same, lemma_utf8_run_same, lemma_utf8_run_split, utf8_fault_detail, utf8_initial, utf8_push_spec,
    utf8_run, utf8_same, whole_scalars, Utf8Fault, Utf8Scanner, Utf8State,
};
use crate::assembler::{chunk_view, chunks_bounded};
use crate::chunker::{
    feed, feed_emitted, feed_then, lemma_feed_conserves, lemma_feed_emitted_fault, lemma_feed_extend, lemma_feed_prefix_err, lemma_feed_split, Chunker,
    StepFn,
};
use crate::constants::{
    GENERIC_CDC_CHUNK_MAX_BYTES, GENERIC_CDC_CHUNK_MIN_BYTES, GENERIC_CDC_CHUNK_TARGET_BYTES,
    STRUCTURED_TEXT_RELAXED_MASK, STRUCTURED_TEXT_STRICT_MASK,
};
use crate::error::ChunkError;
use crate::gear::{gear_fold, gear_step, gear_table, GearHash, STRUCTURED_TEXT_GEAR_SEED};

verus! {

broadcast use {vstd::seq_lib::group_seq_properties, Seq::group_seq_flatten};

/// The frozen profile name, for diagnostics.
pub const TEXT_PROFILE: &'static str = "structured-text-v1";

/// The diagnostic of a stream that ends inside a scalar.
pub const TRUNCATED_SCALAR: &'static str = "stream ends inside a UTF-8 scalar";

/// What kind of cut candidate a byte ends.
#[derive(Debug, Clone, Copy, PartialEq, Eq, Structural)]
pub enum Candidate {
    /// Not a candidate: a cut never lands here except when forced.
    NotCandidate,
    /// A line end (`\n`, which also closes `\r\n`).
    LineEnd,
    /// A soft break: other ASCII white space or a structural
    /// terminator, so long-line JSON/XML still offers candidates.
    SoftBreak,
}

/// The candidate kind a byte ends.
pub open spec fn candidate_of(byte: u8) -> Candidate {
    if byte == 10 {
        Candidate::LineEnd
    } else if byte == 9 || byte == 13 || byte == 32 || byte == 44 || byte == 59 || byte == 46 || byte == 125
        || byte == 93 || byte == 62 || byte == 41 {
        Candidate::SoftBreak
    } else {
        Candidate::NotCandidate
    }
}

impl Candidate {
    /// The candidate kind a byte ends.
    pub fn of(byte: u8) -> (kind: Candidate)
        ensures
            kind == candidate_of(byte),
    {
        if byte == 10 {
            Candidate::LineEnd
        } else if byte == 9 || byte == 13 || byte == 32 || byte == 44 || byte == 59 || byte == 46 || byte == 125
            || byte == 93 || byte == 62 || byte == 41 {
            Candidate::SoftBreak
        } else {
            Candidate::NotCandidate
        }
    }
}

/// Whether a chunk whose bytes are `chunk`, ending a complete scalar
/// whose last byte is `byte`, closes here: never below the minimum,
/// always at the maximum; below the target only at a line end whose
/// hash passes the strict mask; from the target at any candidate
/// whose hash passes the relaxed mask.
pub open spec fn cut_here_spec(table: Seq<u64>, chunk: Seq<u8>, byte: u8) -> bool {
    let len = chunk.len();
    if len < GENERIC_CDC_CHUNK_MIN_BYTES {
        false
    } else if len >= GENERIC_CDC_CHUNK_MAX_BYTES {
        true
    } else {
        let hash = gear_fold(table, 0, chunk);
        match candidate_of(byte) {
            Candidate::NotCandidate => false,
            Candidate::LineEnd => if len < GENERIC_CDC_CHUNK_TARGET_BYTES {
                hash & STRUCTURED_TEXT_STRICT_MASK == 0
            } else {
                hash & STRUCTURED_TEXT_RELAXED_MASK == 0
            },
            Candidate::SoftBreak => if len < GENERIC_CDC_CHUNK_TARGET_BYTES {
                false
            } else {
                hash & STRUCTURED_TEXT_RELAXED_MASK == 0
            },
        }
    }
}

/// The `structured-text-v1` chunker as a mathematical value.
pub struct TextModel {
    /// The gear table.
    pub table: Seq<u64>,
    /// The UTF-8 scanner.
    pub utf8: Utf8State,
    /// Bytes consumed over the whole stream.
    pub offset: u64,
    /// End of the last complete scalar within the open chunk.
    pub last_boundary: nat,
    /// The open chunk's bytes.
    pub buffer: Seq<u8>,
    /// The stream was rejected.
    pub rejected: bool,
}

/// One byte: it is validated as UTF-8 and appended to the open
/// chunk; a byte that completes a scalar may close the chunk at a
/// textual seam; a chunk that reaches the maximum inside a scalar
/// closes at the last scalar boundary, carrying the open scalar into
/// the next chunk. On a fault, the fault and the offending byte's
/// offset.
#[verifier::opaque]
pub open spec fn text_byte(m: TextModel, byte: u8) -> Result<(TextModel, Seq<Seq<u8>>), (Utf8Fault, u64)> {
    match utf8_push_spec(m.utf8, byte) {
        Err(fault) => Err((fault, m.offset)),
        Ok((utf8, completed)) => {
            let buffer = m.buffer.push(byte);
            let offset = (m.offset + 1) as u64;
            if completed {
                if cut_here_spec(m.table, buffer, byte) {
                    Ok((TextModel { utf8, offset, last_boundary: 0, buffer: Seq::empty(), ..m }, seq![buffer]))
                } else {
                    Ok((TextModel { utf8, offset, last_boundary: buffer.len(), buffer, ..m }, Seq::empty()))
                }
            } else if buffer.len() >= GENERIC_CDC_CHUNK_MAX_BYTES {
                Ok((
                    TextModel {
                        utf8,
                        offset,
                        last_boundary: 0,
                        buffer: buffer.subrange(m.last_boundary as int, buffer.len() as int),
                        ..m
                    },
                    seq![buffer.subrange(0, m.last_boundary as int)],
                ))
            } else {
                Ok((TextModel { utf8, offset, buffer, ..m }, Seq::empty()))
            }
        },
    }
}

/// The chunks a byte emits before it is rejected: none, since a byte
/// is validated before it is assembled.
pub open spec fn text_partial() -> spec_fn(TextModel, u8) -> Seq<Seq<u8>> {
    |m: TextModel, byte: u8| Seq::<Seq<u8>>::empty()
}

/// The `structured-text-v1` step function.
pub open spec fn text_step() -> StepFn<TextModel, (Utf8Fault, u64)> {
    |m: TextModel, byte: u8| text_byte(m, byte)
}

/// The chunker after `bytes`, with the chunks they completed, or the
/// first fault.
pub open spec fn text_feed(m: TextModel, bytes: Seq<u8>) -> Result<(TextModel, Seq<Seq<u8>>), (Utf8Fault, u64)> {
    feed(text_step(), m, bytes)
}

/// The model of a fresh chunker.
pub open spec fn text_initial() -> TextModel {
    TextModel {
        table: gear_table(STRUCTURED_TEXT_GEAR_SEED),
        utf8: utf8_initial(),
        offset: 0,
        last_boundary: 0,
        buffer: Seq::empty(),
        rejected: false,
    }
}

/// The model's invariant: the open chunk is below the maximum, the
/// bytes after the last scalar boundary are exactly the open
/// scalar's (at most three), and the scanner expects at most three
/// more.
pub open spec fn text_model_wf(m: TextModel) -> bool {
    let open = m.buffer.len() - m.last_boundary;
    &&& m.buffer.len() < GENERIC_CDC_CHUNK_MAX_BYTES
    &&& m.last_boundary <= m.buffer.len()
    &&& m.utf8.remaining <= 3
    &&& m.utf8.remaining == 0 ==> open == 0
    &&& m.utf8.remaining > 0 ==> 1 <= open && open + m.utf8.remaining <= 4
}

/// The typed error of a rejection with `detail` at `offset`.
pub open spec fn text_error(detail: &'static str, offset: u64) -> ChunkError {
    ChunkError::MalformedProfileInput { profile: TEXT_PROFILE, offset, detail }
}

/// The error of a stream the profile already rejected.
pub open spec fn text_rejected_error() -> ChunkError {
    ChunkError::ProfileStreamRejected { profile: TEXT_PROFILE }
}

/// Streaming `structured-text-v1` chunker.
///
/// The structural invariant is UTF-8 well-formedness: the bytes of
/// Markdown, JSON, XML/HTML, and the RDF/XSD textual datatypes must
/// be valid UTF-8, and a chunk never splits a scalar. Cut candidates
/// are positions after a line end or a soft break; the gear hash is
/// consulted only there, so boundaries fall on textual seams and
/// re-synchronize at line granularity after an edit. Malformed input
/// rejects the whole stream — there is no fallback to generic
/// chunking.
pub struct StructuredTextChunker {
    hash: GearHash,
    utf8: Utf8Scanner,
    offset: u64,
    last_boundary: usize,
    rejected: bool,
    buffer: Vec<u8>,
}

impl View for StructuredTextChunker {
    type V = TextModel;

    closed spec fn view(&self) -> TextModel {
        TextModel {
            table: self.hash.table(),
            utf8: self.utf8@,
            offset: self.offset,
            last_boundary: self.last_boundary as nat,
            buffer: self.buffer@,
            rejected: self.rejected,
        }
    }
}

impl StructuredTextChunker {
    /// The chunker's invariant: the hash is the open chunk's hash.
    pub closed spec fn wf(&self) -> bool {
        &&& self.hash.wf()
        &&& self.hash.table() == gear_table(STRUCTURED_TEXT_GEAR_SEED)
        &&& self.rejected || (text_model_wf(self@) && self.hash.value() == gear_fold(self.hash.table(), 0, self.buffer@))
    }

    /// Start a chunker for the frozen `structured-text-v1`
    /// parameters.
    pub fn new() -> (chunker: Self)
        ensures
            chunker.wf(),
            chunker@ == text_initial(),
    {
        let chunker = StructuredTextChunker {
            hash: GearHash::new(STRUCTURED_TEXT_GEAR_SEED),
            utf8: Utf8Scanner::new(),
            offset: 0,
            last_boundary: 0,
            rejected: false,
            buffer: Vec::new(),
        };
        assert(chunker@.buffer =~= Seq::<u8>::empty());
        chunker
    }

    fn reject(&mut self, detail: &'static str) -> (error: ChunkError)
        requires
            old(self).hash.wf(),
            old(self).hash.table() == gear_table(STRUCTURED_TEXT_GEAR_SEED),
        ensures
            final(self).wf(),
            final(self)@.rejected,
            error == text_error(detail, old(self)@.offset),
    {
        self.rejected = true;
        self.buffer.clear();
        ChunkError::MalformedProfileInput { profile: TEXT_PROFILE, offset: self.offset, detail }
    }

    /// Judge a boundary at the current buffer length, which ends a
    /// complete scalar whose last byte is `byte`.
    fn cut_here(&self, byte: u8) -> (cut: bool)
        requires
            self.hash.value() == gear_fold(self.hash.table(), 0, self.buffer@),
        ensures
            cut == cut_here_spec(self.hash.table(), self.buffer@, byte),
    {
        let len = self.buffer.len();
        if len < GENERIC_CDC_CHUNK_MIN_BYTES {
            return false;
        }
        if len >= GENERIC_CDC_CHUNK_MAX_BYTES {
            return true;
        }
        match Candidate::of(byte) {
            Candidate::NotCandidate => false,
            Candidate::LineEnd => if len < GENERIC_CDC_CHUNK_TARGET_BYTES {
                self.hash.cuts(STRUCTURED_TEXT_STRICT_MASK)
            } else {
                self.hash.cuts(STRUCTURED_TEXT_RELAXED_MASK)
            },
            Candidate::SoftBreak => if len < GENERIC_CDC_CHUNK_TARGET_BYTES {
                false
            } else {
                self.hash.cuts(STRUCTURED_TEXT_RELAXED_MASK)
            },
        }
    }

    fn emit_whole(&mut self, emit: &mut Vec<Vec<u8>>)
        requires
            old(self).hash.wf(),
        ensures
            final(self).hash.wf(),
            final(self).hash.table() == old(self).hash.table(),
            final(self).hash.value() == 0,
            final(self)@ == (TextModel { last_boundary: 0, buffer: Seq::empty(), ..old(self)@ }),
            chunk_view(final(emit)@) == chunk_view(old(emit)@).push(old(self)@.buffer),
    {
        let mut chunk: Vec<u8> = Vec::new();
        std::mem::swap(&mut chunk, &mut self.buffer);
        let ghost before = emit@;
        emit.push(chunk);
        assert(chunk_view(emit@) =~= chunk_view(before).push(chunk@));
        self.last_boundary = 0;
        self.hash.reset();
        assert(self.buffer@ =~= Seq::<u8>::empty());
    }

    /// Forced cut reached inside a multi-byte scalar: close the chunk
    /// at the last scalar boundary and carry the open scalar's bytes
    /// (at most three) into the next chunk.
    fn emit_to_last_boundary(&mut self, emit: &mut Vec<Vec<u8>>)
        requires
            old(self).hash.wf(),
            old(self).last_boundary <= old(self).buffer@.len(),
        ensures
            final(self).hash.wf(),
            final(self).hash.table() == old(self).hash.table(),
            final(self).hash.value() == gear_fold(final(self).hash.table(), 0, final(self).buffer@),
            final(self)@ == (TextModel {
                last_boundary: 0,
                buffer: old(self)@.buffer.subrange(old(self)@.last_boundary as int, old(self)@.buffer.len() as int),
                ..old(self)@
            }),
            chunk_view(final(emit)@) == chunk_view(old(emit)@).push(
                old(self)@.buffer.subrange(0, old(self)@.last_boundary as int)),
    {
        let tail = self.buffer.split_off(self.last_boundary);
        let mut chunk: Vec<u8> = Vec::new();
        std::mem::swap(&mut chunk, &mut self.buffer);
        let ghost before = emit@;
        emit.push(chunk);
        assert(chunk_view(emit@) =~= chunk_view(before).push(chunk@));
        self.buffer = tail;
        self.last_boundary = 0;
        self.hash.reset();
        assert(self.buffer@ =~= old(self)@.buffer.subrange(old(self)@.last_boundary as int, old(self)@.buffer.len() as int));
        let mut i: usize = 0;
        while i < self.buffer.len()
            invariant
                i <= self.buffer@.len(),
                self@ == (TextModel {
                    last_boundary: 0,
                    buffer: old(self)@.buffer.subrange(old(self)@.last_boundary as int, old(self)@.buffer.len() as int),
                    ..old(self)@
                }),
                self.hash.wf(),
                self.hash.table() == old(self).hash.table(),
                self.hash.value() == gear_fold(self.hash.table(), 0, self.buffer@.subrange(0, i as int)),
            decreases self.buffer@.len() - i,
        {
            let byte = self.buffer[i];
            self.hash.update(byte);
            assert(self.buffer@.subrange(0, i + 1).drop_last() =~= self.buffer@.subrange(0, i as int));
            i = i + 1;
        }
        assert(self.buffer@.subrange(0, i as int) =~= self.buffer@);
    }

    /// One byte of a live stream.
    fn feed_byte(&mut self, byte: u8, emit: &mut Vec<Vec<u8>>) -> (result: Result<(), ChunkError>)
        requires
            old(self).wf(),
            !old(self)@.rejected,
            old(self)@.offset < u64::MAX,
        ensures
            final(self).wf(),
            result is Ok ==> !final(self)@.rejected && final(self)@.offset == old(self)@.offset + 1,
            match text_byte(old(self)@, byte) {
                Ok((m, chunks)) => result is Ok && final(self)@ == m
                    && chunk_view(final(emit)@) == chunk_view(old(emit)@) + chunks,
                Err((fault, offset)) => final(self)@.rejected
                    && result == Err::<(), ChunkError>(text_error(utf8_fault_detail(fault), offset))
                    && final(emit)@ == old(emit)@,
            },
    {
        proof {
            reveal(text_byte);
        }
        let ghost start_emit = chunk_view(emit@);
        let completed = match self.utf8.push(byte) {
            Ok(completed) => completed,
            Err(fault) => {
                return Err(self.reject(fault.detail()));
            },
        };
        self.offset = self.offset + 1;
        let ghost old_buffer = self.buffer@;
        self.buffer.push(byte);
        self.hash.update(byte);
        assert(self.buffer@.drop_last() =~= old_buffer);
        if completed {
            self.last_boundary = self.buffer.len();
            if self.cut_here(byte) {
                self.emit_whole(emit);
            }
        } else if self.buffer.len() >= GENERIC_CDC_CHUNK_MAX_BYTES {
            self.emit_to_last_boundary(emit);
        }
        assert(chunk_view(emit@) =~= start_emit + text_byte(old(self)@, byte)->Ok_0.1);
        Ok(())
    }

    /// Feed one window.
    pub fn push(&mut self, window: &[u8], emit: &mut Vec<Vec<u8>>) -> (result: Result<(), ChunkError>)
        requires
            old(self).wf(),
            !old(self)@.rejected ==> old(self)@.offset + window@.len() <= u64::MAX,
        ensures
            final(self).wf(),
            old(self)@.rejected ==> result == Err::<(), ChunkError>(text_rejected_error()) && final(self)@ == old(self)@
                && final(emit)@ == old(emit)@,
            !old(self)@.rejected ==> match text_feed(old(self)@, window@) {
                Ok((m, chunks)) => result is Ok && final(self)@ == m
                    && chunk_view(final(emit)@) == chunk_view(old(emit)@) + chunks,
                Err((fault, offset)) => final(self)@.rejected
                    && result == Err::<(), ChunkError>(text_error(utf8_fault_detail(fault), offset))
                    && chunk_view(final(emit)@) == chunk_view(old(emit)@) + feed_emitted(text_step(), text_partial(), old(self)@, window@),
            },
    {
        if self.rejected {
            return Err(ChunkError::ProfileStreamRejected { profile: TEXT_PROFILE });
        }
        let ghost start = self@;
        let ghost emitted = chunk_view(emit@);
        let mut i: usize = 0;
        while i < window.len()
            invariant
                i <= window@.len(),
                start == old(self)@,
                !start.rejected,
                emitted == chunk_view(old(emit)@),
                self.wf(),
                !self@.rejected,
                start.offset + window@.len() <= u64::MAX,
                self@.offset == start.offset + i,
                text_feed(start, window@.subrange(0, i as int)) matches Ok((m, chunks))
                    && m == self@ && chunk_view(emit@) == emitted + chunks,
            decreases window@.len() - i,
        {
            let byte = window[i];
            proof {
                lemma_feed_extend(text_step(), start, window@, i as int);
            }
            match self.feed_byte(byte, emit) {
                Err(error) => {
                    proof {
                        lemma_feed_prefix_err(text_step(), start, window@, (i + 1) as nat);
                        lemma_feed_emitted_fault(text_step(), text_partial(), start, window@, i as int, window@.len() as int);
                        assert(window@.subrange(0, window@.len() as int) =~= window@);
                        let c1 = text_feed(start, window@.subrange(0, i as int))->Ok_0.1;
                        assert(emitted + c1 =~= emitted + (c1 + Seq::<Seq<u8>>::empty()));
                    }
                    return Err(error);
                },
                Ok(()) => {},
            }
            proof {
                let chunks = text_feed(start, window@.subrange(0, i as int))->Ok_0.1;
                let more = text_byte(text_feed(start, window@.subrange(0, i as int))->Ok_0.0, byte)->Ok_0.1;
                assert(chunk_view(emit@) =~= emitted + (chunks + more));
            }
            i = i + 1;
        }
        assert(window@.subrange(0, i as int) =~= window@);
        Ok(())
    }

    /// End the stream: it must not end inside a scalar; flush the
    /// trailing chunk and reset.
    pub fn finish(&mut self, emit: &mut Vec<Vec<u8>>) -> (result: Result<(), ChunkError>)
        requires
            old(self).wf(),
        ensures
            final(self).wf(),
            old(self)@.rejected ==> result == Err::<(), ChunkError>(text_rejected_error()) && final(self)@ == old(self)@
                && final(emit)@ == old(emit)@,
            !old(self)@.rejected && old(self)@.utf8.remaining != 0 ==> final(self)@.rejected
                && final(emit)@ == old(emit)@ && result == Err::<(), ChunkError>(text_error(TRUNCATED_SCALAR, old(self)@.offset)),
            !old(self)@.rejected && old(self)@.utf8.remaining == 0 ==> result is Ok
                && final(self)@ == text_initial()
                && chunk_view(final(emit)@) == chunk_view(old(emit)@) + (if old(self)@.buffer.len() > 0 {
                    seq![old(self)@.buffer]
                } else {
                    Seq::empty()
                }),
    {
        if self.rejected {
            return Err(ChunkError::ProfileStreamRejected { profile: TEXT_PROFILE });
        }
        if !self.utf8.at_boundary() {
            return Err(self.reject(TRUNCATED_SCALAR));
        }
        let ghost before = chunk_view(emit@);
        if self.buffer.len() > 0 {
            self.emit_whole(emit);
        }
        assert(chunk_view(emit@) =~= before + (if old(self)@.buffer.len() > 0 {
            seq![old(self)@.buffer]
        } else {
            Seq::empty()
        }));
        self.utf8 = Utf8Scanner::new();
        self.offset = 0;
        assert(self@.buffer =~= Seq::<u8>::empty());
        Ok(())
    }
}

/// One byte loses nothing: the chunks it completes followed by the
/// new open chunk are the old open chunk followed by the byte, and
/// every completed chunk is non-empty and within the maximum.
proof fn lemma_text_byte_conserves(m: TextModel, byte: u8)
    requires
        text_model_wf(m),
        m.offset < u64::MAX,
    ensures
        text_byte(m, byte) matches Ok((m2, chunks)) ==> {
            &&& chunks.flatten() + m2.buffer == m.buffer.push(byte)
            &&& text_model_wf(m2)
            &&& m2.offset == m.offset + 1
            &&& chunks_bounded(chunks)
        },
{
    reveal(text_byte);
    match utf8_push_spec(m.utf8, byte) {
        Err(_) => {},
        Ok((utf8, completed)) => {
            let buffer = m.buffer.push(byte);
            let (m2, chunks) = text_byte(m, byte)->Ok_0;
            if chunks.len() == 1 {
                assert(chunks.drop_first() =~= Seq::<Seq<u8>>::empty());
                assert(chunks.flatten() == chunks[0]);
            }
            if completed {
            } else if buffer.len() >= GENERIC_CDC_CHUNK_MAX_BYTES {
                assert(buffer.subrange(0, m.last_boundary as int) + buffer.subrange(m.last_boundary as int, buffer.len() as int)
                    =~= buffer);
            }
            assert(chunks.flatten() + m2.buffer =~= m.buffer.push(byte));
        },
    }
}

/// Window independence: feeding `a` then `b` is feeding `a + b` —
/// the same model, the same chunks, the same first fault.
pub proof fn lemma_text_feed_split(m: TextModel, a: Seq<u8>, b: Seq<u8>)
    ensures
        text_feed(m, a + b) == feed_then(text_step(), m, a, b),
{
    lemma_feed_split(text_step(), m, a, b);
}

/// Conservation: the chunks a window completes, followed by the open
/// chunk after it, are the open chunk before it followed by the
/// window; every completed chunk is non-empty and within the
/// envelope maximum.
pub proof fn lemma_text_feed_conserves(m: TextModel, bytes: Seq<u8>)
    requires
        text_model_wf(m),
        m.offset + bytes.len() <= u64::MAX,
    ensures
        text_feed(m, bytes) matches Ok((m2, chunks)) ==> {
            &&& chunks.flatten() + m2.buffer == m.buffer + bytes
            &&& text_model_wf(m2)
            &&& m2.offset == m.offset + bytes.len()
            &&& chunks_bounded(chunks)
        },
{
    let inv = |m: TextModel| text_model_wf(m);
    let open_chunk = |m: TextModel| m.buffer;
    let room = |m: TextModel| u64::MAX - m.offset;
    assert forall|m: TextModel, byte: u8| inv(m) && room(m) >= 1 implies (#[trigger] text_step()(m, byte) matches Ok((m2, chunks)) ==> {
        &&& inv(m2)
        &&& room(m2) == room(m) - 1
        &&& chunks.flatten() + open_chunk(m2) == open_chunk(m).push(byte)
        &&& chunks_bounded(chunks)
    }) by {
        lemma_text_byte_conserves(m, byte);
    }
    lemma_feed_conserves(text_step(), inv, open_chunk, room, m, bytes);
}

/// A whole stream: the chunks of accepted text — those its bytes
/// completed and the trailing one `finish` flushes — concatenate to
/// the text.
pub proof fn lemma_text_stream_concatenates(bytes: Seq<u8>)
    requires
        bytes.len() <= u64::MAX,
    ensures
        text_feed(text_initial(), bytes) matches Ok((m, chunks)) ==> {
            let tail: Seq<Seq<u8>> = if m.buffer.len() > 0 { seq![m.buffer] } else { Seq::empty() };
            &&& (chunks + tail).flatten() == bytes
            &&& chunks_bounded(chunks + tail)
        },
{
    lemma_text_feed_conserves(text_initial(), bytes);
    match text_feed(text_initial(), bytes) {
        Err(_) => {},
        Ok((m, chunks)) => {
            let tail: Seq<Seq<u8>> = if m.buffer.len() > 0 { seq![m.buffer] } else { Seq::empty() };
            if m.buffer.len() > 0 {
                assert(tail.drop_first() =~= Seq::<Seq<u8>>::empty());
                assert(tail.flatten() == m.buffer);
            } else {
                assert(m.buffer =~= Seq::<u8>::empty());
            }
            vstd::seq_lib::lemma_flatten_concat(chunks, tail);
            assert(Seq::<u8>::empty() + bytes =~= bytes);
            assert(chunks.flatten() + tail.flatten() =~= chunks.flatten() + m.buffer);
            assert forall|i: int| 0 <= i < (chunks + tail).len() implies
                0 < #[trigger] (chunks + tail)[i].len() <= GENERIC_CDC_CHUNK_MAX_BYTES by {
                if i >= chunks.len() {
                    assert((chunks + tail)[i] == tail[i - chunks.len()]);
                }
            }
        },
    }
}

/// The open chunk up to its last scalar boundary is whole scalars,
/// and the scanner is where scanning the open chunk leaves it.
pub open spec fn text_scalar_inv(m: TextModel) -> bool {
    &&& whole_scalars(m.buffer.subrange(0, m.last_boundary as int))
    &&& utf8_run(utf8_initial(), m.buffer) matches Ok(s) && utf8_same(s, m.utf8)
}

/// One byte keeps the scalar invariant, and every chunk it completes
/// is whole scalars.
proof fn lemma_text_byte_scalars(m: TextModel, byte: u8)
    requires
        text_model_wf(m),
        text_scalar_inv(m),
    ensures
        text_byte(m, byte) matches Ok((m2, chunks)) ==> {
            &&& text_scalar_inv(m2)
            &&& forall|i: int| 0 <= i < chunks.len() ==> whole_scalars(#[trigger] chunks[i])
        },
{
    reveal(text_byte);
    let run = utf8_run(utf8_initial(), m.buffer)->Ok_0;
    lemma_utf8_push_same(run, m.utf8, byte);
    match utf8_push_spec(m.utf8, byte) {
        Err(_) => {},
        Ok((utf8, completed)) => {
            let buffer = m.buffer.push(byte);
            assert(buffer.drop_last() =~= m.buffer);
            let (m2, chunks) = text_byte(m, byte)->Ok_0;
            assert(m.buffer.subrange(0, m.last_boundary as int) =~= buffer.subrange(0, m.last_boundary as int));
            if completed {
                assert(buffer.subrange(0, buffer.len() as int) =~= buffer);
                assert(m2.buffer.subrange(0, 0) =~= Seq::<u8>::empty());
            } else if buffer.len() >= GENERIC_CDC_CHUNK_MAX_BYTES {
                let head = buffer.subrange(0, m.last_boundary as int);
                let tail = buffer.subrange(m.last_boundary as int, buffer.len() as int);
                assert(head + tail =~= buffer);
                lemma_utf8_run_split(utf8_initial(), head, tail);
                lemma_utf8_run_same(utf8_run(utf8_initial(), head)->Ok_0, utf8_initial(), tail);
                assert(m2.buffer.subrange(0, 0) =~= Seq::<u8>::empty());
            }
        },
    }
}

/// A completed chunk's shape: at least the minimum, and closed after
/// a cut candidate unless the maximum forced it, in which case it
/// falls short of the maximum by at most an open scalar's three bytes.
pub open spec fn seam_cut(chunk: Seq<u8>) -> bool {
    &&& GENERIC_CDC_CHUNK_MIN_BYTES <= chunk.len()
    &&& !(candidate_of(chunk.last()) is NotCandidate) || chunk.len() + 3 >= GENERIC_CDC_CHUNK_MAX_BYTES
}

/// The chunk one byte completes, if any, is cut at a seam.
proof fn lemma_text_byte_seams(m: TextModel, byte: u8)
    requires
        text_model_wf(m),
        m.offset < u64::MAX,
    ensures
        text_byte(m, byte) matches Ok((m2, chunks)) ==> forall|i: int| 0 <= i < chunks.len() ==> seam_cut(#[trigger] chunks[i]),
{
    lemma_text_byte_conserves(m, byte);
    reveal(text_byte);
    match utf8_push_spec(m.utf8, byte) {
        Err(_) => {},
        Ok((utf8, completed)) => {
            let buffer = m.buffer.push(byte);
            let (m2, chunks) = text_byte(m, byte)->Ok_0;
            if completed {
                if cut_here_spec(m.table, buffer, byte) {
                    assert(chunks[0] == buffer);
                    assert(buffer.last() == byte);
                    assert(seam_cut(chunks[0]));
                }
            } else if buffer.len() >= GENERIC_CDC_CHUNK_MAX_BYTES {
                assert(m2.buffer.len() == buffer.len() - m.last_boundary);
                assert(chunks[0].len() == m.last_boundary);
                assert(seam_cut(chunks[0]));
            }
        },
    }
}

/// Cuts fall on textual seams: every chunk a window completes (every
/// chunk but the trailing one `finish` flushes) holds at least the
/// minimum and ends after a cut candidate, unless the maximum forced
/// it within an open scalar's three bytes of the maximum.
pub proof fn lemma_text_cuts_at_seams(m: TextModel, bytes: Seq<u8>)
    requires
        text_model_wf(m),
        m.offset + bytes.len() <= u64::MAX,
    ensures
        text_feed(m, bytes) matches Ok((m2, chunks)) ==> forall|i: int| 0 <= i < chunks.len() ==> seam_cut(#[trigger] chunks[i]),
    decreases bytes.len(),
{
    if bytes.len() > 0 {
        let prefix = bytes.drop_last();
        lemma_text_cuts_at_seams(m, prefix);
        lemma_text_feed_conserves(m, prefix);
        match text_feed(m, prefix) {
            Err(_) => {},
            Ok((m1, c1)) => {
                lemma_text_byte_seams(m1, bytes.last());
                match text_byte(m1, bytes.last()) {
                    Err(_) => {},
                    Ok((m2, c2)) => {
                        assert(text_feed(m, bytes) == Ok::<(TextModel, Seq<Seq<u8>>), (Utf8Fault, u64)>((m2, c1 + c2)));
                        assert forall|i: int| 0 <= i < (c1 + c2).len() implies seam_cut(#[trigger] (c1 + c2)[i]) by {
                            if i < c1.len() {
                                assert((c1 + c2)[i] == c1[i]);
                            } else {
                                assert((c1 + c2)[i] == c2[i - c1.len()]);
                            }
                        }
                    },
                }
            },
        }
    }
}

/// A chunk never splits a scalar: every chunk of accepted text is
/// whole UTF-8 scalars, and so is the open chunk whenever the text
/// ends between scalars (the chunk `finish` flushes).
pub proof fn lemma_text_chunks_whole_scalars(bytes: Seq<u8>)
    requires
        bytes.len() <= u64::MAX,
    ensures
        text_feed(text_initial(), bytes) matches Ok((m, chunks)) ==> {
            &&& forall|i: int| 0 <= i < chunks.len() ==> whole_scalars(#[trigger] chunks[i])
            &&& m.utf8.remaining == 0 ==> whole_scalars(m.buffer)
            &&& text_scalar_inv(m)
        },
    decreases bytes.len(),
{
    if bytes.len() == 0 {
        assert(Seq::<u8>::empty().subrange(0, 0) =~= Seq::<u8>::empty());
    } else {
        lemma_text_chunks_whole_scalars(bytes.drop_last());
        lemma_text_feed_conserves(text_initial(), bytes.drop_last());
        match text_feed(text_initial(), bytes.drop_last()) {
            Err(_) => {},
            Ok((m1, c1)) => {
                lemma_text_byte_scalars(m1, bytes.last());
                match text_byte(m1, bytes.last()) {
                    Err(_) => {},
                    Ok((m2, c2)) => {
                        assert forall|i: int| 0 <= i < (c1 + c2).len() implies whole_scalars(#[trigger] (c1 + c2)[i]) by {
                            if i >= c1.len() {
                                assert((c1 + c2)[i] == c2[i - c1.len()]);
                            }
                        }
                    },
                }
            },
        }
    }
    match text_feed(text_initial(), bytes) {
        Err(_) => {},
        Ok((m, _)) => {
            if m.utf8.remaining == 0 {
                lemma_text_feed_conserves(text_initial(), bytes);
                assert(m.buffer.subrange(0, m.last_boundary as int) =~= m.buffer);
            }
        },
    }
}

impl Chunker for StructuredTextChunker {
    closed spec fn inv(&self) -> bool {
        self.wf()
    }

    closed spec fn consumed(&self) -> nat {
        if self@.rejected { 0 } else { self@.offset as nat }
    }

    fn push(&mut self, window: &[u8], emit: &mut Vec<Vec<u8>>) -> (result: Result<(), ChunkError>)
        ensures
            final(self).wf(),
            old(self)@.rejected ==> result == Err::<(), ChunkError>(text_rejected_error()) && final(self)@ == old(self)@
                && final(emit)@ == old(emit)@,
            !old(self)@.rejected ==> match text_feed(old(self)@, window@) {
                Ok((m, chunks)) => result is Ok && final(self)@ == m
                    && chunk_view(final(emit)@) == chunk_view(old(emit)@) + chunks,
                Err((fault, offset)) => final(self)@.rejected
                    && result == Err::<(), ChunkError>(text_error(utf8_fault_detail(fault), offset))
                    && chunk_view(final(emit)@) == chunk_view(old(emit)@) + feed_emitted(text_step(), text_partial(), old(self)@, window@),
            },
    {
        StructuredTextChunker::push(self, window, emit)
    }

    fn finish(&mut self, emit: &mut Vec<Vec<u8>>) -> (result: Result<(), ChunkError>)
        ensures
            final(self).wf(),
            old(self)@.rejected ==> result == Err::<(), ChunkError>(text_rejected_error()) && final(self)@ == old(self)@
                && final(emit)@ == old(emit)@,
            !old(self)@.rejected && old(self)@.utf8.remaining != 0 ==> final(self)@.rejected
                && final(emit)@ == old(emit)@ && result == Err::<(), ChunkError>(text_error(TRUNCATED_SCALAR, old(self)@.offset)),
            !old(self)@.rejected && old(self)@.utf8.remaining == 0 ==> result is Ok
                && final(self)@ == text_initial()
                && chunk_view(final(emit)@) == chunk_view(old(emit)@) + (if old(self)@.buffer.len() > 0 {
                    seq![old(self)@.buffer]
                } else {
                    Seq::empty()
                }),
    {
        StructuredTextChunker::finish(self, emit)
    }
}


/// A text feed follows the UTF-8 scanner: it fails exactly when the
/// scanner rejects the window, at the offset of the rejected byte
/// (within the window); otherwise the scanner ends where the scanner
/// run ends and the offset advances by the window.
pub proof fn lemma_text_feed_follows_utf8(m: TextModel, bytes: Seq<u8>)
    requires
        m.offset + bytes.len() <= u64::MAX,
    ensures
        match text_feed(m, bytes) {
            Ok((m2, _)) => utf8_run(m.utf8, bytes) == Ok::<Utf8State, Utf8Fault>(m2.utf8) && m2.offset == m.offset
                + bytes.len(),
            Err((fault, offset)) => utf8_run(m.utf8, bytes) == Err::<Utf8State, Utf8Fault>(fault) && m.offset
                <= offset < m.offset + bytes.len(),
        },
    decreases bytes.len(),
{
    reveal(text_byte);
    if bytes.len() > 0 {
        let init = bytes.drop_last();
        lemma_text_feed_follows_utf8(m, init);
        match text_feed(m, init) {
            Err(_) => {},
            Ok((m1, _)) => {
                assert(text_step()(m1, bytes.last()) == text_byte(m1, bytes.last()));
            },
        }
    }
}

/// A malformed tail after valid text is rejected within the tail:
/// after bytes the UTF-8 scanner accepts, the first rejection, if
/// any, is at an offset inside the bytes that follow.
pub proof fn lemma_text_rejects_within_the_tail(prefix: Seq<u8>, tail: Seq<u8>)
    requires
        utf8_run(utf8_initial(), prefix) is Ok,
        prefix.len() + tail.len() <= u64::MAX,
    ensures
        text_feed(text_initial(), prefix + tail) matches Err((_, offset)) ==> prefix.len() <= offset < prefix.len()
            + tail.len(),
{
    let m = text_initial();
    lemma_text_feed_split(m, prefix, tail);
    lemma_text_feed_follows_utf8(m, prefix);
    match text_feed(m, prefix) {
        Err(_) => {},
        Ok((m1, _)) => {
            lemma_text_feed_follows_utf8(m1, tail);
        },
    }
}

} // verus!
