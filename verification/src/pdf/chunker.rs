//! [`PdfChunker`] — the `pdf-v1` streaming boundary detector.

use vstd::prelude::*;

use super::fault::{pdf_error, stream_rejected, PdfFault, PDF_PROFILE};
use super::walker::{
    lemma_pdf_consume_wf, pdf_consume_spec, pdf_finish_spec, pdf_walker_initial, pdf_walker_wf, PdfWalkerModel,
    Walker,
};
use crate::assembler::{
    asm_boundary, asm_finish, asm_push, chunk_view, chunks_bounded, lemma_boundary_conserves,
    lemma_finish_conserves, lemma_push_conserves, AsmModel, BoundaryAssembler,
};
use crate::chunker::{
    feed, feed_emitted, feed_then, lemma_feed_conserves, lemma_feed_emitted_fault, lemma_feed_extend, lemma_feed_prefix_err, lemma_feed_split, Chunker,
    StepFn,
};
use crate::constants::{DOCUMENT_UNIT_CHUNK_MIN_BYTES, GENERIC_CDC_CHUNK_MAX_BYTES};
use crate::error::ChunkError;
use crate::gear::{gear_table, PDF_GEAR_SEED};

verus! {

broadcast use {vstd::seq_lib::group_seq_properties, Seq::group_seq_flatten};

/// The `pdf-v1` chunker as a mathematical value.
pub struct PdfModel {
    /// The structure walker.
    pub walker: PdfWalkerModel,
    /// The chunk assembler.
    pub cutter: AsmModel,
    /// The stream was rejected.
    pub rejected: bool,
}

/// ASCII white space as Rust's `u8::is_ascii_whitespace` has it (no
/// NUL).
pub open spec fn ascii_whitespace(byte: u8) -> bool {
    byte == 9 || byte == 10 || byte == 12 || byte == 13 || byte == 32
}

/// One byte: a byte that begins a body item closes the open chunk
/// from the document unit minimum; the byte is walked and
/// assembled. On a fault, the fault and the offending byte's
/// offset.
#[verifier::opaque]
pub open spec fn pdf_byte(m: PdfModel, byte: u8) -> Result<(PdfModel, Seq<Seq<u8>>), (PdfFault, u64)> {
    let (a1, c1) = if m.walker.boundary_pending && !ascii_whitespace(byte) {
        asm_boundary(m.cutter)
    } else {
        (m.cutter, Seq::empty())
    };
    match pdf_consume_spec(m.walker, byte) {
        Err(fault) => Err((fault, m.walker.offset)),
        Ok(w2) => {
            let (a2, c2) = asm_push(a1, byte);
            Ok((PdfModel { walker: w2, cutter: a2, rejected: false }, c1 + c2))
        },
    }
}

/// The chunks a byte emits before the walker rejects it: the open
/// chunk a body item beginning with it closes.
pub open spec fn pdf_partial() -> spec_fn(PdfModel, u8) -> Seq<Seq<u8>> {
    |m: PdfModel, byte: u8| if m.walker.boundary_pending && !ascii_whitespace(byte) {
        asm_boundary(m.cutter).1
    } else {
        Seq::empty()
    }
}

/// The `pdf-v1` step function.
pub open spec fn pdf_step() -> StepFn<PdfModel, (PdfFault, u64)> {
    |m: PdfModel, byte: u8| pdf_byte(m, byte)
}

/// The chunker after `bytes`, with the chunks they completed, or the
/// first fault.
pub open spec fn pdf_feed(m: PdfModel, bytes: Seq<u8>) -> Result<(PdfModel, Seq<Seq<u8>>), (PdfFault, u64)> {
    feed(pdf_step(), m, bytes)
}

/// The model of a fresh chunker.
pub open spec fn pdf_initial() -> PdfModel {
    PdfModel {
        walker: pdf_walker_initial(),
        cutter: AsmModel { table: gear_table(PDF_GEAR_SEED), unit_min: DOCUMENT_UNIT_CHUNK_MIN_BYTES as nat, buffer: Seq::empty() },
        rejected: false,
    }
}

/// The model's invariant: a bounded walker and an open chunk below
/// the maximum.
pub open spec fn pdf_model_wf(m: PdfModel) -> bool {
    &&& pdf_walker_wf(m.walker)
    &&& m.cutter.buffer.len() < GENERIC_CDC_CHUNK_MAX_BYTES
}

/// The error of a stream the profile already rejected.
pub open spec fn pdf_rejected_error() -> ChunkError {
    ChunkError::ProfileStreamRejected { profile: PDF_PROFILE }
}

/// Streaming `pdf-v1` chunker.
///
/// Byte-exact: chunks concatenate to the input. The structural
/// invariant is the PDF body grammar — the `%PDF-` header, then
/// indirect objects (stream payloads skipped by their direct
/// `/Length`, or by scanning for `endstream` when the length is
/// indirect), comments, classic `xref` tables, `trailer`
/// dictionaries, and `startxref`, through any number of
/// incremental-update sections, ending at a final `%%EOF`.
///
/// Cut candidates are object boundaries (each body item start),
/// closing from the document unit minimum so small object runs
/// coalesce while an edited object invalidates only its own chunk;
/// the gear hash places content-defined cuts inside large stream
/// payloads. Malformed documents reject the whole stream.
pub struct PdfChunker {
    walker: Walker,
    assembler: BoundaryAssembler,
    rejected: bool,
}

impl View for PdfChunker {
    type V = PdfModel;

    closed spec fn view(&self) -> PdfModel {
        PdfModel { walker: self.walker@, cutter: self.assembler@, rejected: self.rejected }
    }
}

impl PdfChunker {
    /// The chunker's invariant.
    pub closed spec fn wf(&self) -> bool {
        &&& self.rejected || pdf_walker_wf(self.walker@)
        &&& self.assembler.wf()
        &&& self.assembler@.table == gear_table(PDF_GEAR_SEED)
        &&& self.assembler@.unit_min == DOCUMENT_UNIT_CHUNK_MIN_BYTES
    }

    /// Start a chunker for the frozen `pdf-v1` parameters.
    pub fn new() -> (chunker: Self)
        ensures
            chunker.wf(),
            chunker@ == pdf_initial(),
    {
        PdfChunker {
            walker: Walker::new(),
            assembler: BoundaryAssembler::with_unit_min(PDF_GEAR_SEED, DOCUMENT_UNIT_CHUNK_MIN_BYTES),
            rejected: false,
        }
    }

    /// One byte of a live stream.
    fn feed_byte(&mut self, byte: u8, emit: &mut Vec<Vec<u8>>) -> (result: Result<(), ChunkError>)
        requires
            old(self).wf(),
            !old(self)@.rejected,
            old(self)@.walker.offset < u64::MAX,
        ensures
            final(self).wf(),
            result is Ok ==> !final(self)@.rejected && final(self)@.walker.offset == old(self)@.walker.offset + 1,
            match pdf_byte(old(self)@, byte) {
                Ok((m, chunks)) => result is Ok && final(self)@ == m
                    && chunk_view(final(emit)@) == chunk_view(old(emit)@) + chunks,
                Err((fault, offset)) => final(self)@.rejected && result == Err::<(), ChunkError>(pdf_error(fault, offset))
                    && chunk_view(final(emit)@) == chunk_view(old(emit)@) + pdf_partial()(old(self)@, byte),
            },
    {
        let ghost start_emit = chunk_view(emit@);
        proof {
            reveal(pdf_byte);
        }
        let white = byte == 9 || byte == 10 || byte == 12 || byte == 13 || byte == 32;
        if self.walker.at_item_boundary() && !white {
            self.assembler.boundary(emit);
        }
        let at = self.walker.offset();
        match self.walker.consume(byte) {
            Err(fault) => {
                self.rejected = true;
                self.assembler.clear();
                return Err(fault.into_error(at));
            },
            Ok(()) => {},
        }
        proof {
            lemma_pdf_consume_wf(old(self)@.walker, byte);
        }
        self.assembler.push(byte, emit);
        assert(chunk_view(emit@) =~= start_emit + pdf_byte(old(self)@, byte)->Ok_0.1);
        Ok(())
    }

    /// Feed one window.
    pub fn push(&mut self, window: &[u8], emit: &mut Vec<Vec<u8>>) -> (result: Result<(), ChunkError>)
        requires
            old(self).wf(),
            !old(self)@.rejected ==> old(self)@.walker.offset + window@.len() <= u64::MAX,
        ensures
            final(self).wf(),
            old(self)@.rejected ==> result == Err::<(), ChunkError>(pdf_rejected_error()) && final(self)@ == old(self)@
                && final(emit)@ == old(emit)@,
            !old(self)@.rejected ==> match pdf_feed(old(self)@, window@) {
                Ok((m, chunks)) => result is Ok && final(self)@ == m
                    && chunk_view(final(emit)@) == chunk_view(old(emit)@) + chunks,
                Err((fault, offset)) => final(self)@.rejected && result == Err::<(), ChunkError>(pdf_error(fault, offset))
                    && chunk_view(final(emit)@) == chunk_view(old(emit)@) + feed_emitted(pdf_step(), pdf_partial(), old(self)@, window@),
            },
    {
        if self.rejected {
            return Err(stream_rejected());
        }
        let ghost start = self@;
        let ghost emitted = chunk_view(emit@);
        let mut i: usize = 0;
        while i < window.len()
            invariant
                i <= window@.len(),
                start == old(self)@,
                !start.rejected,
                emitted == chunk_view(old(emit)@),
                self.wf(),
                !self@.rejected,
                start.walker.offset + window@.len() <= u64::MAX,
                self@.walker.offset == start.walker.offset + i,
                pdf_feed(start, window@.subrange(0, i as int)) matches Ok((m, chunks))
                    && m == self@ && chunk_view(emit@) == emitted + chunks,
            decreases window@.len() - i,
        {
            let byte = window[i];
            proof {
                lemma_feed_extend(pdf_step(), start, window@, i as int);
            }
            match self.feed_byte(byte, emit) {
                Err(error) => {
                    proof {
                        lemma_feed_prefix_err(pdf_step(), start, window@, (i + 1) as nat);
                        lemma_feed_emitted_fault(pdf_step(), pdf_partial(), start, window@, i as int, window@.len() as int);
                        assert(window@.subrange(0, window@.len() as int) =~= window@);
                        let c1 = pdf_feed(start, window@.subrange(0, i as int))->Ok_0.1;
                        let p = pdf_partial()(pdf_feed(start, window@.subrange(0, i as int))->Ok_0.0, byte);
                        assert(emitted + c1 + p =~= emitted + (c1 + p));
                    }
                    return Err(error);
                },
                Ok(()) => {},
            }
            proof {
                let chunks = pdf_feed(start, window@.subrange(0, i as int))->Ok_0.1;
                let more = pdf_byte(pdf_feed(start, window@.subrange(0, i as int))->Ok_0.0, byte)->Ok_0.1;
                assert(chunk_view(emit@) =~= emitted + (chunks + more));
            }
            i = i + 1;
        }
        assert(window@.subrange(0, i as int) =~= window@);
        Ok(())
    }

    /// End the stream: the document must be complete; flush the
    /// trailing chunk and reset.
    pub fn finish(&mut self, emit: &mut Vec<Vec<u8>>) -> (result: Result<(), ChunkError>)
        requires
            old(self).wf(),
        ensures
            final(self).wf(),
            old(self)@.rejected ==> result == Err::<(), ChunkError>(pdf_rejected_error()) && final(self)@ == old(self)@
                && final(emit)@ == old(emit)@,
            !old(self)@.rejected ==> match pdf_finish_spec(old(self)@.walker) {
                Ok(()) => result is Ok && final(self)@ == pdf_initial()
                    && chunk_view(final(emit)@) == chunk_view(old(emit)@) + asm_finish(old(self)@.cutter).1,
                Err(fault) => final(self)@.rejected && final(emit)@ == old(emit)@
                    && result == Err::<(), ChunkError>(pdf_error(fault, old(self)@.walker.offset)),
            },
    {
        if self.rejected {
            return Err(stream_rejected());
        }
        match self.walker.finish() {
            Err(fault) => {
                self.rejected = true;
                self.assembler.clear();
                return Err(fault.into_error(self.walker.offset()));
            },
            Ok(()) => {},
        }
        self.assembler.finish(emit);
        *self = PdfChunker::new();
        Ok(())
    }
}

/// One byte loses nothing: the chunks it completes followed by the
/// new open chunk are the old open chunk followed by the byte.
proof fn lemma_pdf_byte_conserves(m: PdfModel, byte: u8)
    requires
        pdf_model_wf(m),
        m.walker.offset < u64::MAX,
    ensures
        pdf_byte(m, byte) matches Ok((m2, chunks)) ==> {
            &&& chunks.flatten() + m2.cutter.buffer == m.cutter.buffer.push(byte)
            &&& pdf_model_wf(m2)
            &&& m2.walker.offset == m.walker.offset + 1
            &&& chunks_bounded(chunks)
        },
{
    reveal(pdf_byte);
    lemma_pdf_consume_wf(m.walker, byte);
    let (a1, k1) = if m.walker.boundary_pending && !ascii_whitespace(byte) {
        asm_boundary(m.cutter)
    } else {
        (m.cutter, Seq::empty())
    };
    lemma_boundary_conserves(m.cutter);
    assert(k1.flatten() + a1.buffer == m.cutter.buffer);
    lemma_push_conserves(a1, byte);
    let (a2, k2) = asm_push(a1, byte);
    vstd::seq_lib::lemma_flatten_concat(k1, k2);
    assert((k1 + k2).flatten() + a2.buffer =~= k1.flatten() + (k2.flatten() + a2.buffer));
    assert(k1.flatten() + (a1.buffer.push(byte)) =~= (k1.flatten() + a1.buffer).push(byte));
    assert forall|i: int| 0 <= i < (k1 + k2).len() implies
        0 < #[trigger] (k1 + k2)[i].len() <= GENERIC_CDC_CHUNK_MAX_BYTES by {
        if i >= k1.len() {
            assert((k1 + k2)[i] == k2[i - k1.len()]);
        }
    }
}

/// Window independence: feeding `a` then `b` is feeding `a + b` —
/// the same model, the same chunks, the same first fault.
pub proof fn lemma_pdf_feed_split(m: PdfModel, a: Seq<u8>, b: Seq<u8>)
    ensures
        pdf_feed(m, a + b) == feed_then(pdf_step(), m, a, b),
{
    lemma_feed_split(pdf_step(), m, a, b);
}

/// Conservation: the chunks a window completes, followed by the open
/// chunk after it, are the open chunk before it followed by the
/// window; every completed chunk is non-empty and within the
/// envelope maximum.
pub proof fn lemma_pdf_feed_conserves(m: PdfModel, bytes: Seq<u8>)
    requires
        pdf_model_wf(m),
        m.walker.offset + bytes.len() <= u64::MAX,
    ensures
        pdf_feed(m, bytes) matches Ok((m2, chunks)) ==> {
            &&& chunks.flatten() + m2.cutter.buffer == m.cutter.buffer + bytes
            &&& pdf_model_wf(m2)
            &&& m2.walker.offset == m.walker.offset + bytes.len()
            &&& chunks_bounded(chunks)
        },
{
    let inv = |m: PdfModel| pdf_model_wf(m);
    let open_chunk = |m: PdfModel| m.cutter.buffer;
    let room = |m: PdfModel| u64::MAX - m.walker.offset;
    assert forall|m: PdfModel, byte: u8| inv(m) && room(m) >= 1 implies (#[trigger] pdf_step()(m, byte) matches Ok((m2, chunks)) ==> {
        &&& inv(m2)
        &&& room(m2) == room(m) - 1
        &&& chunks.flatten() + open_chunk(m2) == open_chunk(m).push(byte)
        &&& chunks_bounded(chunks)
    }) by {
        lemma_pdf_byte_conserves(m, byte);
    }
    lemma_feed_conserves(pdf_step(), inv, open_chunk, room, m, bytes);
}

/// A whole stream: the chunks of an accepted document — those its
/// bytes completed and the trailing one `finish` flushes —
/// concatenate to the document.
pub proof fn lemma_pdf_stream_concatenates(bytes: Seq<u8>)
    requires
        bytes.len() <= u64::MAX,
    ensures
        pdf_feed(pdf_initial(), bytes) matches Ok((m, chunks)) ==> {
            &&& (chunks + asm_finish(m.cutter).1).flatten() == bytes
            &&& chunks_bounded(chunks + asm_finish(m.cutter).1)
        },
{
    lemma_pdf_feed_conserves(pdf_initial(), bytes);
    match pdf_feed(pdf_initial(), bytes) {
        Err(_) => {},
        Ok((m, chunks)) => {
            lemma_finish_conserves(m.cutter);
            let tail = asm_finish(m.cutter).1;
            vstd::seq_lib::lemma_flatten_concat(chunks, tail);
            assert(Seq::<u8>::empty() + bytes =~= bytes);
            assert(chunks.flatten() + tail.flatten() =~= chunks.flatten() + m.cutter.buffer);
            assert forall|i: int| 0 <= i < (chunks + tail).len() implies
                0 < #[trigger] (chunks + tail)[i].len() <= GENERIC_CDC_CHUNK_MAX_BYTES by {
                if i >= chunks.len() {
                    assert((chunks + tail)[i] == tail[i - chunks.len()]);
                }
            }
        },
    }
}

impl Chunker for PdfChunker {
    closed spec fn inv(&self) -> bool {
        self.wf()
    }

    closed spec fn consumed(&self) -> nat {
        if self@.rejected { 0 } else { self@.walker.offset as nat }
    }

    fn push(&mut self, window: &[u8], emit: &mut Vec<Vec<u8>>) -> (result: Result<(), ChunkError>)
        ensures
            final(self).wf(),
            old(self)@.rejected ==> result == Err::<(), ChunkError>(pdf_rejected_error()) && final(self)@ == old(self)@
                && final(emit)@ == old(emit)@,
            !old(self)@.rejected ==> match pdf_feed(old(self)@, window@) {
                Ok((m, chunks)) => result is Ok && final(self)@ == m
                    && chunk_view(final(emit)@) == chunk_view(old(emit)@) + chunks,
                Err((fault, offset)) => final(self)@.rejected && result == Err::<(), ChunkError>(pdf_error(fault, offset))
                    && chunk_view(final(emit)@) == chunk_view(old(emit)@) + feed_emitted(pdf_step(), pdf_partial(), old(self)@, window@),
            },
    {
        PdfChunker::push(self, window, emit)
    }

    fn finish(&mut self, emit: &mut Vec<Vec<u8>>) -> (result: Result<(), ChunkError>)
        ensures
            final(self).wf(),
            old(self)@.rejected ==> result == Err::<(), ChunkError>(pdf_rejected_error()) && final(self)@ == old(self)@
                && final(emit)@ == old(emit)@,
            !old(self)@.rejected ==> match pdf_finish_spec(old(self)@.walker) {
                Ok(()) => result is Ok && final(self)@ == pdf_initial()
                    && chunk_view(final(emit)@) == chunk_view(old(emit)@) + asm_finish(old(self)@.cutter).1,
                Err(fault) => final(self)@.rejected
                    && result == Err::<(), ChunkError>(pdf_error(fault, old(self)@.walker.offset)),
            },
    {
        PdfChunker::finish(self, emit)
    }
}

} // verus!
