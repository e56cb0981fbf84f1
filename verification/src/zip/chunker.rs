//! [`ZipChunker`] — the `zip-v1` streaming boundary detector.

use vstd::prelude::*;

use super::fault::{stream_rejected, zip_fault_detail, ZipFault, ZIP_PROFILE};
use super::walker::{
    at_member_boundary_spec, consume_spec, initial_walker, lemma_consume_wf, walk_complete,
    walker_wf, Walker, WalkerModel,
};
use crate::assembler::{
    asm_boundary, asm_finish, asm_large, asm_push, chunk_view, chunks_bounded, lemma_boundary_conserves,
    lemma_finish_conserves, lemma_large_conserves, lemma_push_conserves, AsmModel, BoundaryAssembler,
};
use crate::chunker::{
    feed, feed_emitted, feed_then, lemma_feed_conserves, lemma_feed_emitted_fault, lemma_feed_extend, lemma_feed_prefix_err, lemma_feed_split, Chunker,
    StepFn,
};
use crate::constants::{GENERIC_CDC_CHUNK_MAX_BYTES, GENERIC_CDC_CHUNK_MIN_BYTES};
use crate::error::ChunkError;
use crate::gear::{gear_table, ZIP_GEAR_SEED};

verus! {

broadcast use {vstd::seq_lib::group_seq_properties, Seq::group_seq_flatten};

/// The `zip-v1` chunker as a mathematical value.
pub struct ZipModel {
    /// The structure walker.
    pub walker: WalkerModel,
    /// The chunk assembler.
    pub cutter: AsmModel,
    /// The stream was rejected.
    pub rejected: bool,
}

/// One byte: a member boundary before it closes the open chunk from
/// the envelope minimum; the byte is walked and assembled; a large
/// member's completed header realigns to begin a chunk. On a fault,
/// the fault and the offending byte's offset.
#[verifier::opaque]
pub open spec fn zip_byte(m: ZipModel, byte: u8) -> Result<(ZipModel, Seq<Seq<u8>>), (ZipFault, u64)> {
    let (a1, c1) = if at_member_boundary_spec(m.walker) { asm_boundary(m.cutter) } else { (m.cutter, Seq::empty()) };
    match consume_spec(m.walker, byte) {
        Err(fault) => Err((fault, m.walker.offset)),
        Ok((w2, step)) => {
            let (a2, c2) = asm_push(a1, byte);
            let (a3, c3) = match step.large {
                Some(header_len) => asm_large(a2, header_len as nat),
                None => (a2, Seq::empty()),
            };
            Ok((ZipModel { walker: w2, cutter: a3, rejected: false }, c1 + c2 + c3))
        },
    }
}

/// The chunks a byte emits before the walker rejects it: the open
/// chunk a member boundary before it closes.
pub open spec fn zip_partial() -> spec_fn(ZipModel, u8) -> Seq<Seq<u8>> {
    |m: ZipModel, byte: u8| if at_member_boundary_spec(m.walker) { asm_boundary(m.cutter).1 } else { Seq::empty() }
}

/// The `zip-v1` step function.
pub open spec fn zip_step() -> StepFn<ZipModel, (ZipFault, u64)> {
    |m: ZipModel, byte: u8| zip_byte(m, byte)
}

/// The chunker after `bytes`, with the chunks they completed, or the
/// first fault.
pub open spec fn zip_feed(m: ZipModel, bytes: Seq<u8>) -> Result<(ZipModel, Seq<Seq<u8>>), (ZipFault, u64)> {
    feed(zip_step(), m, bytes)
}

/// The model of a fresh chunker.
pub open spec fn zip_initial() -> ZipModel {
    ZipModel {
        walker: initial_walker(),
        cutter: AsmModel { table: gear_table(ZIP_GEAR_SEED), unit_min: GENERIC_CDC_CHUNK_MIN_BYTES as nat, buffer: Seq::empty() },
        rejected: false,
    }
}

/// The model's invariant: a bounded walker and an open chunk below
/// the maximum.
pub open spec fn zip_model_wf(m: ZipModel) -> bool {
    &&& walker_wf(m.walker)
    &&& m.cutter.buffer.len() < GENERIC_CDC_CHUNK_MAX_BYTES
}

/// Streaming `zip-v1` chunker.
///
/// The structural invariant is the ZIP container itself: a
/// forward-only walk over local file headers, member bytes, data
/// descriptors, the central directory, and the end records, with
/// every size claim reconciled and no member ever inflated. Cut
/// candidates are member boundaries — the start of every local file
/// header and of the central directory — so an unchanged member
/// yields identical chunks wherever it appears. Inside a large member
/// the gear hash places content-defined cuts. A large member always
/// begins a chunk and small members attach backward. Malformed
/// archives reject the whole stream.
pub struct ZipChunker {
    walker: Walker,
    assembler: BoundaryAssembler,
    rejected: bool,
}

impl View for ZipChunker {
    type V = ZipModel;

    closed spec fn view(&self) -> ZipModel {
        ZipModel { walker: self.walker@, cutter: self.assembler@, rejected: self.rejected }
    }
}

impl ZipChunker {
    /// The chunker's invariant.
    pub closed spec fn wf(&self) -> bool {
        &&& self.rejected || walker_wf(self.walker@)
        &&& self.assembler.wf()
        &&& self.assembler@.table == gear_table(ZIP_GEAR_SEED)
        &&& self.assembler@.unit_min == GENERIC_CDC_CHUNK_MIN_BYTES
    }

    /// Start a chunker for the frozen `zip-v1` parameters.
    pub fn new() -> (chunker: Self)
        ensures
            chunker.wf(),
            chunker@ == zip_initial(),
    {
        ZipChunker { walker: Walker::new(), assembler: BoundaryAssembler::new(ZIP_GEAR_SEED), rejected: false }
    }

    /// One byte of a live stream.
    fn feed_byte(&mut self, byte: u8, emit: &mut Vec<Vec<u8>>) -> (result: Result<(), ChunkError>)
        requires
            old(self).wf(),
            !old(self)@.rejected,
            old(self)@.walker.offset < u64::MAX,
        ensures
            final(self).wf(),
            result is Ok ==> !final(self)@.rejected && final(self)@.walker.offset == old(self)@.walker.offset + 1,
            match zip_byte(old(self)@, byte) {
                Ok((m, chunks)) => result is Ok && final(self)@ == m
                    && chunk_view(final(emit)@) == chunk_view(old(emit)@) + chunks,
                Err((fault, offset)) => final(self)@.rejected && result == Err::<(), ChunkError>(
                    ChunkError::MalformedProfileInput { profile: ZIP_PROFILE, offset, detail: zip_fault_detail(fault) })
                    && chunk_view(final(emit)@) == chunk_view(old(emit)@) + zip_partial()(old(self)@, byte),
            },
    {
        let ghost start_emit = chunk_view(emit@);
        proof {
            reveal(zip_byte);
        }
        if self.walker.at_member_boundary() {
            self.assembler.boundary(emit);
        }
        let ghost after_boundary = chunk_view(emit@);
        let at = self.walker.offset();
        match self.walker.consume(byte) {
            Err(fault) => {
                self.rejected = true;
                self.assembler.clear();
                Err(fault.into_error(at))
            },
            Ok(step) => {
                proof {
                    lemma_consume_wf(old(self)@.walker, byte);
                }
                self.assembler.push(byte, emit);
                let ghost after_push = chunk_view(emit@);
                match step.large {
                    Some(header_len) => self.assembler.large_unit_starts(header_len, emit),
                    None => {},
                }
                assert(chunk_view(emit@) =~= start_emit + zip_byte(old(self)@, byte)->Ok_0.1);
                Ok(())
            },
        }
    }

    /// Feed one window.
    pub fn push(&mut self, window: &[u8], emit: &mut Vec<Vec<u8>>) -> (result: Result<(), ChunkError>)
        requires
            old(self).wf(),
            !old(self)@.rejected ==> old(self)@.walker.offset + window@.len() <= u64::MAX,
        ensures
            final(self).wf(),
            old(self)@.rejected ==> result == Err::<(), ChunkError>(stream_rejected_error()) && final(self)@ == old(self)@
                && final(emit)@ == old(emit)@,
            !old(self)@.rejected ==> match zip_feed(old(self)@, window@) {
                Ok((m, chunks)) => result is Ok && final(self)@ == m
                    && chunk_view(final(emit)@) == chunk_view(old(emit)@) + chunks,
                Err((fault, offset)) => final(self)@.rejected && result == Err::<(), ChunkError>(
                    ChunkError::MalformedProfileInput { profile: ZIP_PROFILE, offset, detail: zip_fault_detail(fault) })
                    && chunk_view(final(emit)@) == chunk_view(old(emit)@) + feed_emitted(zip_step(), zip_partial(), old(self)@, window@),
            },
    {
        if self.rejected {
            return Err(stream_rejected());
        }
        let ghost start = self@;
        let ghost emitted = chunk_view(emit@);
        let mut i: usize = 0;
        while i < window.len()
            invariant
                i <= window@.len(),
                start == old(self)@,
                !start.rejected,
                emitted == chunk_view(old(emit)@),
                self.wf(),
                !self@.rejected,
                start.walker.offset + window@.len() <= u64::MAX,
                self@.walker.offset == start.walker.offset + i,
                zip_feed(start, window@.subrange(0, i as int)) matches Ok((m, chunks))
                    && m == self@ && chunk_view(emit@) == emitted + chunks,
            decreases window@.len() - i,
        {
            let byte = window[i];
            proof {
                lemma_feed_extend(zip_step(), start, window@, i as int);
            }
            match self.feed_byte(byte, emit) {
                Err(error) => {
                    proof {
                        lemma_feed_prefix_err(zip_step(), start, window@, (i + 1) as nat);
                        lemma_feed_emitted_fault(zip_step(), zip_partial(), start, window@, i as int, window@.len() as int);
                        assert(window@.subrange(0, window@.len() as int) =~= window@);
                        let c1 = zip_feed(start, window@.subrange(0, i as int))->Ok_0.1;
                        assert(emitted + c1 + zip_partial()(zip_feed(start, window@.subrange(0, i as int))->Ok_0.0, byte)
                            =~= emitted + (c1 + zip_partial()(zip_feed(start, window@.subrange(0, i as int))->Ok_0.0, byte)));
                    }
                    return Err(error);
                },
                Ok(()) => {},
            }
            proof {
                let chunks = zip_feed(start, window@.subrange(0, i as int))->Ok_0.1;
                let more = zip_byte(zip_feed(start, window@.subrange(0, i as int))->Ok_0.0, byte)->Ok_0.1;
                assert(chunk_view(emit@) =~= emitted + (chunks + more));
            }
            i = i + 1;
        }
        assert(window@.subrange(0, i as int) =~= window@);
        Ok(())
    }

    /// End the stream: the archive must be complete; flush the
    /// trailing chunk and reset.
    pub fn finish(&mut self, emit: &mut Vec<Vec<u8>>) -> (result: Result<(), ChunkError>)
        requires
            old(self).wf(),
        ensures
            final(self).wf(),
            old(self)@.rejected ==> result == Err::<(), ChunkError>(stream_rejected_error()) && final(self)@ == old(self)@
                && final(emit)@ == old(emit)@,
            !old(self)@.rejected && walk_complete(old(self)@.walker) ==> result is Ok
                && final(self)@ == zip_initial()
                && chunk_view(final(emit)@) == chunk_view(old(emit)@) + asm_finish(old(self)@.cutter).1,
            !old(self)@.rejected && !walk_complete(old(self)@.walker) ==> final(self)@.rejected
                && final(emit)@ == old(emit)@ && result == Err::<(), ChunkError>(ChunkError::MalformedProfileInput {
                    profile: ZIP_PROFILE,
                    offset: old(self)@.walker.offset,
                    detail: zip_fault_detail(ZipFault::Truncated),
                }),
    {
        if self.rejected {
            return Err(stream_rejected());
        }
        match self.walker.finish() {
            Err(fault) => {
                self.rejected = true;
                self.assembler.clear();
                return Err(fault.into_error(self.walker.offset()));
            },
            Ok(()) => {},
        }
        self.assembler.finish(emit);
        self.walker = Walker::new();
        assert(self@.cutter =~= zip_initial().cutter);
        Ok(())
    }
}

/// The error of a stream the profile already rejected.
pub open spec fn stream_rejected_error() -> ChunkError {
    ChunkError::ProfileStreamRejected { profile: ZIP_PROFILE }
}

/// Window independence: feeding `a` then `b` is feeding `a + b` —
/// the same model, the same chunks, the same first fault.
pub proof fn lemma_zip_feed_split(m: ZipModel, a: Seq<u8>, b: Seq<u8>)
    ensures
        zip_feed(m, a + b) == feed_then(zip_step(), m, a, b),
{
    lemma_feed_split(zip_step(), m, a, b);
}

/// One byte loses nothing: the chunks it completes followed by the
/// new open chunk are the old open chunk followed by the byte.
proof fn lemma_zip_byte_conserves(m: ZipModel, byte: u8)
    requires
        zip_model_wf(m),
        m.walker.offset < u64::MAX,
    ensures
        zip_byte(m, byte) matches Ok((m2, chunks)) ==> {
            &&& chunks.flatten() + m2.cutter.buffer == m.cutter.buffer.push(byte)
            &&& zip_model_wf(m2)
            &&& m2.walker.offset == m.walker.offset + 1
            &&& chunks_bounded(chunks)
        },
{
    reveal(zip_byte);
    lemma_consume_wf(m.walker, byte);
    let (a1, k1) = if at_member_boundary_spec(m.walker) { asm_boundary(m.cutter) } else { (m.cutter, Seq::empty()) };
    lemma_boundary_conserves(m.cutter);
    assert(k1.flatten() + a1.buffer == m.cutter.buffer);
    lemma_push_conserves(a1, byte);
    let (a2, k2) = asm_push(a1, byte);
    match consume_spec(m.walker, byte) {
        Err(_) => {},
        Ok((w2, step)) => {
            let h: nat = match step.large {
                Some(h) => h as nat,
                None => 0,
            };
            lemma_large_conserves(a2, h);
            let (a3, k3) = match step.large {
                Some(h) => asm_large(a2, h as nat),
                None => (a2, Seq::empty()),
            };
            assert(k3.flatten() + a3.buffer == a2.buffer);
            vstd::seq_lib::lemma_flatten_concat(k1, k2);
            vstd::seq_lib::lemma_flatten_concat(k1 + k2, k3);
            assert((k1 + k2 + k3).flatten() + a3.buffer =~= k1.flatten() + (k2.flatten() + a2.buffer));
            assert(k1.flatten() + (a1.buffer.push(byte)) =~= (k1.flatten() + a1.buffer).push(byte));
            assert forall|i: int| 0 <= i < (k1 + k2 + k3).len() implies
                0 < #[trigger] (k1 + k2 + k3)[i].len() <= GENERIC_CDC_CHUNK_MAX_BYTES by {
                if i < k1.len() {
                    assert((k1 + k2 + k3)[i] == k1[i]);
                } else if i < k1.len() + k2.len() {
                    assert((k1 + k2 + k3)[i] == k2[i - k1.len()]);
                } else {
                    assert((k1 + k2 + k3)[i] == k3[i - k1.len() - k2.len()]);
                }
            }
        },
    }
}

/// Conservation: the chunks a window completes, followed by the open
/// chunk after it, are the open chunk before it followed by the
/// window; every completed chunk is non-empty and within the
/// envelope maximum.
pub proof fn lemma_zip_feed_conserves(m: ZipModel, bytes: Seq<u8>)
    requires
        zip_model_wf(m),
        m.walker.offset + bytes.len() <= u64::MAX,
    ensures
        zip_feed(m, bytes) matches Ok((m2, chunks)) ==> {
            &&& chunks.flatten() + m2.cutter.buffer == m.cutter.buffer + bytes
            &&& zip_model_wf(m2)
            &&& m2.walker.offset == m.walker.offset + bytes.len()
            &&& chunks_bounded(chunks)
        },
{
    let inv = |m: ZipModel| zip_model_wf(m);
    let open_chunk = |m: ZipModel| m.cutter.buffer;
    let room = |m: ZipModel| u64::MAX - m.walker.offset;
    assert forall|m: ZipModel, byte: u8| inv(m) && room(m) >= 1 implies (#[trigger] zip_step()(m, byte) matches Ok((m2, chunks)) ==> {
        &&& inv(m2)
        &&& room(m2) == room(m) - 1
        &&& chunks.flatten() + open_chunk(m2) == open_chunk(m).push(byte)
        &&& chunks_bounded(chunks)
    }) by {
        lemma_zip_byte_conserves(m, byte);
    }
    lemma_feed_conserves(zip_step(), inv, open_chunk, room, m, bytes);
}

/// A whole stream: the chunks of an accepted, complete archive —
/// those its bytes completed and the trailing one `finish` flushes —
/// concatenate to the archive.
pub proof fn lemma_zip_stream_concatenates(bytes: Seq<u8>)
    requires
        bytes.len() <= u64::MAX,
    ensures
        zip_feed(zip_initial(), bytes) matches Ok((m, chunks)) ==> {
            &&& (chunks + asm_finish(m.cutter).1).flatten() == bytes
            &&& chunks_bounded(chunks + asm_finish(m.cutter).1)
        },
{
    lemma_zip_feed_conserves(zip_initial(), bytes);
    match zip_feed(zip_initial(), bytes) {
        Err(_) => {},
        Ok((m, chunks)) => {
            lemma_finish_conserves(m.cutter);
            let tail = asm_finish(m.cutter).1;
            vstd::seq_lib::lemma_flatten_concat(chunks, tail);
            assert(Seq::<u8>::empty() + bytes =~= bytes);
            assert(chunks.flatten() + tail.flatten() =~= chunks.flatten() + m.cutter.buffer);
            assert forall|i: int| 0 <= i < (chunks + tail).len() implies
                0 < #[trigger] (chunks + tail)[i].len() <= GENERIC_CDC_CHUNK_MAX_BYTES by {
                if i >= chunks.len() {
                    assert((chunks + tail)[i] == tail[i - chunks.len()]);
                }
            }
        },
    }
}

impl Chunker for ZipChunker {
    closed spec fn inv(&self) -> bool {
        self.wf()
    }

    closed spec fn consumed(&self) -> nat {
        if self@.rejected { 0 } else { self@.walker.offset as nat }
    }

    fn push(&mut self, window: &[u8], emit: &mut Vec<Vec<u8>>) -> (result: Result<(), ChunkError>)
        ensures
            final(self).wf(),
            old(self)@.rejected ==> result == Err::<(), ChunkError>(stream_rejected_error()) && final(self)@ == old(self)@
                && final(emit)@ == old(emit)@,
            !old(self)@.rejected ==> match zip_feed(old(self)@, window@) {
                Ok((m, chunks)) => result is Ok && final(self)@ == m
                    && chunk_view(final(emit)@) == chunk_view(old(emit)@) + chunks,
                Err((fault, offset)) => final(self)@.rejected && result == Err::<(), ChunkError>(
                    ChunkError::MalformedProfileInput { profile: ZIP_PROFILE, offset, detail: zip_fault_detail(fault) })
                    && chunk_view(final(emit)@) == chunk_view(old(emit)@) + feed_emitted(zip_step(), zip_partial(), old(self)@, window@),
            },
    {
        ZipChunker::push(self, window, emit)
    }

    fn finish(&mut self, emit: &mut Vec<Vec<u8>>) -> (result: Result<(), ChunkError>)
        ensures
            final(self).wf(),
            old(self)@.rejected ==> result == Err::<(), ChunkError>(stream_rejected_error()) && final(self)@ == old(self)@
                && final(emit)@ == old(emit)@,
            !old(self)@.rejected && walk_complete(old(self)@.walker) ==> result is Ok
                && final(self)@ == zip_initial()
                && chunk_view(final(emit)@) == chunk_view(old(emit)@) + asm_finish(old(self)@.cutter).1,
            !old(self)@.rejected && !walk_complete(old(self)@.walker) ==> final(self)@.rejected
                && final(emit)@ == old(emit)@ && result == Err::<(), ChunkError>(ChunkError::MalformedProfileInput {
                    profile: ZIP_PROFILE,
                    offset: old(self)@.walker.offset,
                    detail: zip_fault_detail(ZipFault::Truncated),
                }),
    {
        ZipChunker::finish(self, emit)
    }
}

} // verus!
