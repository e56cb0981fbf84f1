//! [`OoxmlBerChunker`] — the `ooxml-ber-v1` streaming boundary
//! detector: part-aware cuts over the original package bytes.

use vstd::prelude::*;

use super::check::{check_close, check_initial, check_member, CheckModel, PackageCheck};
use super::fault::{office_error, stream_rejected, OfficeFault, OOXML_BER_PROFILE};
use super::kind::OfficeKind;
use crate::assembler::{
    asm_boundary, asm_finish, asm_large, asm_push, chunk_view, chunks_bounded, lemma_boundary_conserves,
    lemma_finish_conserves, lemma_large_conserves, lemma_push_conserves, AsmModel, BoundaryAssembler,
};
use crate::chunker::{
    feed, feed_emitted, feed_then, lemma_feed_conserves, lemma_feed_emitted_fault, lemma_feed_extend, lemma_feed_prefix_err, lemma_feed_split, Chunker,
    StepFn,
};
use crate::constants::{DOCUMENT_UNIT_CHUNK_MIN_BYTES, GENERIC_CDC_CHUNK_MAX_BYTES};
use crate::gear::{gear_table, OOXML_BER_GEAR_SEED};
use crate::zip::fault::ZipFault;
use crate::zip::walker::{
    at_member_boundary_spec, consume_spec, initial_walker, lemma_consume_name, lemma_consume_wf, walk_complete,
    walker_wf, Walker, WalkerModel,
};

verus! {

broadcast use {vstd::seq_lib::group_seq_properties, Seq::group_seq_flatten};

/// The `ooxml-ber-v1` chunker as a mathematical value.
pub struct BerModel {
    /// The ZIP structure walker.
    pub walker: WalkerModel,
    /// The chunk assembler.
    pub cutter: AsmModel,
    /// The package validation.
    pub check: CheckModel,
    /// The stream was rejected.
    pub rejected: bool,
}

/// One byte: a member boundary before it closes the open chunk from
/// the document unit minimum; the byte is walked, a completed local
/// header's name is checked against the package rules, and the byte
/// is assembled; a large member's completed header realigns to begin
/// a chunk. On a fault, the fault and the offending byte's
/// offset.
#[verifier::opaque]
pub open spec fn ber_byte(m: BerModel, byte: u8) -> Result<(BerModel, Seq<Seq<u8>>), (OfficeFault, u64)> {
    let (a1, c1) = if at_member_boundary_spec(m.walker) { asm_boundary(m.cutter) } else { (m.cutter, Seq::empty()) };
    let offset = m.walker.offset;
    match consume_spec(m.walker, byte) {
        Err(fault) => Err((OfficeFault::Zip(fault), offset)),
        Ok((w2, step)) => {
            let checked = match step.name_len {
                Some(n) => check_member(m.check, w2.variable.subrange(0, n as int)),
                None => Ok(m.check),
            };
            match checked {
                Err(fault) => Err((fault, offset)),
                Ok(check) => {
                    let (a2, c2) = asm_push(a1, byte);
                    let (a3, c3) = match step.large {
                        Some(header_len) => asm_large(a2, header_len as nat),
                        None => (a2, Seq::empty()),
                    };
                    Ok((BerModel { walker: w2, cutter: a3, check, rejected: false }, c1 + c2 + c3))
                },
            }
        },
    }
}

/// The chunks a byte emits before it is rejected: the open chunk a
/// member boundary before it closes.
pub open spec fn ber_partial() -> spec_fn(BerModel, u8) -> Seq<Seq<u8>> {
    |m: BerModel, byte: u8| if at_member_boundary_spec(m.walker) { asm_boundary(m.cutter).1 } else { Seq::empty() }
}

/// The `ooxml-ber-v1` step function.
pub open spec fn ber_step() -> StepFn<BerModel, (OfficeFault, u64)> {
    |m: BerModel, byte: u8| ber_byte(m, byte)
}

/// The chunker after `bytes`, with the chunks they completed, or the
/// first fault.
pub open spec fn ber_feed(m: BerModel, bytes: Seq<u8>) -> Result<(BerModel, Seq<Seq<u8>>), (OfficeFault, u64)> {
    feed(ber_step(), m, bytes)
}

/// The model of a fresh chunker requiring `expected`, if given.
pub open spec fn ber_initial(expected: Option<OfficeKind>) -> BerModel {
    BerModel {
        walker: initial_walker(),
        cutter: AsmModel {
            table: gear_table(OOXML_BER_GEAR_SEED),
            unit_min: DOCUMENT_UNIT_CHUNK_MIN_BYTES as nat,
            buffer: Seq::empty(),
        },
        check: check_initial(expected),
        rejected: false,
    }
}

/// The model's invariant: a bounded walker, at most one member per
/// consumed byte, and an open chunk below the maximum.
pub open spec fn ber_model_wf(m: BerModel) -> bool {
    &&& walker_wf(m.walker)
    &&& m.check.members_seen <= m.walker.offset
    &&& m.cutter.buffer.len() < GENERIC_CDC_CHUNK_MAX_BYTES
}

/// The error of a stream the profile already rejected.
pub open spec fn ber_rejected_error() -> crate::error::ChunkError {
    crate::error::ChunkError::ProfileStreamRejected { profile: OOXML_BER_PROFILE }
}

/// Streaming `ooxml-ber-v1` chunker.
///
/// Byte-exact-reversible: chunks concatenate to the input. The
/// structural walk is the ZIP walker's; on top of it the profile
/// validates that the container is an Office Open XML package
/// (`[Content_Types].xml` first, a Word/Excel/PowerPoint main part
/// present) and aligns chunks to parts at the document unit
/// minimum, so an edited slide or sheet invalidates only its own
/// chunk while every untouched part reproduces identical chunks.
/// Digital signatures survive: nothing is re-encoded.
pub struct OoxmlBerChunker {
    walker: Walker,
    assembler: BoundaryAssembler,
    check: PackageCheck,
    rejected: bool,
}

impl View for OoxmlBerChunker {
    type V = BerModel;

    closed spec fn view(&self) -> BerModel {
        BerModel { walker: self.walker@, cutter: self.assembler@, check: self.check@, rejected: self.rejected }
    }
}

impl OoxmlBerChunker {
    /// The chunker's invariant.
    pub closed spec fn wf(&self) -> bool {
        &&& self.rejected || (walker_wf(self.walker@) && self.check@.members_seen <= self.walker@.offset)
        &&& self.check.wf()
        &&& self.assembler.wf()
        &&& self.assembler@.table == gear_table(OOXML_BER_GEAR_SEED)
        &&& self.assembler@.unit_min == DOCUMENT_UNIT_CHUNK_MIN_BYTES
    }

    /// Start a chunker accepting any Office package kind.
    pub fn new() -> (chunker: Self)
        ensures
            chunker.wf(),
            chunker@ == ber_initial(None),
    {
        Self::expecting(None)
    }

    /// Start a chunker that requires the package to be of `kind`.
    pub fn expecting(kind: Option<OfficeKind>) -> (chunker: Self)
        ensures
            chunker.wf(),
            chunker@ == ber_initial(kind),
    {
        OoxmlBerChunker {
            walker: Walker::new(),
            assembler: BoundaryAssembler::with_unit_min(OOXML_BER_GEAR_SEED, DOCUMENT_UNIT_CHUNK_MIN_BYTES),
            check: PackageCheck::new(kind),
            rejected: false,
        }
    }

    fn reject(&mut self, fault: OfficeFault, at: u64) -> (error: crate::error::ChunkError)
        requires
            old(self).check.wf(),
            old(self).assembler.wf(),
            old(self).assembler@.table == gear_table(OOXML_BER_GEAR_SEED),
            old(self).assembler@.unit_min == DOCUMENT_UNIT_CHUNK_MIN_BYTES,
        ensures
            final(self).wf(),
            final(self)@.rejected,
            final(self)@.walker == old(self)@.walker,
            error == office_error(fault, OOXML_BER_PROFILE, at),
    {
        self.rejected = true;
        self.assembler.clear();
        fault.into_error(OOXML_BER_PROFILE, at)
    }

    /// One byte of a live stream.
    fn feed_byte(&mut self, byte: u8, emit: &mut Vec<Vec<u8>>) -> (result: Result<(), crate::error::ChunkError>)
        requires
            old(self).wf(),
            !old(self)@.rejected,
            old(self)@.walker.offset < u64::MAX,
        ensures
            final(self).wf(),
            result is Ok ==> !final(self)@.rejected && final(self)@.walker.offset == old(self)@.walker.offset + 1,
            match ber_byte(old(self)@, byte) {
                Ok((m, chunks)) => result is Ok && final(self)@ == m
                    && chunk_view(final(emit)@) == chunk_view(old(emit)@) + chunks,
                Err((fault, offset)) => final(self)@.rejected
                    && result == Err::<(), crate::error::ChunkError>(office_error(fault, OOXML_BER_PROFILE, offset))
                    && chunk_view(final(emit)@) == chunk_view(old(emit)@) + ber_partial()(old(self)@, byte),
            },
    {
        let ghost start_emit = chunk_view(emit@);
        proof {
            reveal(ber_byte);
            lemma_consume_name(old(self)@.walker, byte);
        }
        if self.walker.at_member_boundary() {
            self.assembler.boundary(emit);
        }
        let at = self.walker.offset();
        let step = match self.walker.consume(byte) {
            Err(fault) => {
                return Err(self.reject(OfficeFault::Zip(fault), at));
            },
            Ok(step) => step,
        };
        proof {
            lemma_consume_wf(old(self)@.walker, byte);
        }
        match step.name_len {
            Some(n) => {
                let name = self.walker.variable_prefix(n);
                match self.check.member(name.as_slice()) {
                    Err(fault) => {
                        return Err(self.reject(fault, at));
                    },
                    Ok(()) => {},
                }
            },
            None => {},
        }
        self.assembler.push(byte, emit);
        match step.large {
            Some(header_len) => self.assembler.large_unit_starts(header_len, emit),
            None => {},
        }
        assert(chunk_view(emit@) =~= start_emit + ber_byte(old(self)@, byte)->Ok_0.1);
        Ok(())
    }

    /// Feed one window.
    pub fn push(&mut self, window: &[u8], emit: &mut Vec<Vec<u8>>) -> (result: Result<(), crate::error::ChunkError>)
        requires
            old(self).wf(),
            !old(self)@.rejected ==> old(self)@.walker.offset + window@.len() <= u64::MAX,
        ensures
            final(self).wf(),
            old(self)@.rejected ==> result == Err::<(), crate::error::ChunkError>(ber_rejected_error())
                && final(self)@ == old(self)@ && final(emit)@ == old(emit)@,
            !old(self)@.rejected ==> match ber_feed(old(self)@, window@) {
                Ok((m, chunks)) => result is Ok && final(self)@ == m
                    && chunk_view(final(emit)@) == chunk_view(old(emit)@) + chunks,
                Err((fault, offset)) => final(self)@.rejected
                    && result == Err::<(), crate::error::ChunkError>(office_error(fault, OOXML_BER_PROFILE, offset))
                    && chunk_view(final(emit)@) == chunk_view(old(emit)@) + feed_emitted(ber_step(), ber_partial(), old(self)@, window@),
            },
    {
        if self.rejected {
            return Err(stream_rejected(OOXML_BER_PROFILE));
        }
        let ghost start = self@;
        let ghost emitted = chunk_view(emit@);
        let mut i: usize = 0;
        while i < window.len()
            invariant
                i <= window@.len(),
                start == old(self)@,
                !start.rejected,
                emitted == chunk_view(old(emit)@),
                self.wf(),
                !self@.rejected,
                start.walker.offset + window@.len() <= u64::MAX,
                self@.walker.offset == start.walker.offset + i,
                ber_feed(start, window@.subrange(0, i as int)) matches Ok((m, chunks))
                    && m == self@ && chunk_view(emit@) == emitted + chunks,
            decreases window@.len() - i,
        {
            let byte = window[i];
            proof {
                lemma_feed_extend(ber_step(), start, window@, i as int);
            }
            match self.feed_byte(byte, emit) {
                Err(error) => {
                    proof {
                        lemma_feed_prefix_err(ber_step(), start, window@, (i + 1) as nat);
                        lemma_feed_emitted_fault(ber_step(), ber_partial(), start, window@, i as int, window@.len() as int);
                        assert(window@.subrange(0, window@.len() as int) =~= window@);
                        let c1 = ber_feed(start, window@.subrange(0, i as int))->Ok_0.1;
                        let p = ber_partial()(ber_feed(start, window@.subrange(0, i as int))->Ok_0.0, byte);
                        assert(emitted + c1 + p =~= emitted + (c1 + p));
                    }
                    return Err(error);
                },
                Ok(()) => {},
            }
            proof {
                let chunks = ber_feed(start, window@.subrange(0, i as int))->Ok_0.1;
                let more = ber_byte(ber_feed(start, window@.subrange(0, i as int))->Ok_0.0, byte)->Ok_0.1;
                assert(chunk_view(emit@) =~= emitted + (chunks + more));
            }
            i = i + 1;
        }
        assert(window@.subrange(0, i as int) =~= window@);
        Ok(())
    }

    /// End the stream: the archive must be complete and the package
    /// claims must hold; flush the trailing chunk and reset to a fresh
    /// chunker that expects the same kind.
    pub fn finish(&mut self, emit: &mut Vec<Vec<u8>>) -> (result: Result<(), crate::error::ChunkError>)
        requires
            old(self).wf(),
        ensures
            final(self).wf(),
            old(self)@.rejected ==> result == Err::<(), crate::error::ChunkError>(ber_rejected_error())
                && final(self)@ == old(self)@ && final(emit)@ == old(emit)@,
            !old(self)@.rejected && !walk_complete(old(self)@.walker) ==> final(self)@.rejected
                && final(emit)@ == old(emit)@ && result == Err::<(), crate::error::ChunkError>(
                    office_error(OfficeFault::Zip(ZipFault::Truncated), OOXML_BER_PROFILE, old(self)@.walker.offset)),
            !old(self)@.rejected && walk_complete(old(self)@.walker) ==> match check_close(old(self)@.check) {
                Err(fault) => final(self)@.rejected && final(emit)@ == old(emit)@
                    && result == Err::<(), crate::error::ChunkError>(
                    office_error(fault, OOXML_BER_PROFILE, old(self)@.walker.offset)),
                Ok(()) => result is Ok && final(self)@ == ber_initial(old(self)@.check.expected)
                    && chunk_view(final(emit)@) == chunk_view(old(emit)@) + asm_finish(old(self)@.cutter).1,
            },
    {
        if self.rejected {
            return Err(stream_rejected(OOXML_BER_PROFILE));
        }
        let at = self.walker.offset();
        match self.walker.finish() {
            Err(fault) => {
                return Err(self.reject(OfficeFault::Zip(fault), at));
            },
            Ok(()) => {},
        }
        match self.check.close() {
            Err(fault) => {
                return Err(self.reject(fault, at));
            },
            Ok(()) => {},
        }
        let expected = self.check.expected();
        self.assembler.finish(emit);
        *self = Self::expecting(expected);
        Ok(())
    }
}

/// One byte loses nothing: the chunks it completes followed by the
/// new open chunk are the old open chunk followed by the byte.
proof fn lemma_ber_byte_conserves(m: BerModel, byte: u8)
    requires
        ber_model_wf(m),
        m.walker.offset < u64::MAX,
    ensures
        ber_byte(m, byte) matches Ok((m2, chunks)) ==> {
            &&& chunks.flatten() + m2.cutter.buffer == m.cutter.buffer.push(byte)
            &&& ber_model_wf(m2)
            &&& m2.walker.offset == m.walker.offset + 1
            &&& chunks_bounded(chunks)
        },
{
    reveal(ber_byte);
    lemma_consume_wf(m.walker, byte);
    let (a1, k1) = if at_member_boundary_spec(m.walker) { asm_boundary(m.cutter) } else { (m.cutter, Seq::empty()) };
    lemma_boundary_conserves(m.cutter);
    assert(k1.flatten() + a1.buffer == m.cutter.buffer);
    lemma_push_conserves(a1, byte);
    let (a2, k2) = asm_push(a1, byte);
    match consume_spec(m.walker, byte) {
        Err(_) => {},
        Ok((w2, step)) => {
            let h: nat = match step.large {
                Some(h) => h as nat,
                None => 0,
            };
            lemma_large_conserves(a2, h);
            let (a3, k3) = match step.large {
                Some(h) => asm_large(a2, h as nat),
                None => (a2, Seq::empty()),
            };
            assert(k3.flatten() + a3.buffer == a2.buffer);
            vstd::seq_lib::lemma_flatten_concat(k1, k2);
            vstd::seq_lib::lemma_flatten_concat(k1 + k2, k3);
            assert((k1 + k2 + k3).flatten() + a3.buffer =~= k1.flatten() + (k2.flatten() + a2.buffer));
            assert(k1.flatten() + (a1.buffer.push(byte)) =~= (k1.flatten() + a1.buffer).push(byte));
            assert forall|i: int| 0 <= i < (k1 + k2 + k3).len() implies
                0 < #[trigger] (k1 + k2 + k3)[i].len() <= GENERIC_CDC_CHUNK_MAX_BYTES by {
                if i < k1.len() {
                    assert((k1 + k2 + k3)[i] == k1[i]);
                } else if i < k1.len() + k2.len() {
                    assert((k1 + k2 + k3)[i] == k2[i - k1.len()]);
                } else {
                    assert((k1 + k2 + k3)[i] == k3[i - k1.len() - k2.len()]);
                }
            }
        },
    }
}

/// Window independence: feeding `a` then `b` is feeding `a + b` —
/// the same model, the same chunks, the same first fault.
pub proof fn lemma_ber_feed_split(m: BerModel, a: Seq<u8>, b: Seq<u8>)
    ensures
        ber_feed(m, a + b) == feed_then(ber_step(), m, a, b),
{
    lemma_feed_split(ber_step(), m, a, b);
}

/// Conservation: the chunks a window completes, followed by the open
/// chunk after it, are the open chunk before it followed by the
/// window — the original package bytes, never re-encoded; every
/// completed chunk is non-empty and within the envelope maximum.
pub proof fn lemma_ber_feed_conserves(m: BerModel, bytes: Seq<u8>)
    requires
        ber_model_wf(m),
        m.walker.offset + bytes.len() <= u64::MAX,
    ensures
        ber_feed(m, bytes) matches Ok((m2, chunks)) ==> {
            &&& chunks.flatten() + m2.cutter.buffer == m.cutter.buffer + bytes
            &&& ber_model_wf(m2)
            &&& m2.walker.offset == m.walker.offset + bytes.len()
            &&& chunks_bounded(chunks)
        },
{
    let inv = |m: BerModel| ber_model_wf(m);
    let open_chunk = |m: BerModel| m.cutter.buffer;
    let room = |m: BerModel| u64::MAX - m.walker.offset;
    assert forall|m: BerModel, byte: u8| inv(m) && room(m) >= 1 implies (#[trigger] ber_step()(m, byte) matches Ok((m2, chunks)) ==> {
        &&& inv(m2)
        &&& room(m2) == room(m) - 1
        &&& chunks.flatten() + open_chunk(m2) == open_chunk(m).push(byte)
        &&& chunks_bounded(chunks)
    }) by {
        lemma_ber_byte_conserves(m, byte);
    }
    lemma_feed_conserves(ber_step(), inv, open_chunk, room, m, bytes);
}

/// A whole stream: the chunks of an accepted package — those its
/// bytes completed and the trailing one `finish` flushes —
/// concatenate to the package bytes.
pub proof fn lemma_ber_stream_concatenates(expected: Option<OfficeKind>, bytes: Seq<u8>)
    requires
        bytes.len() <= u64::MAX,
    ensures
        ber_feed(ber_initial(expected), bytes) matches Ok((m, chunks)) ==> {
            &&& (chunks + asm_finish(m.cutter).1).flatten() == bytes
            &&& chunks_bounded(chunks + asm_finish(m.cutter).1)
        },
{
    lemma_ber_feed_conserves(ber_initial(expected), bytes);
    match ber_feed(ber_initial(expected), bytes) {
        Err(_) => {},
        Ok((m, chunks)) => {
            lemma_finish_conserves(m.cutter);
            let tail = asm_finish(m.cutter).1;
            vstd::seq_lib::lemma_flatten_concat(chunks, tail);
            assert(Seq::<u8>::empty() + bytes =~= bytes);
            assert(chunks.flatten() + tail.flatten() =~= chunks.flatten() + m.cutter.buffer);
            assert forall|i: int| 0 <= i < (chunks + tail).len() implies
                0 < #[trigger] (chunks + tail)[i].len() <= GENERIC_CDC_CHUNK_MAX_BYTES by {
                if i >= chunks.len() {
                    assert((chunks + tail)[i] == tail[i - chunks.len()]);
                }
            }
        },
    }
}

impl Chunker for OoxmlBerChunker {
    closed spec fn inv(&self) -> bool {
        self.wf()
    }

    closed spec fn consumed(&self) -> nat {
        if self@.rejected { 0 } else { self@.walker.offset as nat }
    }

    fn push(&mut self, window: &[u8], emit: &mut Vec<Vec<u8>>) -> (result: Result<(), crate::error::ChunkError>)
        ensures
            final(self).wf(),
            old(self)@.rejected ==> result == Err::<(), crate::error::ChunkError>(ber_rejected_error())
                && final(self)@ == old(self)@ && final(emit)@ == old(emit)@,
            !old(self)@.rejected ==> match ber_feed(old(self)@, window@) {
                Ok((m, chunks)) => result is Ok && final(self)@ == m
                    && chunk_view(final(emit)@) == chunk_view(old(emit)@) + chunks,
                Err((fault, offset)) => final(self)@.rejected
                    && result == Err::<(), crate::error::ChunkError>(office_error(fault, OOXML_BER_PROFILE, offset))
                    && chunk_view(final(emit)@) == chunk_view(old(emit)@) + feed_emitted(ber_step(), ber_partial(), old(self)@, window@),
            },
    {
        OoxmlBerChunker::push(self, window, emit)
    }

    fn finish(&mut self, emit: &mut Vec<Vec<u8>>) -> (result: Result<(), crate::error::ChunkError>)
        ensures
            final(self).wf(),
            old(self)@.rejected ==> result == Err::<(), crate::error::ChunkError>(ber_rejected_error())
                && final(self)@ == old(self)@ && final(emit)@ == old(emit)@,
            !old(self)@.rejected && !walk_complete(old(self)@.walker) ==> final(self)@.rejected
                && final(emit)@ == old(emit)@ && result == Err::<(), crate::error::ChunkError>(
                    office_error(OfficeFault::Zip(ZipFault::Truncated), OOXML_BER_PROFILE, old(self)@.walker.offset)),
            !old(self)@.rejected && walk_complete(old(self)@.walker) ==> match check_close(old(self)@.check) {
                Err(fault) => final(self)@.rejected && final(emit)@ == old(emit)@
                    && result == Err::<(), crate::error::ChunkError>(
                    office_error(fault, OOXML_BER_PROFILE, old(self)@.walker.offset)),
                Ok(()) => result is Ok && final(self)@ == ber_initial(old(self)@.check.expected)
                    && chunk_view(final(emit)@) == chunk_view(old(emit)@) + asm_finish(old(self)@.cutter).1,
            },
    {
        OoxmlBerChunker::finish(self, emit)
    }
}

} // verus!
