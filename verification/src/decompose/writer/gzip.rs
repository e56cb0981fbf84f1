//! [`GzipWriter`] — deterministic gzip wrapping at a pinned
//! compression level.

use miniz_oxide::{MZFlush, MZStatus};
use vstd::prelude::*;
use vstd::slice::slice_subrange;

use crate::assembler::chunk_view;
use crate::decompose::writer::zip::{crc32_of, crc_input};
use crate::office::canonical::{le32_bytes, put32};
use crate::inflate::{DrainFlush, MAX_ROUNDS, RAW_WINDOW_BITS};

verus! {

broadcast use vstd::seq_lib::group_seq_properties;

/// The pinned compression level for canonical output.
pub const LEVEL: i32 = 6;

/// Output window per call.
pub const DEFLATE_OUT_BYTES: usize = 16384;

/// miniz_oxide's deflate compressor.
#[verifier::external_type_specification]
#[verifier::external_body]
pub struct ExCompressorOxide(miniz_oxide::deflate::core::CompressorOxide);

/// Why the compressor stopped a write.
#[derive(Debug, Clone, Copy, PartialEq, Eq, Structural)]
pub enum GzipWriteFault {
    /// The compressor returned an error (the pinned parameters cannot
    /// produce one).
    CompressorRejected,
    /// The compressor made no headway within the round bound.
    CompressorStalled,
}

/// The status of one deflate call.
#[derive(Debug, Clone, Copy, PartialEq, Eq, Structural)]
pub enum DeflateStatus {
    /// The deflate stream is complete.
    StreamEnd,
    /// Success, the stream goes on.
    Progress,
    /// The call returned an error.
    Failed,
}

/// One deflate call's outcome, as plain values.
pub struct DeflateRound {
    /// Input bytes the call took.
    pub consumed: usize,
    /// Compressed bytes the call wrote.
    pub written: Vec<u8>,
    /// How the call ended.
    pub status: DeflateStatus,
}

/// One deflate call's outcome, as a mathematical value.
pub struct DeflateOutcome {
    /// Input bytes the call took.
    pub consumed: usize,
    /// Compressed bytes the call wrote.
    pub written: Seq<u8>,
    /// How the call ended.
    pub status: DeflateStatus,
}

/// The flags `create_comp_flags_from_zip_params` gives for a zlib
/// level, window bits and strategy.
pub uninterp spec fn zip_param_flags(level: i32, window_bits: i32, strategy: i32) -> u32;

/// The compressor `CompressorOxide::new` makes for `flags`.
pub uninterp spec fn compressor_with_flags(flags: u32) -> Box<miniz_oxide::deflate::core::CompressorOxide>;

/// What one `deflate` call on `state` with `input`, an output window
/// of `out_len` bytes and `flush` gives: the compressor afterwards and
/// the call's outcome. The call is deterministic in these arguments.
pub uninterp spec fn deflate_call(
    state: Box<miniz_oxide::deflate::core::CompressorOxide>,
    input: Seq<u8>,
    out_len: usize,
    flush: DrainFlush,
) -> (Box<miniz_oxide::deflate::core::CompressorOxide>, DeflateOutcome);

/// `create_comp_flags_from_zip_params`: compressor flags for a zlib
/// level, window bits and strategy, as named.
#[verifier::external_body]
fn comp_flags(level: i32, window_bits: i32, strategy: i32) -> (flags: u32)
    ensures
        flags == zip_param_flags(level, window_bits, strategy),
{
    miniz_oxide::deflate::core::create_comp_flags_from_zip_params(level, window_bits, strategy)
}

/// `CompressorOxide::new`: a compressor with the given flags, boxed,
/// as named.
#[verifier::external_body]
fn new_compressor(flags: u32) -> (c: Box<miniz_oxide::deflate::core::CompressorOxide>)
    ensures
        c == compressor_with_flags(flags),
{
    Box::new(miniz_oxide::deflate::core::CompressorOxide::new(flags))
}

/// `miniz_oxide::deflate::stream::deflate` on `input`, writing into a
/// fresh window of `DEFLATE_OUT_BYTES` bytes: the compressor afterwards
/// and the outcome are the named call's, the call takes no more than
/// `input` and writes no more than the window.
#[verifier::external_body]
fn deflate_round(
    compressor: &mut Box<miniz_oxide::deflate::core::CompressorOxide>,
    input: &[u8],
    flush: DrainFlush,
) -> (round: DeflateRound)
    ensures
        (*final(compressor), DeflateOutcome { consumed: round.consumed, written: round.written@, status: round.status })
            == deflate_call(*old(compressor), input@, DEFLATE_OUT_BYTES, flush),
        round.consumed <= input@.len(),
        round.written@.len() <= DEFLATE_OUT_BYTES,
{
    let mode = match flush {
        DrainFlush::More => MZFlush::None,
        DrainFlush::Finish => MZFlush::Finish,
    };
    let mut out = vec![0u8; DEFLATE_OUT_BYTES];
    let result = miniz_oxide::deflate::stream::deflate(compressor, input, &mut out, mode);
    out.truncate(result.bytes_written);
    let status = match result.status {
        Ok(MZStatus::StreamEnd) => DeflateStatus::StreamEnd,
        Ok(_) => DeflateStatus::Progress,
        Err(_) => DeflateStatus::Failed,
    };
    DeflateRound { consumed: result.bytes_consumed, written: out, status }
}

/// The fault a deflate call's status means, if any.
pub open spec fn deflate_fault(status: DeflateStatus) -> Option<GzipWriteFault> {
    match status {
        DeflateStatus::Failed => Some(GzipWriteFault::CompressorRejected),
        _ => None,
    }
}

/// The fault after one deflate call.
pub fn round_fault(status: DeflateStatus) -> (f: Option<GzipWriteFault>)
    ensures
        f == deflate_fault(status),
{
    match status {
        DeflateStatus::Failed => Some(GzipWriteFault::CompressorRejected),
        _ => None,
    }
}

/// The compressed chunks a call emits: each non-empty output window.
pub open spec fn with_window(out: Seq<Seq<u8>>, written: Seq<u8>) -> Seq<Seq<u8>> {
    if written.len() > 0 {
        out.push(written)
    } else {
        out
    }
}

/// The most deflate calls one push of `len` bytes makes.
pub open spec fn push_bound(len: nat) -> int {
    len / 4096 + MAX_ROUNDS
}

/// Compressing `bytes` from `taken` on, at call `rounds`: the
/// compressor afterwards, the windows emitted (after `out`) and the
/// result.
pub open spec fn push_from(
    c: Box<miniz_oxide::deflate::core::CompressorOxide>,
    bytes: Seq<u8>,
    taken: int,
    out: Seq<Seq<u8>>,
    rounds: int,
) -> (Box<miniz_oxide::deflate::core::CompressorOxide>, Seq<Seq<u8>>, Result<(), GzipWriteFault>)
    decreases push_bound(bytes.len()) - rounds,
{
    if taken >= bytes.len() {
        (c, out, Ok(()))
    } else if rounds >= push_bound(bytes.len()) {
        (c, out, Err(GzipWriteFault::CompressorStalled))
    } else {
        let call = deflate_call(c, bytes.subrange(taken, bytes.len() as int), DEFLATE_OUT_BYTES, DrainFlush::More);
        match deflate_fault(call.1.status) {
            Some(f) => (call.0, out, Err(f)),
            None => push_from(call.0, bytes, taken + call.1.consumed, with_window(out, call.1.written), rounds + 1),
        }
    }
}

/// Flushing the compressor at call `rounds`: the compressor
/// afterwards, the windows emitted (after `out`) and the result.
pub open spec fn finish_from(
    c: Box<miniz_oxide::deflate::core::CompressorOxide>,
    out: Seq<Seq<u8>>,
    rounds: int,
) -> (Box<miniz_oxide::deflate::core::CompressorOxide>, Seq<Seq<u8>>, Result<(), GzipWriteFault>)
    decreases MAX_ROUNDS - rounds,
{
    if rounds >= MAX_ROUNDS {
        (c, out, Err(GzipWriteFault::CompressorStalled))
    } else {
        let call = deflate_call(c, Seq::empty(), DEFLATE_OUT_BYTES, DrainFlush::Finish);
        match deflate_fault(call.1.status) {
            Some(f) => (call.0, out, Err(f)),
            None => if call.1.status == DeflateStatus::StreamEnd {
                (call.0, with_window(out, call.1.written), Ok(()))
            } else {
                finish_from(call.0, with_window(out, call.1.written), rounds + 1)
            },
        }
    }
}

/// The fixed member header: magic, CM=deflate, no flags, zero MTIME,
/// no XFL, OS=unknown (0xFF).
pub open spec fn gzip_header_spec() -> Seq<u8> {
    seq![0x1Fu8, 0x8Bu8, 0x08u8, 0x00u8, 0x00u8, 0x00u8, 0x00u8, 0x00u8, 0x00u8, 0xFFu8]
}

/// The header chunk a call emits first: none once it was written.
pub open spec fn header_chunks(header_written: bool) -> Seq<Seq<u8>> {
    if header_written {
        Seq::empty()
    } else {
        seq![gzip_header_spec()]
    }
}

/// The trailer: the CRC-32 and the length modulo 2^32 of the input,
/// little-endian, as two chunks.
pub open spec fn trailer_chunks(input: Seq<u8>) -> Seq<Seq<u8>> {
    seq![le32_bytes(crc32_of(input)), le32_bytes((input.len() % 0x1_0000_0000) as u32)]
}

/// The writer, as a mathematical value.
pub struct GzipWriterModel {
    /// The compressor.
    pub compressor: Box<miniz_oxide::deflate::core::CompressorOxide>,
    /// Whether the header was emitted.
    pub header_written: bool,
    /// Every byte pushed so far, in order.
    pub input: Seq<u8>,
}

/// A fresh writer: a raw-deflate compressor at the pinned level.
pub open spec fn gzip_writer_initial() -> GzipWriterModel {
    GzipWriterModel {
        compressor: compressor_with_flags(zip_param_flags(LEVEL, RAW_WINDOW_BITS, 0)),
        header_written: false,
        input: Seq::empty(),
    }
}

/// Streaming deterministic gzip writer: fixed header (no name, no
/// timestamp), pinned-level deflate, CRC32 + ISIZE trailer.
pub struct GzipWriter {
    compressor: Box<miniz_oxide::deflate::core::CompressorOxide>,
    crc: crc32fast::Hasher,
    isize_acc: u64,
    header_written: bool,
}

impl View for GzipWriter {
    type V = GzipWriterModel;

    closed spec fn view(&self) -> GzipWriterModel {
        GzipWriterModel { compressor: self.compressor, header_written: self.header_written, input: crc_input(self.crc) }
    }
}

impl Default for GzipWriter {
    fn default() -> (writer: Self)
        ensures
            writer.wf(),
            writer@ == gzip_writer_initial(),
    {
        Self::new()
    }
}

impl GzipWriter {
    /// The internal invariant: the ISIZE counter is the count of bytes
    /// the hasher took in.
    pub closed spec fn wf(&self) -> bool {
        self.isize_acc == crc_input(self.crc).len()
    }

    /// A fresh writer.
    pub fn new() -> (writer: Self)
        ensures
            writer.wf(),
            writer@ == gzip_writer_initial(),
    {
        let flags = comp_flags(LEVEL, RAW_WINDOW_BITS, 0);
        GzipWriter {
            compressor: new_compressor(flags),
            crc: crc32fast::Hasher::new(),
            isize_acc: 0,
            header_written: false,
        }
    }

    /// Emit the header once.
    fn header(&mut self, emit: &mut Vec<Vec<u8>>)
        ensures
            final(self).header_written,
            final(self).crc == old(self).crc,
            final(self).isize_acc == old(self).isize_acc,
            final(self).compressor == old(self).compressor,
            chunk_view(final(emit)@) == chunk_view(old(emit)@) + header_chunks(old(self).header_written),
    {
        if !self.header_written {
            let header: Vec<u8> = vec![0x1Fu8, 0x8Bu8, 0x08u8, 0x00u8, 0x00u8, 0x00u8, 0x00u8, 0x00u8, 0x00u8, 0xFFu8];
            let ghost bytes = header@;
            assert(bytes =~= gzip_header_spec());
            emit.push(header);
            self.header_written = true;
            assert(chunk_view(emit@) =~= chunk_view(old(emit)@) + header_chunks(false));
        } else {
            assert(chunk_view(emit@) =~= chunk_view(old(emit)@) + header_chunks(true));
        }
    }

    /// Emit one output window when it is non-empty.
    fn emit_window(written: Vec<u8>, emit: &mut Vec<Vec<u8>>)
        ensures
            chunk_view(final(emit)@) == with_window(chunk_view(old(emit)@), written@),
    {
        if written.len() > 0 {
            let ghost w = written@;
            emit.push(written);
            assert(chunk_view(emit@) =~= chunk_view(old(emit)@).push(w));
        }
    }

    /// Compress one window: the header first if it is not out yet,
    /// then the compressed windows the compressor hands back.
    pub fn push(&mut self, bytes: &[u8], emit: &mut Vec<Vec<u8>>) -> (r: Result<(), GzipWriteFault>)
        requires
            old(self).wf(),
            old(self)@.input.len() + bytes@.len() <= u64::MAX,
        ensures
            final(self).wf(),
            ({
                let run = push_from(old(self)@.compressor, bytes@, 0, Seq::empty(), 0);
                &&& final(self)@ == (GzipWriterModel {
                    compressor: run.0,
                    header_written: true,
                    input: old(self)@.input + bytes@,
                })
                &&& chunk_view(final(emit)@) == chunk_view(old(emit)@) + header_chunks(old(self)@.header_written)
                    + run.1
                &&& r == run.2
            }),
    {
        self.header(emit);
        let ghost start = chunk_view(emit@);
        let ghost target = push_from(self.compressor, bytes@, 0, Seq::empty(), 0);
        self.crc.update(bytes);
        self.isize_acc = self.isize_acc + bytes.len() as u64;
        let bound: u64 = (bytes.len() / 4096) as u64 + MAX_ROUNDS;
        let mut taken: usize = 0;
        let mut rounds: u64 = 0;
        let ghost mut out: Seq<Seq<u8>> = Seq::empty();
        assert(start + out =~= start);
        while taken < bytes.len()
            invariant
                taken <= bytes@.len(),
                rounds <= bound,
                bound == push_bound(bytes@.len()),
                self.wf(),
                self.header_written,
                crc_input(self.crc) == old(self)@.input + bytes@,
                chunk_view(emit@) == start + out,
                push_from(self.compressor, bytes@, taken as int, out, rounds as int) == target,
                target == push_from(old(self)@.compressor, bytes@, 0, Seq::empty(), 0),
                start == chunk_view(old(emit)@) + header_chunks(old(self)@.header_written),
            decreases bound - rounds,
        {
            if rounds >= bound {
                return Err(GzipWriteFault::CompressorStalled);
            }
            rounds = rounds + 1;
            let input = slice_subrange(bytes, taken, bytes.len());
            let round = deflate_round(&mut self.compressor, input, DrainFlush::More);
            if let Some(f) = round_fault(round.status) {
                return Err(f);
            }
            taken = taken + round.consumed;
            proof {
                out = with_window(out, round.written@);
            }
            Self::emit_window(round.written, emit);
            assert(chunk_view(emit@) =~= start + out);
        }
        Ok(())
    }

    /// Flush the stream and write the trailer: the CRC-32 and the
    /// length modulo 2^32 of everything pushed, little-endian, as the
    /// last two chunks.
    pub fn finish(self, emit: &mut Vec<Vec<u8>>) -> (r: Result<(), GzipWriteFault>)
        requires
            self.wf(),
        ensures
            ({
                let run = finish_from(self@.compressor, Seq::empty(), 0);
                &&& r == run.2
                &&& chunk_view(final(emit)@) == chunk_view(old(emit)@) + header_chunks(self@.header_written) + run.1
                    + (if r is Ok { trailer_chunks(self@.input) } else { Seq::empty() })
            }),
    {
        let mut writer = self;
        let ghost input = writer@.input;
        writer.header(emit);
        let ghost start = chunk_view(emit@);
        let ghost target = finish_from(writer.compressor, Seq::empty(), 0);
        let mut rounds: u64 = 0;
        let ghost mut out: Seq<Seq<u8>> = Seq::empty();
        let mut outcome: Result<(), GzipWriteFault> = Ok(());
        let empty: Vec<u8> = Vec::new();
        assert(start + out =~= start);
        loop
            invariant_except_break
                outcome == Ok::<(), GzipWriteFault>(()),
                finish_from(writer.compressor, out, rounds as int) == target,
            invariant
                rounds <= MAX_ROUNDS,
                writer.wf(),
                crc_input(writer.crc) == input,
                chunk_view(emit@) == start + out,
                empty@ == Seq::<u8>::empty(),
            ensures
                out == target.1,
                outcome == target.2,
            decreases MAX_ROUNDS - rounds,
        {
            if rounds >= MAX_ROUNDS {
                outcome = Err(GzipWriteFault::CompressorStalled);
                break;
            }
            rounds = rounds + 1;
            let round = deflate_round(&mut writer.compressor, empty.as_slice(), DrainFlush::Finish);
            if let Some(f) = round_fault(round.status) {
                outcome = Err(f);
                break;
            }
            let ended = round.status == DeflateStatus::StreamEnd;
            proof {
                out = with_window(out, round.written@);
            }
            Self::emit_window(round.written, emit);
            assert(chunk_view(emit@) =~= start + out);
            if ended {
                break;
            }
        }
        match outcome {
            Err(f) => {
                assert(chunk_view(emit@) =~= start + out + Seq::<Seq<u8>>::empty());
                return Err(f);
            },
            Ok(()) => {},
        }
        let crc = writer.crc.clone().finalize();
        let mut crc_bytes: Vec<u8> = Vec::new();
        put32(&mut crc_bytes, crc);
        let mut len_bytes: Vec<u8> = Vec::new();
        put32(&mut len_bytes, (writer.isize_acc % 0x1_0000_0000) as u32);
        let ghost before = chunk_view(emit@);
        emit.push(crc_bytes);
        emit.push(len_bytes);
        assert(chunk_view(emit@) =~= before + trailer_chunks(input));
        outcome
    }
}

} // verus!
