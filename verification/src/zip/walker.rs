//! [`Walker`] — the forward-only, bounded-state ZIP structure walker.
//!
//! It reads the archive exactly once, in stream order, and never
//! seeks: local file headers are parsed as they arrive, member bytes
//! are counted (never inflated), data-descriptor members are closed
//! by recognising their descriptor, and the central directory plus
//! end records are reconciled against what streamed past.
//!
//! The walk is specified as a transition function on a mathematical
//! model ([`consume_spec`]); the executable walker is proved to follow
//! it byte by byte.

use vstd::prelude::*;

use super::fault::ZipFault;
use super::records::{
    central_header_of, central_resolved, end_record_of, le32, le64, local_header_of, local_sizes,
    sizes_fault, zip64_end_record_of, CentralHeader, EndRecord, LocalHeader, MemberSizes,
    Zip64EndRecord, CENTRAL_HEADER_SIG, DATA_DESCRIPTOR_SIG, END_OF_CENTRAL_DIRECTORY_SIG,
    LOCAL_HEADER_SIG, ZIP64_END_OF_CENTRAL_DIRECTORY_SIG, ZIP64_LOCATOR_SIG, ZIP64_MARKER_16,
    ZIP64_MARKER_32,
};
use crate::constants::GENERIC_CDC_CHUNK_MIN_BYTES;
use super::records::{u32_at, u64_at, CENTRAL_FIXED_LEN, END_FIXED_LEN, LOCAL_FIXED_LEN, ZIP64_END_FIXED_LEN, ZIP64_LOCATOR_FIXED_LEN};

verus! {

broadcast use vstd::seq_lib::group_seq_properties;

/// Where the walk stands in the end-of-archive sequence.
#[derive(Debug, Clone, Copy, PartialEq, Eq, Structural)]
pub enum Phase {
    /// Local file headers and member data.
    Members,
    /// Central directory headers.
    Central,
    /// The ZIP64 end record has been read; the locator must follow.
    Zip64EndSeen,
    /// The ZIP64 locator has been read; the end record must follow.
    LocatorSeen,
    /// The end record and its comment have been read.
    Complete,
}

/// The record kinds a signature announces.
#[derive(Debug, Clone, Copy, PartialEq, Eq, Structural)]
pub enum Record {
    /// Local file header.
    Local,
    /// Central directory header.
    Central,
    /// End of central directory record.
    End,
    /// ZIP64 end of central directory record.
    Zip64End,
    /// ZIP64 end of central directory locator.
    Zip64Locator,
}

/// The header whose variable part is being collected.
#[derive(Debug, Clone, Copy)]
pub enum Variable {
    /// A local header: name then extra field.
    Local(LocalHeader),
    /// A central header: name, extra field, comment.
    Central(CentralHeader),
}

/// What the walker is collecting right now.
#[derive(Debug, Clone, Copy)]
#[allow(inconsistent_fields)]
pub enum State {
    /// Collecting a four-byte record signature.
    Signature,
    /// Collecting the fixed part of a record of `kind`.
    Fixed { kind: Record },
    /// Collecting the variable part of a header.
    Variable { kind: Variable, total: usize },
    /// Counting member bytes of a known compressed size; a descriptor
    /// (64-bit when `Some(true)`) follows when `descriptor` is set.
    Data { remaining: u64, total: u64, method: u16, descriptor: Option<bool> },
    /// Scanning member bytes of unknown size for the data descriptor
    /// that closes them.
    DataScan { consumed: u64, method: u16, zip64: bool },
    /// Collecting the descriptor after a known-size member.
    Descriptor { zip64: bool, data_len: u64, method: u16 },
    /// Skipping a known number of bytes (ZIP64 extensible data, the
    /// archive comment).
    Skip { remaining: u64, then: Phase },
}

/// What one consumed byte completed.
#[derive(Debug, Clone, Copy, PartialEq, Eq)]
pub struct Step {
    /// The local header's length, when this byte completed the header
    /// of a large member (compressed size at least the envelope
    /// minimum).
    pub large: Option<usize>,
    /// The name length, when this byte completed a local header; the
    /// name is then the first bytes of the variable area.
    pub name_len: Option<usize>,
}

/// A step that completed nothing.
pub open spec fn quiet() -> Step {
    Step { large: None, name_len: None }
}

/// The walker as a mathematical value.
pub struct WalkerModel {
    /// The collecting state.
    pub state: State,
    /// The end-of-archive phase.
    pub phase: Phase,
    /// Bytes consumed so far.
    pub offset: u64,
    /// The bytes of the signature, fixed part or descriptor being
    /// collected.
    pub fixed: Seq<u8>,
    /// The variable part of the current header.
    pub variable: Seq<u8>,
    /// Lookahead bytes that may begin a data descriptor.
    pub pending: Seq<u8>,
    /// Local headers seen.
    pub local_count: u64,
    /// Central headers seen.
    pub central_count: u64,
    /// Where the central directory began.
    pub central_start: Option<u64>,
    /// Where the central directory ended.
    pub central_end: u64,
    /// The ZIP64 end record, once read.
    pub zip64_end: Option<Zip64EndRecord>,
}

/// The model of a fresh walker.
pub open spec fn initial_walker() -> WalkerModel {
    WalkerModel {
        state: State::Signature,
        phase: Phase::Members,
        offset: 0,
        fixed: Seq::empty(),
        variable: Seq::empty(),
        pending: Seq::empty(),
        local_count: 0,
        central_count: 0,
        central_start: None,
        central_end: 0,
        zip64_end: None,
    }
}

/// Bytes of a record's fixed part after its signature.
pub open spec fn fixed_len(kind: Record) -> nat {
    match kind {
        Record::Local => 26,
        Record::Central => 42,
        Record::End => 18,
        Record::Zip64End => 52,
        Record::Zip64Locator => 16,
    }
}

/// Bytes of a descriptor after its optional signature: CRC plus two
/// sizes.
pub open spec fn body_len(zip64: bool) -> nat {
    if zip64 { 20 } else { 12 }
}

/// The compressed size inside a descriptor body.
pub open spec fn desc_compressed(body: Seq<u8>, zip64: bool) -> int {
    if zip64 { le64(body, 4) } else { le32(body, 4) }
}

/// The uncompressed size inside a descriptor body.
pub open spec fn desc_uncompressed(body: Seq<u8>, zip64: bool) -> int {
    if zip64 { le64(body, 12) } else { le32(body, 8) }
}

/// The record a signature announces.
pub open spec fn signature_kind(sig: int) -> Option<Record> {
    if sig == LOCAL_HEADER_SIG {
        Some(Record::Local)
    } else if sig == CENTRAL_HEADER_SIG {
        Some(Record::Central)
    } else if sig == END_OF_CENTRAL_DIRECTORY_SIG {
        Some(Record::End)
    } else if sig == ZIP64_END_OF_CENTRAL_DIRECTORY_SIG {
        Some(Record::Zip64End)
    } else if sig == ZIP64_LOCATOR_SIG {
        Some(Record::Zip64Locator)
    } else {
        None
    }
}

/// Back to collecting a signature.
pub open spec fn to_signature(w: WalkerModel) -> WalkerModel {
    WalkerModel { state: State::Signature, fixed: Seq::empty(), ..w }
}

/// Skip `remaining` bytes, then enter `then`.
pub open spec fn skip_spec(w: WalkerModel, remaining: u64, then: Phase) -> WalkerModel {
    if remaining == 0 {
        WalkerModel { phase: then, ..to_signature(w) }
    } else {
        WalkerModel { state: State::Skip { remaining, then }, ..w }
    }
}

/// The first end record marks where the central directory ended
/// (and, for a memberless archive, where it began).
pub open spec fn begin_end(w: WalkerModel, record_start: u64) -> WalkerModel {
    WalkerModel {
        central_start: if w.central_start is None { Some(record_start) } else { w.central_start },
        central_end: record_start,
        ..w
    }
}

/// A completed signature, checked against the end-of-archive
/// sequence.
pub open spec fn signature_spec(w: WalkerModel) -> Result<WalkerModel, ZipFault> {
    match signature_kind(le32(w.fixed, 0)) {
        None => Err(ZipFault::UnknownSignature),
        Some(kind) => {
            let rs: u64 = if w.offset >= 3 { (w.offset - 3) as u64 } else { 0 };
            let w2 = WalkerModel { state: State::Fixed { kind }, fixed: Seq::empty(), ..w };
            if kind == Record::Local {
                if w.phase == Phase::Members { Ok(w2) } else { Err(ZipFault::MemberAfterCentralDirectory) }
            } else if kind == Record::Central {
                if w.phase == Phase::Members {
                    Ok(WalkerModel { phase: Phase::Central, central_start: Some(rs), ..w2 })
                } else if w.phase == Phase::Central {
                    Ok(w2)
                } else {
                    Err(ZipFault::RecordOutOfSequence)
                }
            } else if kind == Record::Zip64End {
                if w.phase == Phase::Members || w.phase == Phase::Central {
                    Ok(WalkerModel { phase: Phase::Zip64EndSeen, ..begin_end(w2, rs) })
                } else {
                    Err(ZipFault::RecordOutOfSequence)
                }
            } else if kind == Record::Zip64Locator {
                if w.phase == Phase::Zip64EndSeen {
                    Ok(WalkerModel { phase: Phase::LocatorSeen, ..w2 })
                } else {
                    Err(ZipFault::RecordOutOfSequence)
                }
            } else {
                if w.phase == Phase::Members || w.phase == Phase::Central {
                    Ok(begin_end(w2, rs))
                } else if w.phase == Phase::LocatorSeen {
                    Ok(w2)
                } else {
                    Err(ZipFault::RecordOutOfSequence)
                }
            }
        },
    }
}

/// The end record's claims, reconciled with what streamed past.
pub open spec fn reconcile_spec(w: WalkerModel, end: EndRecord) -> Option<ZipFault> {
    let entries: u64 = match w.zip64_end {
        Some(z) => if end.entries_total == ZIP64_MARKER_16 { z.entries_total } else { end.entries_total as u64 },
        None => end.entries_total as u64,
    };
    let size: u64 = match w.zip64_end {
        Some(z) => if end.central_size == ZIP64_MARKER_32 { z.central_size } else { end.central_size as u64 },
        None => end.central_size as u64,
    };
    let offset: u64 = match w.zip64_end {
        Some(z) => if end.central_offset == ZIP64_MARKER_32 { z.central_offset } else { end.central_offset as u64 },
        None => end.central_offset as u64,
    };
    if entries != w.central_count || entries != w.local_count {
        Some(ZipFault::EntryCountMismatch)
    } else {
        match w.central_start {
            None => Some(ZipFault::RecordOutOfSequence),
            Some(cs) => if offset != cs || size as int != w.central_end - cs {
                Some(ZipFault::CentralDirectoryGeometry)
            } else {
                None
            },
        }
    }
}

/// A completed variable part.
pub open spec fn variable_spec(w: WalkerModel, kind: Variable) -> Result<(WalkerModel, Step), ZipFault> {
    match kind {
        Variable::Local(h) => {
            let extra = w.variable.subrange(h.name_len as int, w.variable.len() as int);
            let zip64 = h.compressed == ZIP64_MARKER_32 || h.uncompressed == ZIP64_MARKER_32;
            match local_sizes(h, extra) {
                Err(fault) => Err(fault),
                Ok(sizes) => {
                    let header_len = 30 + w.variable.len();
                    let step = Step {
                        large: if sizes.compressed >= GENERIC_CDC_CHUNK_MIN_BYTES { Some(header_len as usize) } else { None },
                        name_len: Some(h.name_len as usize),
                    };
                    if h.flags & 8 != 0 && sizes.compressed == 0 {
                        Ok((WalkerModel {
                            state: State::DataScan { consumed: 0, method: h.method, zip64 },
                            pending: Seq::empty(),
                            ..w
                        }, step))
                    } else {
                        match sizes_fault(sizes, h.method) {
                            Some(fault) => Err(fault),
                            None => if h.flags & 8 != 0 {
                                Ok((WalkerModel {
                                    state: State::Data {
                                        remaining: sizes.compressed,
                                        total: sizes.compressed,
                                        method: h.method,
                                        descriptor: Some(zip64),
                                    },
                                    ..w
                                }, step))
                            } else if sizes.compressed == 0 {
                                Ok((to_signature(w), step))
                            } else {
                                Ok((WalkerModel {
                                    state: State::Data {
                                        remaining: sizes.compressed,
                                        total: sizes.compressed,
                                        method: h.method,
                                        descriptor: None,
                                    },
                                    ..w
                                }, step))
                            },
                        }
                    }
                },
            }
        },
        Variable::Central(h) => {
            let extra = w.variable.subrange(h.name_len as int, h.name_len + h.extra_len);
            match central_resolved(h, extra) {
                Err(fault) => Err(fault),
                Ok((sizes, local_offset)) => match sizes_fault(sizes, h.method) {
                    Some(fault) => Err(fault),
                    None => match w.central_start {
                        None => Err(ZipFault::RecordOutOfSequence),
                        Some(cs) => if local_offset >= cs {
                            Err(ZipFault::CentralOffsetOutOfRange)
                        } else {
                            Ok((to_signature(w), quiet()))
                        },
                    },
                },
            }
        },
    }
}

/// Start collecting a variable part of `total` bytes.
pub open spec fn begin_variable_spec(w: WalkerModel, kind: Variable, total: nat) -> Result<(WalkerModel, Step), ZipFault> {
    let w1 = WalkerModel { variable: Seq::empty(), state: State::Variable { kind, total: total as usize }, ..w };
    if total == 0 { variable_spec(w1, kind) } else { Ok((w1, quiet())) }
}

/// A completed fixed part.
pub open spec fn fixed_spec(w: WalkerModel, kind: Record) -> Result<(WalkerModel, Step), ZipFault> {
    let f = w.fixed;
    let w0 = WalkerModel { fixed: Seq::empty(), ..w };
    match kind {
        Record::Local => {
            let h = local_header_of(f);
            begin_variable_spec(
                WalkerModel { local_count: (w.local_count + 1) as u64, ..w0 },
                Variable::Local(h),
                (h.name_len + h.extra_len) as nat,
            )
        },
        Record::Central => {
            let h = central_header_of(f);
            begin_variable_spec(
                WalkerModel { central_count: (w.central_count + 1) as u64, ..w0 },
                Variable::Central(h),
                (h.name_len + h.extra_len + h.comment_len) as nat,
            )
        },
        Record::End => {
            let end = end_record_of(f);
            match reconcile_spec(w0, end) {
                Some(fault) => Err(fault),
                None => Ok((skip_spec(w0, end.comment_len as u64, Phase::Complete), quiet())),
            }
        },
        Record::Zip64End => match zip64_end_record_of(f) {
            Err(fault) => Err(fault),
            Ok(record) => Ok((
                skip_spec(WalkerModel { zip64_end: Some(record), ..w0 }, record.extensible_len, Phase::Zip64EndSeen),
                quiet(),
            )),
        },
        Record::Zip64Locator => Ok((to_signature(w0), quiet())),
    }
}

/// The outcome of scanning unknown-size member bytes.
pub struct ScanOut {
    /// A matching descriptor closed the member.
    pub closed: bool,
    /// Lookahead bytes still undecided.
    pub pending: Seq<u8>,
    /// Member bytes counted so far.
    pub consumed: u64,
}

/// Scan the lookahead: accept a descriptor only when its compressed
/// size equals the bytes it covers; bytes that fail the test are
/// member data and leave the lookahead one by one.
pub open spec fn scan_spec(pending: Seq<u8>, consumed: u64, method: u16, zip64: bool) -> Result<ScanOut, ZipFault>
    decreases pending.len(),
{
    let looks = pending.len() < 4 || le32(pending, 0) == DATA_DESCRIPTOR_SIG;
    let full = pending.len() >= 4 + body_len(zip64);
    let body = pending.subrange(4, 4 + body_len(zip64) as int);
    if looks && full && desc_compressed(body, zip64) == consumed {
        let sizes = MemberSizes { compressed: consumed, uncompressed: desc_uncompressed(body, zip64) as u64 };
        match sizes_fault(sizes, method) {
            Some(fault) => Err(fault),
            None => Ok(ScanOut { closed: true, pending: Seq::empty(), consumed }),
        }
    } else if looks && !full {
        Ok(ScanOut { closed: false, pending, consumed })
    } else if pending.len() <= 1 {
        Ok(ScanOut { closed: false, pending: Seq::empty(), consumed: (consumed + 1) as u64 })
    } else {
        scan_spec(pending.drop_first(), (consumed + 1) as u64, method, zip64)
    }
}

/// A descriptor byte after a known-size member (already appended).
pub open spec fn descriptor_spec(w: WalkerModel, zip64: bool, data_len: u64, method: u16) -> Result<WalkerModel, ZipFault> {
    let len = w.fixed.len();
    let signed = len >= 4 && le32(w.fixed, 0) == DATA_DESCRIPTOR_SIG;
    let total = if signed { 4 + body_len(zip64) } else { body_len(zip64) };
    if len < 4 || len < total {
        Ok(w)
    } else {
        let body = if signed { w.fixed.subrange(4, total as int) } else { w.fixed.subrange(0, total as int) };
        if desc_compressed(body, zip64) != data_len {
            Err(ZipFault::DescriptorSizeMismatch)
        } else {
            let sizes = MemberSizes { compressed: data_len, uncompressed: desc_uncompressed(body, zip64) as u64 };
            match sizes_fault(sizes, method) {
                Some(fault) => Err(fault),
                None => Ok(to_signature(w)),
            }
        }
    }
}

/// One byte of the walk (the offset still counts the bytes before
/// it).
pub open spec fn step_spec(w: WalkerModel, byte: u8) -> Result<(WalkerModel, Step), ZipFault> {
    match w.state {
        State::Signature => if w.phase == Phase::Complete {
            Err(ZipFault::TrailingBytes)
        } else {
            let w1 = WalkerModel { fixed: w.fixed.push(byte), ..w };
            if w1.fixed.len() == 4 {
                match signature_spec(w1) {
                    Err(fault) => Err(fault),
                    Ok(w2) => Ok((w2, quiet())),
                }
            } else {
                Ok((w1, quiet()))
            }
        },
        State::Fixed { kind } => {
            let w1 = WalkerModel { fixed: w.fixed.push(byte), ..w };
            if w1.fixed.len() == fixed_len(kind) { fixed_spec(w1, kind) } else { Ok((w1, quiet())) }
        },
        State::Variable { kind, total } => {
            let w1 = WalkerModel { variable: w.variable.push(byte), ..w };
            if w1.variable.len() == total { variable_spec(w1, kind) } else { Ok((w1, quiet())) }
        },
        State::Data { remaining, total, method, descriptor } => if remaining > 1 {
            Ok((WalkerModel { state: State::Data { remaining: (remaining - 1) as u64, total, method, descriptor }, ..w }, quiet()))
        } else {
            match descriptor {
                Some(zip64) => Ok((WalkerModel {
                    state: State::Descriptor { zip64, data_len: total, method },
                    fixed: Seq::empty(),
                    ..w
                }, quiet())),
                None => Ok((to_signature(w), quiet())),
            }
        },
        State::DataScan { consumed, method, zip64 } => match scan_spec(w.pending.push(byte), consumed, method, zip64) {
            Err(fault) => Err(fault),
            Ok(out) => if out.closed {
                Ok((WalkerModel { pending: Seq::empty(), ..to_signature(w) }, quiet()))
            } else {
                Ok((WalkerModel {
                    state: State::DataScan { consumed: out.consumed, method, zip64 },
                    pending: out.pending,
                    ..w
                }, quiet()))
            },
        },
        State::Descriptor { zip64, data_len, method } => {
            match descriptor_spec(WalkerModel { fixed: w.fixed.push(byte), ..w }, zip64, data_len, method) {
                Err(fault) => Err(fault),
                Ok(w2) => Ok((w2, quiet())),
            }
        },
        State::Skip { remaining, then } => if remaining > 1 {
            Ok((WalkerModel { state: State::Skip { remaining: (remaining - 1) as u64, then }, ..w }, quiet()))
        } else {
            Ok((WalkerModel { phase: then, ..to_signature(w) }, quiet()))
        },
    }
}

/// One consumed byte: the step, then the offset advances.
pub open spec fn consume_spec(w: WalkerModel, byte: u8) -> Result<(WalkerModel, Step), ZipFault> {
    match step_spec(w, byte) {
        Err(fault) => Err(fault),
        Ok((w2, step)) => Ok((WalkerModel { offset: (w.offset + 1) as u64, ..w2 }, step)),
    }
}

/// The walk of `bytes` from `w`: the model after them, or the first
/// fault.
pub open spec fn walk_spec(w: WalkerModel, bytes: Seq<u8>) -> Result<WalkerModel, ZipFault>
    decreases bytes.len(),
{
    if bytes.len() == 0 {
        Ok(w)
    } else {
        match walk_spec(w, bytes.drop_last()) {
            Err(fault) => Err(fault),
            Ok(w1) => match consume_spec(w1, bytes.last()) {
                Err(fault) => Err(fault),
                Ok((w2, _)) => Ok(w2),
            },
        }
    }
}

/// The archive is complete: the end record and its comment were read
/// and no record is open.
pub open spec fn walk_complete(w: WalkerModel) -> bool {
    w.phase == Phase::Complete && w.state is Signature && w.fixed.len() == 0
}

/// Whether the next byte begins a member or the central directory —
/// the profile's cut candidate.
pub open spec fn at_member_boundary_spec(w: WalkerModel) -> bool {
    w.phase == Phase::Members && w.state is Signature && w.fixed.len() == 0
}

/// The bounded-state invariant.
pub open spec fn walker_wf(w: WalkerModel) -> bool {
    &&& w.local_count + w.central_count <= w.offset
    &&& match w.state {
        State::Signature => w.fixed.len() < 4 && w.local_count + w.central_count + w.fixed.len() <= w.offset,
        State::Fixed { kind } => w.fixed.len() < fixed_len(kind)
            && w.local_count + w.central_count + 4 + w.fixed.len() <= w.offset,
        State::Variable { kind, total } => w.variable.len() < total && match kind {
            Variable::Local(h) => total == h.name_len + h.extra_len,
            Variable::Central(h) => total == h.name_len + h.extra_len + h.comment_len,
        },
        State::Data { remaining, total, .. } => 0 < remaining <= total,
        State::DataScan { consumed, zip64, .. } => w.pending.len() < 4 + body_len(zip64)
            && consumed + w.pending.len() <= w.offset,
        State::Descriptor { zip64, .. } => w.fixed.len() < 4 + body_len(zip64),
        State::Skip { remaining, .. } => remaining > 0,
    }
}



/// Scanning conserves bytes: those leaving the lookahead are counted
/// as member data, and an undecided lookahead stays shorter than a
/// signed descriptor.
pub proof fn lemma_scan_bounds(pending: Seq<u8>, consumed: u64, method: u16, zip64: bool)
    requires
        consumed + pending.len() <= u64::MAX,
    ensures
        scan_spec(pending, consumed, method, zip64) matches Ok(out) ==> !out.closed ==> (
            out.consumed + out.pending.len() == consumed + pending.len()
            && out.pending.len() < 4 + body_len(zip64)),
    decreases pending.len(),
{
    if pending.len() > 1 {
        lemma_scan_bounds(pending.drop_first(), (consumed + 1) as u64, method, zip64);
    }
}

/// Every accepted byte keeps the walker within its bounded state.
pub proof fn lemma_consume_wf(w: WalkerModel, byte: u8)
    requires
        walker_wf(w),
        w.offset < u64::MAX,
    ensures
        consume_spec(w, byte) matches Ok((w2, _)) ==> walker_wf(w2),
{
    match w.state {
        State::DataScan { consumed, method, zip64 } => {
            lemma_scan_bounds(w.pending.push(byte), consumed, method, zip64);
        },
        _ => {},
    }
}

/// A completed local header's name lies within the collected
/// variable area.
pub proof fn lemma_consume_name(w: WalkerModel, byte: u8)
    requires
        walker_wf(w),
    ensures
        consume_spec(w, byte) matches Ok((w2, step)) ==> (step.name_len matches Some(n) ==> n <= w2.variable.len()),
{
}

/// The walker. Holds small collection buffers (a record's fixed
/// part, one header's name, extra and comment, a descriptor
/// lookahead) and a few counters — never the archive.
pub struct Walker {
    state: State,
    phase: Phase,
    offset: u64,
    fixed: Vec<u8>,
    variable: Vec<u8>,
    pending: Vec<u8>,
    local_count: u64,
    central_count: u64,
    central_start: Option<u64>,
    central_end: u64,
    zip64_end: Option<Zip64EndRecord>,
}

impl View for Walker {
    type V = WalkerModel;

    closed spec fn view(&self) -> WalkerModel {
        WalkerModel {
            state: self.state,
            phase: self.phase,
            offset: self.offset,
            fixed: self.fixed@,
            variable: self.variable@,
            pending: self.pending@,
            local_count: self.local_count,
            central_count: self.central_count,
            central_start: self.central_start,
            central_end: self.central_end,
            zip64_end: self.zip64_end,
        }
    }
}

fn quiet_step() -> (step: Step)
    ensures
        step == quiet(),
{
    Step { large: None, name_len: None }
}

fn fixed_len_of(kind: Record) -> (len: usize)
    ensures
        len == fixed_len(kind),
{
    match kind {
        Record::Local => LOCAL_FIXED_LEN,
        Record::Central => CENTRAL_FIXED_LEN,
        Record::End => END_FIXED_LEN,
        Record::Zip64End => ZIP64_END_FIXED_LEN,
        Record::Zip64Locator => ZIP64_LOCATOR_FIXED_LEN,
    }
}

/// The compressed and uncompressed sizes inside a descriptor body.
fn descriptor_sizes(body: &[u8], zip64: bool) -> (sizes: (u64, u64))
    requires
        body@.len() >= body_len(zip64),
    ensures
        sizes.0 as int == desc_compressed(body@, zip64),
        sizes.1 as int == desc_uncompressed(body@, zip64),
{
    if zip64 {
        (u64_at(body, 4), u64_at(body, 12))
    } else {
        (u32_at(body, 4) as u64, u32_at(body, 8) as u64)
    }
}

impl Walker {
    /// A walker at the start of an archive.
    pub fn new() -> (walker: Self)
        ensures
            walker@ == initial_walker(),
            walker_wf(walker@),
    {
        let walker = Walker {
            state: State::Signature,
            phase: Phase::Members,
            offset: 0,
            fixed: Vec::new(),
            variable: Vec::new(),
            pending: Vec::new(),
            local_count: 0,
            central_count: 0,
            central_start: None,
            central_end: 0,
            zip64_end: None,
        };
        assert(walker@.fixed =~= Seq::<u8>::empty());
        assert(walker@ =~= initial_walker());
        walker
    }

    /// Bytes consumed so far.
    pub fn offset(&self) -> (offset: u64)
        ensures
            offset == self@.offset,
    {
        self.offset
    }

    /// Whether the next byte begins a member (or the central
    /// directory) — the profile's cut candidate.
    pub fn at_member_boundary(&self) -> (at: bool)
        ensures
            at == at_member_boundary_spec(self@),
    {
        matches!(self.state, State::Signature) && self.fixed.len() == 0 && self.phase == Phase::Members
    }

    /// The first `len` bytes of the variable area (after a local
    /// header completed: its name).
    pub fn variable_prefix(&self, len: usize) -> (bytes: Vec<u8>)
        requires
            len <= self@.variable.len(),
        ensures
            bytes@ == self@.variable.subrange(0, len as int),
    {
        let mut bytes: Vec<u8> = Vec::with_capacity(len);
        let mut i: usize = 0;
        while i < len
            invariant
                i <= len <= self.variable@.len(),
                bytes@ == self.variable@.subrange(0, i as int),
            decreases len - i,
        {
            bytes.push(self.variable[i]);
            i = i + 1;
        }
        bytes
    }

    /// The stream ended: the archive must be complete.
    pub fn finish(&self) -> (result: Result<(), ZipFault>)
        ensures
            result == (if walk_complete(self@) { Ok(()) } else { Err::<(), ZipFault>(ZipFault::Truncated) }),
    {
        if self.phase == Phase::Complete && matches!(self.state, State::Signature) && self.fixed.len() == 0 {
            Ok(())
        } else {
            Err(ZipFault::Truncated)
        }
    }

    /// Consume one byte.
    pub fn consume(&mut self, byte: u8) -> (result: Result<Step, ZipFault>)
        requires
            walker_wf(old(self)@),
            old(self)@.offset < u64::MAX,
        ensures
            final(self)@.offset == old(self)@.offset + 1,
            match result {
                Ok(step) => consume_spec(old(self)@, byte) == Ok::<(WalkerModel, Step), ZipFault>((final(self)@, step)),
                Err(fault) => consume_spec(old(self)@, byte) == Err::<(WalkerModel, Step), ZipFault>(fault),
            },
    {
        let result = self.step(byte);
        self.offset = self.offset + 1;
        result
    }

    fn to_signature(&mut self)
        ensures
            final(self)@.offset == old(self)@.offset,
            final(self)@ == to_signature(old(self)@),
    {
        self.state = State::Signature;
        self.fixed.clear();
        assert(self.fixed@ =~= Seq::<u8>::empty());
    }

    fn step(&mut self, byte: u8) -> (result: Result<Step, ZipFault>)
        requires
            walker_wf(old(self)@),
            old(self)@.offset < u64::MAX,
        ensures
            final(self)@.offset == old(self)@.offset,
            match result {
                Ok(step) => step_spec(old(self)@, byte) == Ok::<(WalkerModel, Step), ZipFault>((final(self)@, step)),
                Err(fault) => step_spec(old(self)@, byte) == Err::<(WalkerModel, Step), ZipFault>(fault),
            },
    {
        match self.state {
            State::Signature => self.step_signature(byte),
            State::Fixed { kind } => self.step_fixed(byte, kind),
            State::Variable { kind, total } => self.step_variable(byte, kind, total),
            State::Data { remaining, total, method, descriptor } => {
                if remaining > 1 {
                    self.state = State::Data { remaining: remaining - 1, total, method, descriptor };
                } else {
                    match descriptor {
                        Some(zip64) => {
                            self.state = State::Descriptor { zip64, data_len: total, method };
                            self.fixed.clear();
                            assert(self.fixed@ =~= Seq::<u8>::empty());
                        },
                        None => self.to_signature(),
                    }
                }
                Ok(quiet_step())
            },
            State::DataScan { consumed, method, zip64 } => self.step_scan(byte, consumed, method, zip64),
            State::Descriptor { zip64, data_len, method } => {
                self.fixed.push(byte);
                match self.try_close_descriptor(zip64, data_len, method) {
                    Err(fault) => Err(fault),
                    Ok(()) => Ok(quiet_step()),
                }
            },
            State::Skip { remaining, then } => {
                if remaining > 1 {
                    self.state = State::Skip { remaining: remaining - 1, then };
                } else {
                    self.phase = then;
                    self.to_signature();
                }
                Ok(quiet_step())
            },
        }
    }

    fn step_signature(&mut self, byte: u8) -> (result: Result<Step, ZipFault>)
        requires
            walker_wf(old(self)@),
            old(self)@.state is Signature,
        ensures
            final(self)@.offset == old(self)@.offset,
            match result {
                Ok(step) => step_spec(old(self)@, byte) == Ok::<(WalkerModel, Step), ZipFault>((final(self)@, step)),
                Err(fault) => step_spec(old(self)@, byte) == Err::<(WalkerModel, Step), ZipFault>(fault),
            },
    {
        if self.phase == Phase::Complete {
            return Err(ZipFault::TrailingBytes);
        }
        self.fixed.push(byte);
        if self.fixed.len() == 4 {
            match self.dispatch_signature() {
                Err(fault) => return Err(fault),
                Ok(()) => {},
            }
        }
        Ok(quiet_step())
    }

    fn step_fixed(&mut self, byte: u8, kind: Record) -> (result: Result<Step, ZipFault>)
        requires
            walker_wf(old(self)@),
            old(self)@.offset < u64::MAX,
            old(self)@.state == (State::Fixed { kind }),
        ensures
            final(self)@.offset == old(self)@.offset,
            match result {
                Ok(step) => step_spec(old(self)@, byte) == Ok::<(WalkerModel, Step), ZipFault>((final(self)@, step)),
                Err(fault) => step_spec(old(self)@, byte) == Err::<(WalkerModel, Step), ZipFault>(fault),
            },
    {
        self.fixed.push(byte);
        if self.fixed.len() == fixed_len_of(kind) {
            self.dispatch_fixed(kind)
        } else {
            Ok(quiet_step())
        }
    }

    fn step_variable(&mut self, byte: u8, kind: Variable, total: usize) -> (result: Result<Step, ZipFault>)
        requires
            walker_wf(old(self)@),
            old(self)@.state == (State::Variable { kind, total }),
        ensures
            final(self)@.offset == old(self)@.offset,
            match result {
                Ok(step) => step_spec(old(self)@, byte) == Ok::<(WalkerModel, Step), ZipFault>((final(self)@, step)),
                Err(fault) => step_spec(old(self)@, byte) == Err::<(WalkerModel, Step), ZipFault>(fault),
            },
    {
        self.variable.push(byte);
        if self.variable.len() == total {
            self.dispatch_variable(kind)
        } else {
            Ok(quiet_step())
        }
    }

    fn step_scan(&mut self, byte: u8, consumed: u64, method: u16, zip64: bool) -> (result: Result<Step, ZipFault>)
        requires
            walker_wf(old(self)@),
            old(self)@.offset < u64::MAX,
            old(self)@.state == (State::DataScan { consumed, method, zip64 }),
        ensures
            final(self)@.offset == old(self)@.offset,
            match result {
                Ok(step) => step_spec(old(self)@, byte) == Ok::<(WalkerModel, Step), ZipFault>((final(self)@, step)),
                Err(fault) => step_spec(old(self)@, byte) == Err::<(WalkerModel, Step), ZipFault>(fault),
            },
    {
        self.pending.push(byte);
        match self.scan(consumed, method, zip64) {
            Err(fault) => Err(fault),
            Ok((closed, consumed)) => {
                if closed {
                    self.pending.clear();
                    assert(self.pending@ =~= Seq::<u8>::empty());
                    self.to_signature();
                } else {
                    self.state = State::DataScan { consumed, method, zip64 };
                }
                Ok(quiet_step())
            },
        }
    }

    fn dispatch_signature(&mut self) -> (result: Result<(), ZipFault>)
        requires
            old(self)@.fixed.len() == 4,
        ensures
            final(self)@.offset == old(self)@.offset,
            match result {
                Ok(()) => signature_spec(old(self)@) == Ok::<WalkerModel, ZipFault>(final(self)@),
                Err(fault) => signature_spec(old(self)@) == Err::<WalkerModel, ZipFault>(fault),
            },
    {
        let sig = u32_at(self.fixed.as_slice(), 0);
        let kind = if sig == LOCAL_HEADER_SIG {
            Record::Local
        } else if sig == CENTRAL_HEADER_SIG {
            Record::Central
        } else if sig == END_OF_CENTRAL_DIRECTORY_SIG {
            Record::End
        } else if sig == ZIP64_END_OF_CENTRAL_DIRECTORY_SIG {
            Record::Zip64End
        } else if sig == ZIP64_LOCATOR_SIG {
            Record::Zip64Locator
        } else {
            return Err(ZipFault::UnknownSignature);
        };
        let record_start: u64 = if self.offset >= 3 { self.offset - 3 } else { 0 };
        match kind {
            Record::Local => {
                if self.phase != Phase::Members {
                    return Err(ZipFault::MemberAfterCentralDirectory);
                }
            },
            Record::Central => {
                if self.phase == Phase::Members {
                    self.phase = Phase::Central;
                    self.central_start = Some(record_start);
                } else if self.phase != Phase::Central {
                    return Err(ZipFault::RecordOutOfSequence);
                }
            },
            Record::Zip64End => {
                if self.phase == Phase::Members || self.phase == Phase::Central {
                    self.begin_end_sequence(record_start);
                    self.phase = Phase::Zip64EndSeen;
                } else {
                    return Err(ZipFault::RecordOutOfSequence);
                }
            },
            Record::Zip64Locator => {
                if self.phase == Phase::Zip64EndSeen {
                    self.phase = Phase::LocatorSeen;
                } else {
                    return Err(ZipFault::RecordOutOfSequence);
                }
            },
            Record::End => {
                if self.phase == Phase::Members || self.phase == Phase::Central {
                    self.begin_end_sequence(record_start);
                } else if self.phase != Phase::LocatorSeen {
                    return Err(ZipFault::RecordOutOfSequence);
                }
            },
        }
        self.state = State::Fixed { kind };
        self.fixed.clear();
        assert(self.fixed@ =~= Seq::<u8>::empty());
        Ok(())
    }

    fn begin_end_sequence(&mut self, record_start: u64)
        ensures
            final(self)@ == begin_end(old(self)@, record_start),
    {
        if self.central_start.is_none() {
            self.central_start = Some(record_start);
        }
        self.central_end = record_start;
    }

    fn skip(&mut self, remaining: u64, then: Phase)
        ensures
            final(self)@ == skip_spec(old(self)@, remaining, then),
    {
        if remaining == 0 {
            self.phase = then;
            self.to_signature();
        } else {
            self.state = State::Skip { remaining, then };
        }
    }

    fn reconcile_end(&self, end: EndRecord) -> (result: Result<(), ZipFault>)
        ensures
            result == (match reconcile_spec(self@, end) {
                Some(fault) => Err(fault),
                None => Ok(()),
            }),
    {
        let (entries, size, offset) = match self.zip64_end {
            Some(z) => (
                if end.entries_total == ZIP64_MARKER_16 { z.entries_total } else { end.entries_total as u64 },
                if end.central_size == ZIP64_MARKER_32 { z.central_size } else { end.central_size as u64 },
                if end.central_offset == ZIP64_MARKER_32 { z.central_offset } else { end.central_offset as u64 },
            ),
            None => (end.entries_total as u64, end.central_size as u64, end.central_offset as u64),
        };
        if entries != self.central_count || entries != self.local_count {
            return Err(ZipFault::EntryCountMismatch);
        }
        match self.central_start {
            None => Err(ZipFault::RecordOutOfSequence),
            Some(cs) => {
                if offset != cs || self.central_end < cs || size != self.central_end - cs {
                    Err(ZipFault::CentralDirectoryGeometry)
                } else {
                    Ok(())
                }
            },
        }
    }

    fn dispatch_fixed(&mut self, kind: Record) -> (result: Result<Step, ZipFault>)
        requires
            old(self)@.fixed.len() == fixed_len(kind),
            old(self)@.local_count + old(self)@.central_count + 4 + old(self)@.fixed.len() <= old(self)@.offset + 1,
            old(self)@.offset < u64::MAX,
        ensures
            final(self)@.offset == old(self)@.offset,
            match result {
                Ok(step) => fixed_spec(old(self)@, kind) == Ok::<(WalkerModel, Step), ZipFault>((final(self)@, step)),
                Err(fault) => fixed_spec(old(self)@, kind) == Err::<(WalkerModel, Step), ZipFault>(fault),
            },
    {
        match kind {
            Record::Local => {
                let header = LocalHeader::parse(self.fixed.as_slice());
                self.fixed.clear();
                assert(self.fixed@ =~= Seq::<u8>::empty());
                self.local_count = self.local_count + 1;
                self.begin_variable(Variable::Local(header), header.name_len as usize + header.extra_len as usize)
            },
            Record::Central => {
                let header = CentralHeader::parse(self.fixed.as_slice());
                self.fixed.clear();
                assert(self.fixed@ =~= Seq::<u8>::empty());
                self.central_count = self.central_count + 1;
                self.begin_variable(
                    Variable::Central(header),
                    header.name_len as usize + header.extra_len as usize + header.comment_len as usize,
                )
            },
            Record::End => {
                let end = EndRecord::parse(self.fixed.as_slice());
                self.fixed.clear();
                assert(self.fixed@ =~= Seq::<u8>::empty());
                match self.reconcile_end(end) {
                    Err(fault) => return Err(fault),
                    Ok(()) => {},
                }
                self.skip(end.comment_len as u64, Phase::Complete);
                Ok(quiet_step())
            },
            Record::Zip64End => {
                let parsed = Zip64EndRecord::parse(self.fixed.as_slice());
                self.fixed.clear();
                assert(self.fixed@ =~= Seq::<u8>::empty());
                match parsed {
                    Err(fault) => Err(fault),
                    Ok(record) => {
                        self.zip64_end = Some(record);
                        self.skip(record.extensible_len, Phase::Zip64EndSeen);
                        Ok(quiet_step())
                    },
                }
            },
            Record::Zip64Locator => {
                self.fixed.clear();
                self.to_signature();
                Ok(quiet_step())
            },
        }
    }

    fn begin_variable(&mut self, kind: Variable, total: usize) -> (result: Result<Step, ZipFault>)
        requires
            match kind {
                Variable::Local(h) => total == h.name_len + h.extra_len,
                Variable::Central(h) => total == h.name_len + h.extra_len + h.comment_len,
            },
        ensures
            final(self)@.offset == old(self)@.offset,
            match result {
                Ok(step) => begin_variable_spec(old(self)@, kind, total as nat) == Ok::<(WalkerModel, Step), ZipFault>((final(self)@, step)),
                Err(fault) => begin_variable_spec(old(self)@, kind, total as nat) == Err::<(WalkerModel, Step), ZipFault>(fault),
            },
    {
        self.variable.clear();
        assert(self.variable@ =~= Seq::<u8>::empty());
        self.state = State::Variable { kind, total };
        if total == 0 {
            self.dispatch_variable(kind)
        } else {
            Ok(quiet_step())
        }
    }

    fn dispatch_variable(&mut self, kind: Variable) -> (result: Result<Step, ZipFault>)
        requires
            match kind {
                Variable::Local(h) => old(self)@.variable.len() == h.name_len + h.extra_len,
                Variable::Central(h) => old(self)@.variable.len() == h.name_len + h.extra_len + h.comment_len,
            },
        ensures
            final(self)@.offset == old(self)@.offset,
            match result {
                Ok(step) => variable_spec(old(self)@, kind) == Ok::<(WalkerModel, Step), ZipFault>((final(self)@, step)),
                Err(fault) => variable_spec(old(self)@, kind) == Err::<(WalkerModel, Step), ZipFault>(fault),
            },
    {
        match kind {
            Variable::Local(header) => {
                let len = self.variable.len();
                let extra = vstd::slice::slice_subrange(self.variable.as_slice(), header.name_len as usize, len);
                let zip64 = header.needs_zip64();
                let sizes = match header.sizes(extra) {
                    Err(fault) => return Err(fault),
                    Ok(sizes) => sizes,
                };
                let header_len = 30 + len;
                let step = Step {
                    large: if sizes.compressed >= GENERIC_CDC_CHUNK_MIN_BYTES as u64 { Some(header_len) } else { None },
                    name_len: Some(header.name_len as usize),
                };
                if header.has_descriptor() && sizes.compressed == 0 {
                    self.state = State::DataScan { consumed: 0, method: header.method, zip64 };
                    self.pending.clear();
                    assert(self.pending@ =~= Seq::<u8>::empty());
                    return Ok(step);
                }
                match sizes.check(header.method) {
                    Err(fault) => return Err(fault),
                    Ok(()) => {},
                }
                if header.has_descriptor() {
                    self.state = State::Data {
                        remaining: sizes.compressed,
                        total: sizes.compressed,
                        method: header.method,
                        descriptor: Some(zip64),
                    };
                } else if sizes.compressed == 0 {
                    self.to_signature();
                } else {
                    self.state = State::Data {
                        remaining: sizes.compressed,
                        total: sizes.compressed,
                        method: header.method,
                        descriptor: None,
                    };
                }
                Ok(step)
            },
            Variable::Central(header) => {
                let name_end = header.name_len as usize;
                let extra = vstd::slice::slice_subrange(
                    self.variable.as_slice(),
                    name_end,
                    name_end + header.extra_len as usize,
                );
                let (sizes, local_offset) = match header.resolve(extra) {
                    Err(fault) => return Err(fault),
                    Ok(resolved) => resolved,
                };
                match sizes.check(header.method) {
                    Err(fault) => return Err(fault),
                    Ok(()) => {},
                }
                match self.central_start {
                    None => Err(ZipFault::RecordOutOfSequence),
                    Some(cs) => {
                        if local_offset >= cs {
                            Err(ZipFault::CentralOffsetOutOfRange)
                        } else {
                            self.to_signature();
                            Ok(quiet_step())
                        }
                    },
                }
            },
        }
    }

    /// Scan the descriptor lookahead of an unknown-size member.
    fn scan(&mut self, consumed: u64, method: u16, zip64: bool) -> (result: Result<(bool, u64), ZipFault>)
        requires
            old(self)@.pending.len() <= 4 + body_len(zip64),
            consumed + old(self)@.pending.len() <= u64::MAX,
        ensures
            final(self)@ == (WalkerModel { pending: final(self)@.pending, ..old(self)@ }),
            match result {
                Ok((closed, counted)) => scan_spec(old(self)@.pending, consumed, method, zip64) == Ok::<ScanOut, ZipFault>(
                    ScanOut { closed, pending: final(self)@.pending, consumed: counted }),
                Err(fault) => scan_spec(old(self)@.pending, consumed, method, zip64) == Err::<ScanOut, ZipFault>(fault),
            },
        decreases old(self)@.pending.len(),
    {
        let len = self.pending.len();
        let looks = len < 4 || u32_at(self.pending.as_slice(), 0) == DATA_DESCRIPTOR_SIG;
        let body = if zip64 { 20usize } else { 12usize };
        let full = len >= 4 + body;
        if looks && full {
            let body_bytes = vstd::slice::slice_subrange(self.pending.as_slice(), 4, 4 + body);
            let (compressed, uncompressed) = descriptor_sizes(body_bytes, zip64);
            if compressed == consumed {
                let sizes = MemberSizes { compressed: consumed, uncompressed };
                match sizes.check(method) {
                    Err(fault) => return Err(fault),
                    Ok(()) => {},
                }
                self.pending.clear();
                assert(self.pending@ =~= Seq::<u8>::empty());
                return Ok((true, consumed));
            }
        } else if looks {
            return Ok((false, consumed));
        }
        if len <= 1 {
            self.pending.clear();
            assert(self.pending@ =~= Seq::<u8>::empty());
            return Ok((false, consumed + 1));
        }
        self.pending.remove(0);
        assert(self.pending@ =~= old(self)@.pending.drop_first());
        self.scan(consumed + 1, method, zip64)
    }

    /// A known-size member's descriptor: the signature is optional, so
    /// the layout is decided once four bytes are in.
    fn try_close_descriptor(&mut self, zip64: bool, data_len: u64, method: u16) -> (result: Result<(), ZipFault>)
        ensures
            final(self)@.offset == old(self)@.offset,
            match result {
                Ok(()) => descriptor_spec(old(self)@, zip64, data_len, method) == Ok::<WalkerModel, ZipFault>(final(self)@),
                Err(fault) => descriptor_spec(old(self)@, zip64, data_len, method) == Err::<WalkerModel, ZipFault>(fault),
            },
    {
        let len = self.fixed.len();
        let signed = len >= 4 && u32_at(self.fixed.as_slice(), 0) == DATA_DESCRIPTOR_SIG;
        let body = if zip64 { 20usize } else { 12usize };
        let total = if signed { 4 + body } else { body };
        if len < 4 || len < total {
            return Ok(());
        }
        let body_bytes = if signed {
            vstd::slice::slice_subrange(self.fixed.as_slice(), 4, total)
        } else {
            vstd::slice::slice_subrange(self.fixed.as_slice(), 0, total)
        };
        let (compressed, uncompressed) = descriptor_sizes(body_bytes, zip64);
        if compressed != data_len {
            return Err(ZipFault::DescriptorSizeMismatch);
        }
        let sizes = MemberSizes { compressed: data_len, uncompressed };
        match sizes.check(method) {
            Err(fault) => return Err(fault),
            Ok(()) => {},
        }
        self.to_signature();
        Ok(())
    }
}


/// Walking `a + b` is walking `a`, then `b` from where `a` left off.
pub proof fn lemma_walk_split(w: WalkerModel, a: Seq<u8>, b: Seq<u8>)
    ensures
        walk_spec(w, a + b) == match walk_spec(w, a) {
            Err(fault) => Err(fault),
            Ok(w1) => walk_spec(w1, b),
        },
    decreases b.len(),
{
    if b.len() == 0 {
        assert(a + b =~= a);
    } else {
        lemma_walk_split(w, a, b.drop_last());
        assert((a + b).drop_last() =~= a + b.drop_last());
        assert((a + b).last() == b.last());
    }
}

/// After a complete archive, any further byte is rejected.
proof fn lemma_walk_after_complete(w: WalkerModel, b: Seq<u8>)
    requires
        walk_complete(w),
        b.len() > 0,
    ensures
        walk_spec(w, b) is Err,
    decreases b.len(),
{
    if b.len() > 1 {
        lemma_walk_after_complete(w, b.drop_last());
    } else {
        assert(b.drop_last() =~= Seq::<u8>::empty());
        assert(walk_spec(w, b.drop_last()) == Ok::<WalkerModel, ZipFault>(w));
        assert(step_spec(w, b.last()) is Err);
        assert(consume_spec(w, b.last()) is Err);
    }
}

/// Every proper prefix of a well-formed archive is incomplete: a
/// walk that accepts the whole archive and ends complete accepts each
/// proper prefix without ending complete, so `finish` reports the
/// prefix truncated.
pub proof fn lemma_proper_prefix_is_truncated(bytes: Seq<u8>, n: int)
    requires
        walk_spec(initial_walker(), bytes) matches Ok(w) && walk_complete(w),
        0 <= n < bytes.len(),
    ensures
        walk_spec(initial_walker(), bytes.subrange(0, n)) matches Ok(w1) && !walk_complete(w1),
{
    let a = bytes.subrange(0, n);
    let b = bytes.subrange(n, bytes.len() as int);
    assert(a + b =~= bytes);
    lemma_walk_split(initial_walker(), a, b);
    match walk_spec(initial_walker(), a) {
        Err(_) => {},
        Ok(w1) => {
            if walk_complete(w1) {
                lemma_walk_after_complete(w1, b);
            }
        },
    }
}

} // verus!
