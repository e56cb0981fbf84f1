//! The gzip wrapper: header and trailer framing over a raw-deflate
//! inflater. Concatenated gzip members decompress to one logical
//! stream, per the format's semantics.

use miniz_oxide::inflate::stream::InflateState;
use vstd::prelude::*;
use vstd::slice::slice_subrange;

use crate::decompose::fault::OpaqueReason;
use crate::decompose::writer::gzip::gzip_header_spec;
use crate::decompose::writer::zip::{crc32_of, crc_input};
use crate::office::canonical::{le16_bytes, le32_bytes};
use crate::inflate::{
    inflate_call, inflate_round, inflater_with_window_bits, new_inflater, DrainFlush, RoundStatus, MAX_ROUNDS,
    OUT_BYTES, RAW_WINDOW_BITS,
};
use crate::zip::records::{le16, le32, u16_at, u32_at};

verus! {

/// Longest FNAME field retained.
pub const NAME_MAX: usize = 4096;

/// FHCRC: a header CRC-16 follows the optional parts.
pub const FLAG_FHCRC: u8 = 2;
/// FEXTRA: an extra field follows the fixed header.
pub const FLAG_FEXTRA: u8 = 4;
/// FNAME: a NUL-terminated original name.
pub const FLAG_FNAME: u8 = 8;
/// FCOMMENT: a NUL-terminated comment.
pub const FLAG_FCOMMENT: u8 = 16;

/// What the reader is collecting.
#[derive(Debug, Clone, Copy, PartialEq, Eq, Structural)]
pub enum GzipState {
    /// Fixed 10-byte header; `len` collected.
    Header { len: usize },
    /// FEXTRA: two length bytes then the payload.
    ExtraLen { len: usize },
    /// FEXTRA payload bytes still to skip.
    Extra { remaining: usize },
    /// NUL-terminated FNAME.
    Name,
    /// NUL-terminated FCOMMENT.
    Comment,
    /// FHCRC: two bytes.
    HeaderCrc { len: usize },
    /// The deflate body.
    Body,
    /// The 8-byte CRC32 + ISIZE trailer.
    Trailer { len: usize },
    /// After a trailer: end of input, or another concatenated
    /// member's header.
    Between,
}

/// The optional header parts, in wire order after the fixed header.
#[derive(Debug, Clone, Copy, PartialEq, Eq, Structural)]
pub enum HeaderPart {
    /// The fixed 10-byte header.
    Fixed,
    /// FEXTRA.
    Extra,
    /// FNAME.
    Name,
    /// FCOMMENT.
    Comment,
}

/// A header part's place in wire order.
pub open spec fn part_rank(part: HeaderPart) -> int {
    match part {
        HeaderPart::Fixed => 0,
        HeaderPart::Extra => 1,
        HeaderPart::Name => 2,
        HeaderPart::Comment => 3,
    }
}

/// The state after header part `done`: the first flagged optional
/// part strictly after it, else the header CRC, else the body.
pub open spec fn next_part_spec(flags: u8, done: HeaderPart) -> GzipState {
    if part_rank(done) < 1 && flags & FLAG_FEXTRA != 0 {
        GzipState::ExtraLen { len: 0 }
    } else if part_rank(done) < 2 && flags & FLAG_FNAME != 0 {
        GzipState::Name
    } else if part_rank(done) < 3 && flags & FLAG_FCOMMENT != 0 {
        GzipState::Comment
    } else if flags & FLAG_FHCRC != 0 {
        GzipState::HeaderCrc { len: 0 }
    } else {
        GzipState::Body
    }
}

/// The reader, as a mathematical value.
pub struct GzipModel {
    /// What the reader is collecting.
    pub state: GzipState,
    /// The fixed-header bytes collected for the current member.
    pub header: Seq<u8>,
    /// The current member's FLG byte.
    pub flags: u8,
    /// The FEXTRA length or trailer bytes collected.
    pub scratch: Seq<u8>,
    /// The first member's FNAME bytes.
    pub name: Seq<u8>,
    /// Whether the current member is the first.
    pub first_member: bool,
    /// The current member's inflater.
    pub inflater: Box<InflateState>,
    /// The bytes the current member has decompressed to.
    pub member: Seq<u8>,
    /// Decompressed bytes not yet taken.
    pub pending: Seq<u8>,
    /// Compressed bytes taken so far.
    pub offset: u64,
}

/// A fresh reader.
pub open spec fn gzip_initial() -> GzipModel {
    GzipModel {
        state: GzipState::Header { len: 0 },
        header: Seq::empty(),
        flags: 0,
        scratch: Seq::empty(),
        name: Seq::empty(),
        first_member: true,
        inflater: inflater_with_window_bits(RAW_WINDOW_BITS),
        member: Seq::empty(),
        pending: Seq::empty(),
        offset: 0,
    }
}

/// A structural rejection at the reader's offset.
pub open spec fn gzip_malformed(m: GzipModel, detail: &'static str) -> OpaqueReason {
    OpaqueReason::Malformed { detail, offset: m.offset }
}

/// The reader as it begins a concatenated member.
pub open spec fn member_reset(m: GzipModel) -> GzipModel {
    GzipModel {
        state: GzipState::Header { len: 0 },
        header: Seq::empty(),
        inflater: inflater_with_window_bits(RAW_WINDOW_BITS),
        member: Seq::empty(),
        first_member: false,
        ..m
    }
}

/// One framing byte (every state but the body and `Between`).
pub open spec fn frame_byte(m: GzipModel, byte: u8) -> Result<GzipModel, OpaqueReason> {
    match m.state {
        GzipState::Header { len } => {
            let h = m.header.push(byte);
            if len + 1 < 10 {
                Ok(GzipModel { state: GzipState::Header { len: (len + 1) as usize }, header: h, ..m })
            } else if h[0] != 0x1F || h[1] != 0x8B {
                Err(gzip_malformed(m, "not a gzip header"))
            } else if h[2] != 8 {
                Err(OpaqueReason::UnsupportedCompression)
            } else if h[3] & 0xE0 != 0 {
                Err(gzip_malformed(m, "reserved gzip flag bits set"))
            } else {
                Ok(GzipModel { state: next_part_spec(h[3], HeaderPart::Fixed), header: h, flags: h[3], ..m })
            }
        },
        GzipState::ExtraLen { len } => {
            let s = m.scratch.push(byte);
            if len + 1 < 2 {
                Ok(GzipModel { state: GzipState::ExtraLen { len: (len + 1) as usize }, scratch: s, ..m })
            } else if le16(s, 0) == 0 {
                Ok(GzipModel { state: next_part_spec(m.flags, HeaderPart::Extra), scratch: Seq::empty(), ..m })
            } else {
                Ok(
                    GzipModel {
                        state: GzipState::Extra { remaining: le16(s, 0) as usize },
                        scratch: Seq::empty(),
                        ..m
                    },
                )
            }
        },
        GzipState::Extra { remaining } => {
            if remaining <= 1 {
                Ok(GzipModel { state: next_part_spec(m.flags, HeaderPart::Extra), ..m })
            } else {
                Ok(GzipModel { state: GzipState::Extra { remaining: (remaining - 1) as usize }, ..m })
            }
        },
        GzipState::Name => {
            if byte == 0 {
                Ok(GzipModel { state: next_part_spec(m.flags, HeaderPart::Name), ..m })
            } else if !m.first_member {
                Ok(m)
            } else if m.name.len() >= NAME_MAX {
                Err(OpaqueReason::MetadataOverBound)
            } else {
                Ok(GzipModel { name: m.name.push(byte), ..m })
            }
        },
        GzipState::Comment => {
            if byte == 0 {
                Ok(GzipModel { state: next_part_spec(m.flags, HeaderPart::Comment), ..m })
            } else {
                Ok(m)
            }
        },
        GzipState::HeaderCrc { len } => {
            if len + 1 < 2 {
                Ok(GzipModel { state: GzipState::HeaderCrc { len: (len + 1) as usize }, ..m })
            } else {
                Ok(GzipModel { state: GzipState::Body, ..m })
            }
        },
        GzipState::Trailer { len } => {
            let s = m.scratch.push(byte);
            if len + 1 < 8 {
                Ok(GzipModel { state: GzipState::Trailer { len: (len + 1) as usize }, scratch: s, ..m })
            } else if le32(s, 0) != crc32_of(m.member) as int {
                Err(gzip_malformed(m, "gzip CRC mismatch"))
            } else if le32(s, 4) != m.member.len() % 0x1_0000_0000 {
                Err(gzip_malformed(m, "gzip ISIZE mismatch"))
            } else {
                Ok(GzipModel { state: GzipState::Between, scratch: Seq::empty(), ..m })
            }
        },
        _ => Ok(m),
    }
}

/// One byte outside the body: a byte after a trailer begins the next
/// member's header.
pub open spec fn gzip_byte_spec(m: GzipModel, byte: u8) -> Result<GzipModel, OpaqueReason> {
    if m.state is Between {
        frame_byte(member_reset(m), byte)
    } else {
        frame_byte(m, byte)
    }
}

/// Framing bytes taken one at a time, as `push` takes them (each
/// accepted byte advances the offset).
pub open spec fn gzip_frames(m: GzipModel, bytes: Seq<u8>) -> Result<GzipModel, OpaqueReason>
    decreases bytes.len(),
{
    if bytes.len() == 0 {
        Ok(m)
    } else {
        match gzip_byte_spec(m, bytes[0]) {
            Ok(n) => gzip_frames(GzipModel { offset: (n.offset + 1) as u64, ..n }, bytes.drop_first()),
            Err(e) => Err(e),
        }
    }
}

/// A 16-bit little-endian value reads back.
pub proof fn lemma_le16_reads_back(v: u16)
    ensures
        le16(le16_bytes(v), 0) == v,
{
}

/// A 32-bit little-endian value reads back.
pub proof fn lemma_le32_reads_back(v: u32)
    ensures
        le32(le32_bytes(v), 0) == v,
{
    let lo = (v % 65536) as u16;
    let hi = (v / 65536) as u16;
    lemma_le16_reads_back(lo);
    lemma_le16_reads_back(hi);
    let s = le32_bytes(v);
    assert(le16(s, 0) == le16(le16_bytes(lo), 0));
    assert(le16(s, 2) == le16(le16_bytes(hi), 0));
}

/// The reader part-way through the canonical header.
pub open spec fn header_reading(i: int) -> GzipModel {
    GzipModel {
        state: GzipState::Header { len: i as usize },
        header: gzip_header_spec().subrange(0, i),
        offset: i as u64,
        ..gzip_initial()
    }
}

/// The rest of the canonical header, from any point in it, takes the
/// reader into the body.
proof fn lemma_header_rest(i: int)
    requires
        0 <= i < 10,
    ensures
        gzip_frames(header_reading(i), gzip_header_spec().subrange(i, 10)) == Ok::<GzipModel, OpaqueReason>(
            GzipModel { state: GzipState::Body, header: gzip_header_spec(), offset: 10, ..gzip_initial() },
        ),
    decreases 10 - i,
{
    let h = gzip_header_spec();
    let rest = h.subrange(i, 10);
    assert(rest[0] == h[i]);
    assert(rest.drop_first() =~= h.subrange(i + 1, 10));
    assert(h.subrange(0, i).push(h[i]) =~= h.subrange(0, i + 1));
    let m = header_reading(i);
    if i < 9 {
        let n = GzipModel { state: GzipState::Header { len: (i + 1) as usize }, header: h.subrange(0, i + 1), ..m };
        assert(gzip_byte_spec(m, h[i]) == Ok::<GzipModel, OpaqueReason>(n));
        assert(GzipModel { offset: (n.offset + 1) as u64, ..n } == header_reading(i + 1));
        assert(gzip_frames(m, rest) == gzip_frames(header_reading(i + 1), rest.drop_first()));
        lemma_header_rest(i + 1);
    } else {
        assert(h.subrange(0, 10) =~= h);
        assert(h[3] == 0u8);
        assert(0u8 & 0xE0u8 == 0u8) by (bit_vector);
        assert(0u8 & 4u8 == 0u8) by (bit_vector);
        assert(0u8 & 8u8 == 0u8) by (bit_vector);
        assert(0u8 & 16u8 == 0u8) by (bit_vector);
        assert(0u8 & 2u8 == 0u8) by (bit_vector);
        assert(next_part_spec(0u8, HeaderPart::Fixed) == GzipState::Body);
        let n = GzipModel { state: GzipState::Body, header: h, flags: 0, ..m };
        assert(gzip_byte_spec(m, h[i]) == Ok::<GzipModel, OpaqueReason>(n));
        assert(h.subrange(10, 10) =~= Seq::<u8>::empty());
        assert(rest.drop_first() =~= Seq::<u8>::empty());
        let last = GzipModel { offset: (n.offset + 1) as u64, ..n };
        assert(gzip_frames(m, rest) == gzip_frames(last, rest.drop_first()));
        assert(gzip_frames(last, Seq::<u8>::empty()) == Ok::<GzipModel, OpaqueReason>(last));
    }
}

/// The header the canonical gzip writer emits is one the reader
/// accepts: after its ten bytes a fresh reader is in the deflate body
/// of a first member with no flags.
pub proof fn lemma_writer_header_opens_the_body()
    ensures
        gzip_frames(gzip_initial(), gzip_header_spec()) == Ok::<GzipModel, OpaqueReason>(
            GzipModel { state: GzipState::Body, header: gzip_header_spec(), offset: 10, ..gzip_initial() },
        ),
{
    lemma_header_rest(0);
    assert(gzip_header_spec().subrange(0, 10) =~= gzip_header_spec());
    assert(gzip_header_spec().subrange(0, 0) =~= Seq::<u8>::empty());
    assert(header_reading(0) == gzip_initial());
}

/// The reader part-way through a trailer.
pub open spec fn trailer_reading(m: GzipModel, t: Seq<u8>, i: int) -> GzipModel {
    GzipModel {
        state: GzipState::Trailer { len: i as usize },
        scratch: t.subrange(0, i),
        offset: (m.offset + i) as u64,
        ..m
    }
}

/// The rest of a trailer, from any point in it, closes the member
/// when it carries the member's CRC-32 and length.
proof fn lemma_trailer_rest(m: GzipModel, t: Seq<u8>, i: int)
    requires
        0 <= i < 8,
        t.len() == 8,
        le32(t, 0) == crc32_of(m.member) as int,
        le32(t, 4) == m.member.len() % 0x1_0000_0000,
        m.offset + 8 <= u64::MAX,
    ensures
        gzip_frames(trailer_reading(m, t, i), t.subrange(i, 8)) == Ok::<GzipModel, OpaqueReason>(
            GzipModel { state: GzipState::Between, scratch: Seq::empty(), offset: (m.offset + 8) as u64, ..m },
        ),
    decreases 8 - i,
{
    let rest = t.subrange(i, 8);
    assert(rest[0] == t[i]);
    assert(rest.drop_first() =~= t.subrange(i + 1, 8));
    assert(t.subrange(0, i).push(t[i]) =~= t.subrange(0, i + 1));
    let r = trailer_reading(m, t, i);
    if i < 7 {
        let n = GzipModel { state: GzipState::Trailer { len: (i + 1) as usize }, scratch: t.subrange(0, i + 1), ..r };
        assert(gzip_byte_spec(r, t[i]) == Ok::<GzipModel, OpaqueReason>(n));
        assert(GzipModel { offset: (n.offset + 1) as u64, ..n } == trailer_reading(m, t, i + 1));
        assert(gzip_frames(r, rest) == gzip_frames(trailer_reading(m, t, i + 1), rest.drop_first()));
        lemma_trailer_rest(m, t, i + 1);
    } else {
        assert(t.subrange(0, 8) =~= t);
        let n = GzipModel { state: GzipState::Between, scratch: Seq::empty(), ..r };
        assert(gzip_byte_spec(r, t[i]) == Ok::<GzipModel, OpaqueReason>(n));
        assert(t.subrange(8, 8) =~= Seq::<u8>::empty());
        assert(rest.drop_first() =~= Seq::<u8>::empty());
        let last = GzipModel { offset: (n.offset + 1) as u64, ..n };
        assert(gzip_frames(r, rest) == gzip_frames(last, rest.drop_first()));
        assert(gzip_frames(last, Seq::<u8>::empty()) == Ok::<GzipModel, OpaqueReason>(last));
    }
}

/// The trailer the canonical gzip writer emits for its input is the
/// one the reader accepts after a member that decoded to that input:
/// the CRC-32 and the length modulo 2^32, little-endian, close the
/// member.
pub proof fn lemma_writer_trailer_closes_the_member(m: GzipModel)
    requires
        m.state == (GzipState::Trailer { len: 0 }),
        m.scratch.len() == 0,
        m.offset + 8 <= u64::MAX,
    ensures
        gzip_frames(
            m,
            le32_bytes(crc32_of(m.member)) + le32_bytes((m.member.len() % 0x1_0000_0000) as u32),
        ) == Ok::<GzipModel, OpaqueReason>(
            GzipModel { state: GzipState::Between, scratch: Seq::empty(), offset: (m.offset + 8) as u64, ..m },
        ),
{
    let crc_part = le32_bytes(crc32_of(m.member));
    let len_part = le32_bytes((m.member.len() % 0x1_0000_0000) as u32);
    let t = crc_part + len_part;
    lemma_le32_reads_back(crc32_of(m.member));
    lemma_le32_reads_back((m.member.len() % 0x1_0000_0000) as u32);
    assert(le32(t, 0) == le32(crc_part, 0));
    assert(le32(t, 4) == le32(len_part, 0));
    lemma_trailer_rest(m, t, 0);
    assert(t.subrange(0, 8) =~= t);
    assert(t.subrange(0, 0) =~= Seq::<u8>::empty());
    assert(m.scratch =~= t.subrange(0, 0));
    assert(trailer_reading(m, t, 0) == m);
}

/// What the body does after one inflate call.
#[derive(Debug, Clone, Copy)]
pub enum BodyDecision {
    /// Call again.
    Again,
    /// The byte is taken and its output drained.
    Done,
    /// The deflate stream ended.
    Ended,
    /// The body is rejected, with this detail.
    Fail(&'static str),
}

/// What the body does after an inflate call of `status`, once the
/// byte is `taken`, when the call wrote `written` bytes.
pub open spec fn body_decision(status: RoundStatus, taken: bool, written: nat) -> BodyDecision {
    match status {
        RoundStatus::StreamEnd => BodyDecision::Ended,
        RoundStatus::Progress => if taken && written < OUT_BYTES {
            BodyDecision::Done
        } else {
            BodyDecision::Again
        },
        RoundStatus::BufferError => if taken {
            BodyDecision::Done
        } else {
            BodyDecision::Fail("gzip deflate body ends out of step")
        },
        RoundStatus::Failed => BodyDecision::Fail("gzip deflate body is malformed"),
    }
}

/// The decision after one inflate call of a body byte.
pub fn after_body_round(status: RoundStatus, taken: bool, written: usize) -> (d: BodyDecision)
    ensures
        d == body_decision(status, taken, written as nat),
{
    match status {
        RoundStatus::StreamEnd => BodyDecision::Ended,
        RoundStatus::Progress => if taken && written < OUT_BYTES {
            BodyDecision::Done
        } else {
            BodyDecision::Again
        },
        RoundStatus::BufferError => if taken {
            BodyDecision::Done
        } else {
            BodyDecision::Fail("gzip deflate body ends out of step")
        },
        RoundStatus::Failed => BodyDecision::Fail("gzip deflate body is malformed"),
    }
}

/// One body byte from inflate call `rounds` on: the byte is handed to
/// the inflater until it is taken and the output drained. Gives the
/// inflater, the member's decoded bytes, whether the byte was taken,
/// whether the stream ended, and the rejection detail, if any.
pub open spec fn body_from(state: Box<InflateState>, byte: u8, taken: bool, member: Seq<u8>, rounds: int) -> (
    Box<InflateState>,
    Seq<u8>,
    bool,
    bool,
    Option<&'static str>,
)
    decreases MAX_ROUNDS - rounds,
{
    if rounds >= MAX_ROUNDS {
        (state, member, taken, false, Some("gzip deflate body ends out of step"))
    } else {
        let input = if taken { Seq::<u8>::empty() } else { seq![byte] };
        let call = inflate_call(state, input, OUT_BYTES, DrainFlush::More);
        let next = call.0;
        let o = call.1;
        let took = taken || o.consumed > 0;
        if o.written.len() > 0 && member.len() + o.written.len() > u64::MAX {
            (next, member, took, false, Some("gzip deflate body ends out of step"))
        } else {
            let grown = member + o.written;
            match body_decision(o.status, took, o.written.len()) {
                BodyDecision::Ended => (next, grown, took, true, None),
                BodyDecision::Done => (next, grown, took, false, None),
                BodyDecision::Again => body_from(next, byte, took, grown, rounds + 1),
                BodyDecision::Fail(d) => (next, grown, took, false, Some(d)),
            }
        }
    }
}

/// One body byte: the reader afterwards (each newly decoded byte also
/// pending; when the stream ended, the trailer begins, with this byte
/// when the stream's end handed it back) and the result.
pub open spec fn body_model(m: GzipModel, byte: u8) -> (GzipModel, Result<(), OpaqueReason>) {
    let run = body_from(m.inflater, byte, false, m.member, 0);
    let decoded = GzipModel {
        inflater: run.0,
        member: run.1,
        pending: m.pending + run.1.subrange(m.member.len() as int, run.1.len() as int),
        ..m
    };
    match run.4 {
        Some(d) => (decoded, Err(gzip_malformed(m, d))),
        None => if !run.3 {
            (decoded, Ok(()))
        } else if run.2 {
            (GzipModel { state: GzipState::Trailer { len: 0 }, ..decoded }, Ok(()))
        } else {
            (GzipModel { state: GzipState::Trailer { len: 1 }, scratch: seq![byte], ..decoded }, Ok(()))
        },
    }
}

/// Streaming gzip reader: push compressed bytes, drain decompressed
/// windows.
pub struct GzipReader {
    state: GzipState,
    header: Vec<u8>,
    flags: u8,
    scratch: Vec<u8>,
    name: Vec<u8>,
    first_member: bool,
    inflater: Box<InflateState>,
    crc: crc32fast::Hasher,
    isize_acc: u64,
    pending: Vec<u8>,
    offset: u64,
}

impl View for GzipReader {
    type V = GzipModel;

    closed spec fn view(&self) -> GzipModel {
        GzipModel {
            state: self.state,
            header: self.header@,
            flags: self.flags,
            scratch: self.scratch@,
            name: self.name@,
            first_member: self.first_member,
            inflater: self.inflater,
            member: crc_input(self.crc),
            pending: self.pending@,
            offset: self.offset,
        }
    }
}

/// The internal invariant of a reader model: the collected bytes
/// match the state that collects them.
pub open spec fn gzip_wf(m: GzipModel) -> bool {
    &&& m.name.len() <= NAME_MAX
    &&& match m.state {
        GzipState::Header { len } => len < 10 && m.header.len() == len && m.scratch.len() == 0,
        GzipState::ExtraLen { len } => len < 2 && m.scratch.len() == len,
        GzipState::Trailer { len } => len < 8 && m.scratch.len() == len,
        GzipState::HeaderCrc { len } => len < 2 && m.scratch.len() == 0,
        _ => m.scratch.len() == 0,
    }
}

impl GzipReader {
    /// The internal invariant: the model's is kept, and the ISIZE
    /// counter is the member's decoded length.
    pub closed spec fn wf(&self) -> bool {
        &&& gzip_wf(self@)
        &&& self.isize_acc == crc_input(self.crc).len()
    }

    /// A fresh reader.
    pub fn new() -> (reader: Self)
        ensures
            reader.wf(),
            reader@ == gzip_initial(),
    {
        let reader = GzipReader {
            state: GzipState::Header { len: 0 },
            header: Vec::new(),
            flags: 0,
            scratch: Vec::new(),
            name: Vec::new(),
            first_member: true,
            inflater: new_inflater(RAW_WINDOW_BITS),
            crc: crc32fast::Hasher::new(),
            isize_acc: 0,
            pending: Vec::new(),
            offset: 0,
        };
        assert(reader@.header =~= Seq::<u8>::empty());
        assert(reader@.scratch =~= Seq::<u8>::empty());
        assert(reader@.name =~= Seq::<u8>::empty());
        assert(reader@.pending =~= Seq::<u8>::empty());
        reader
    }

    /// The first member's stored original name, if any.
    pub fn stored_name(&self) -> (name: Option<&[u8]>)
        ensures
            self@.name.len() == 0 ==> name is None,
            self@.name.len() > 0 ==> (name matches Some(n) && n@ == self@.name),
    {
        if self.name.len() == 0 {
            None
        } else {
            Some(self.name.as_slice())
        }
    }

    /// Decompressed bytes produced since the last take.
    pub fn take_pending(&mut self) -> (bytes: Vec<u8>)
        requires
            old(self).wf(),
        ensures
            final(self).wf(),
            bytes@ == old(self)@.pending,
            final(self)@ == (GzipModel { pending: Seq::empty(), ..old(self)@ }),
    {
        let mut bytes: Vec<u8> = Vec::new();
        std::mem::swap(&mut bytes, &mut self.pending);
        assert(self@.pending =~= Seq::<u8>::empty());
        bytes
    }

    /// Push one compressed byte.
    pub fn push(&mut self, byte: u8) -> (r: Result<(), OpaqueReason>)
        requires
            old(self).wf(),
            old(self)@.offset < u64::MAX,
        ensures
            r is Ok ==> final(self).wf(),
            !(old(self)@.state is Body) ==> match gzip_byte_spec(old(self)@, byte) {
                Ok(m) => r is Ok && final(self)@ == (GzipModel { offset: (m.offset + 1) as u64, ..m }),
                Err(e) => r == Err::<(), OpaqueReason>(e),
            },
            old(self)@.state is Body ==> ({
                let b = body_model(old(self)@, byte);
                &&& r == b.1
                &&& r is Ok ==> final(self)@ == (GzipModel { offset: (old(self)@.offset + 1) as u64, ..b.0 })
            }),
    {
        let r = self.step(byte);
        if r.is_ok() {
            self.offset = self.offset + 1;
        }
        r
    }

    /// The compressed input ended.
    pub fn finish(&self) -> (r: Result<(), OpaqueReason>)
        ensures
            self@.state is Between ==> r is Ok,
            !(self@.state is Between) ==> r == Err::<(), OpaqueReason>(
                gzip_malformed(self@, "gzip stream is truncated"),
            ),
    {
        match self.state {
            GzipState::Between => Ok(()),
            _ => Err(self.malformed("gzip stream is truncated")),
        }
    }

    fn malformed(&self, detail: &'static str) -> (reason: OpaqueReason)
        ensures
            reason == gzip_malformed(self@, detail),
    {
        OpaqueReason::Malformed { detail, offset: self.offset }
    }

    /// The state after header part `done`.
    fn next_part(&self, done: HeaderPart) -> (state: GzipState)
        ensures
            state == next_part_spec(self.flags, done),
    {
        let rank: u8 = match done {
            HeaderPart::Fixed => 0,
            HeaderPart::Extra => 1,
            HeaderPart::Name => 2,
            HeaderPart::Comment => 3,
        };
        if rank < 1 && self.flags & FLAG_FEXTRA != 0 {
            return GzipState::ExtraLen { len: 0 };
        }
        if rank < 2 && self.flags & FLAG_FNAME != 0 {
            return GzipState::Name;
        }
        if rank < 3 && self.flags & FLAG_FCOMMENT != 0 {
            return GzipState::Comment;
        }
        if self.flags & FLAG_FHCRC != 0 {
            return GzipState::HeaderCrc { len: 0 };
        }
        GzipState::Body
    }

    fn step(&mut self, byte: u8) -> (r: Result<(), OpaqueReason>)
        requires
            old(self).wf(),
        ensures
            r is Ok ==> final(self).wf(),
            !(old(self)@.state is Body) ==> match gzip_byte_spec(old(self)@, byte) {
                Ok(m) => r is Ok && final(self)@ == m,
                Err(e) => r == Err::<(), OpaqueReason>(e),
            },
            old(self)@.state is Body ==> (final(self)@, r) == body_model(old(self)@, byte),
    {
        match self.state {
            GzipState::Body => self.body_byte(byte),
            GzipState::Between => {
                // A concatenated member: reset per-member state and
                // re-enter the header with this byte.
                self.inflater = new_inflater(RAW_WINDOW_BITS);
                self.crc = crc32fast::Hasher::new();
                self.isize_acc = 0;
                self.first_member = false;
                self.header.clear();
                self.state = GzipState::Header { len: 0 };
                assert(self@ == member_reset(old(self)@));
                self.frame(byte)
            },
            _ => self.frame(byte),
        }
    }

    /// One framing byte.
    fn frame(&mut self, byte: u8) -> (r: Result<(), OpaqueReason>)
        requires
            old(self).wf(),
            !(old(self)@.state is Body),
            !(old(self)@.state is Between),
        ensures
            r is Ok ==> final(self).wf(),
            match frame_byte(old(self)@, byte) {
                Ok(m) => r is Ok && final(self)@ == m,
                Err(e) => r == Err::<(), OpaqueReason>(e),
            },
    {
        match self.state {
            GzipState::Header { len } => {
                self.header.push(byte);
                if len + 1 < 10 {
                    self.state = GzipState::Header { len: len + 1 };
                    return Ok(());
                }
                if self.header[0] != 0x1F || self.header[1] != 0x8B {
                    return Err(self.malformed("not a gzip header"));
                }
                if self.header[2] != 8 {
                    return Err(OpaqueReason::UnsupportedCompression);
                }
                self.flags = self.header[3];
                if self.flags & 0xE0 != 0 {
                    return Err(self.malformed("reserved gzip flag bits set"));
                }
                self.state = self.next_part(HeaderPart::Fixed);
                Ok(())
            },
            GzipState::ExtraLen { len } => {
                self.scratch.push(byte);
                if len + 1 < 2 {
                    self.state = GzipState::ExtraLen { len: len + 1 };
                    return Ok(());
                }
                let total = u16_at(self.scratch.as_slice(), 0) as usize;
                self.scratch.clear();
                self.state = if total == 0 {
                    self.next_part(HeaderPart::Extra)
                } else {
                    GzipState::Extra { remaining: total }
                };
                assert(self@.scratch =~= Seq::<u8>::empty());
                Ok(())
            },
            GzipState::Extra { remaining } => {
                self.state = if remaining <= 1 {
                    self.next_part(HeaderPart::Extra)
                } else {
                    GzipState::Extra { remaining: remaining - 1 }
                };
                Ok(())
            },
            GzipState::Name => {
                if byte == 0 {
                    self.state = self.next_part(HeaderPart::Name);
                    return Ok(());
                }
                if self.first_member {
                    if self.name.len() >= NAME_MAX {
                        return Err(OpaqueReason::MetadataOverBound);
                    }
                    self.name.push(byte);
                }
                Ok(())
            },
            GzipState::Comment => {
                if byte == 0 {
                    self.state = self.next_part(HeaderPart::Comment);
                }
                Ok(())
            },
            GzipState::HeaderCrc { len } => {
                self.state = if len + 1 < 2 {
                    GzipState::HeaderCrc { len: len + 1 }
                } else {
                    GzipState::Body
                };
                Ok(())
            },
            GzipState::Trailer { len } => {
                self.scratch.push(byte);
                if len + 1 < 8 {
                    self.state = GzipState::Trailer { len: len + 1 };
                    return Ok(());
                }
                let crc = u32_at(self.scratch.as_slice(), 0);
                let declared_isize = u32_at(self.scratch.as_slice(), 4);
                if crc != self.crc.clone().finalize() {
                    return Err(self.malformed("gzip CRC mismatch"));
                }
                let actual = (self.isize_acc % 0x1_0000_0000) as u32;
                if declared_isize != actual {
                    return Err(self.malformed("gzip ISIZE mismatch"));
                }
                self.scratch.clear();
                self.state = GzipState::Between;
                assert(self@.scratch =~= Seq::<u8>::empty());
                Ok(())
            },
            _ => Ok(()),
        }
    }

    /// One body byte: inflate it and take what it decodes to.
    fn body_byte(&mut self, byte: u8) -> (r: Result<(), OpaqueReason>)
        requires
            old(self).wf(),
            old(self)@.state is Body,
        ensures
            final(self).wf(),
            (final(self)@, r) == body_model(old(self)@, byte),
    {
        let ghost before = self@;
        let ghost target = body_from(self.inflater, byte, false, crc_input(self.crc), 0);
        let mut one: Vec<u8> = Vec::new();
        one.push(byte);
        let mut taken = false;
        let mut ended = false;
        let mut rounds: u64 = 0;
        let mut fault: Option<&'static str> = None;
        proof {
            assert(before.member.subrange(0, before.member.len() as int) =~= before.member);
            assert(before.pending + before.member.subrange(
                before.member.len() as int,
                before.member.len() as int,
            ) =~= before.pending);
        }
        loop
            invariant_except_break
                fault is None,
                !ended,
                body_from(self.inflater, byte, taken, crc_input(self.crc), rounds as int) == target,
            invariant
                one@ == seq![byte],
                rounds <= MAX_ROUNDS,
                self.isize_acc == crc_input(self.crc).len(),
                self@ == (GzipModel {
                    inflater: self@.inflater,
                    member: self@.member,
                    pending: self@.pending,
                    ..before
                }),
                before.member.len() <= self@.member.len(),
                self@.member.subrange(0, before.member.len() as int) == before.member,
                self@.pending == before.pending + self@.member.subrange(
                    before.member.len() as int,
                    self@.member.len() as int,
                ),
            ensures
                self.inflater == target.0,
                crc_input(self.crc) == target.1,
                taken == target.2,
                ended == target.3,
                fault == target.4,
            decreases MAX_ROUNDS - rounds,
        {
            if rounds >= MAX_ROUNDS {
                fault = Some("gzip deflate body ends out of step");
                break;
            }
            let ghost prev_member = crc_input(self.crc);
            rounds = rounds + 1;
            let from: usize = if taken { 1 } else { 0 };
            let input = slice_subrange(one.as_slice(), from, 1);
            assert(input@ =~= (if taken { Seq::<u8>::empty() } else { seq![byte] }));
            let mut round = inflate_round(&mut self.inflater, input, DrainFlush::More);
            if round.consumed > 0 {
                taken = true;
            }
            let written = round.written.len();
            if written > 0 {
                if self.isize_acc > u64::MAX - written as u64 {
                    fault = Some("gzip deflate body ends out of step");
                    break;
                }
                let ghost old_member = crc_input(self.crc);
                let ghost bytes = round.written@;
                self.crc.update(round.written.as_slice());
                self.pending.append(&mut round.written);
                self.isize_acc = self.isize_acc + written as u64;
                proof {
                    let d = crc_input(self.crc);
                    assert(d == old_member + bytes);
                    assert(d.subrange(0, before.member.len() as int) =~= before.member);
                    assert(self@.pending =~= before.pending + d.subrange(
                        before.member.len() as int,
                        d.len() as int,
                    ));
                }
            } else {
                assert(prev_member + Seq::<u8>::empty() =~= prev_member);
            }
            match after_body_round(round.status, taken, written) {
                BodyDecision::Ended => {
                    ended = true;
                    break;
                },
                BodyDecision::Done => {
                    break;
                },
                BodyDecision::Again => {},
                BodyDecision::Fail(detail) => {
                    fault = Some(detail);
                    break;
                },
            }
        }
        if let Some(detail) = fault {
            return Err(self.malformed(detail));
        }
        if ended {
            self.state = GzipState::Trailer { len: 0 };
            if !taken {
                self.scratch.push(byte);
                self.state = GzipState::Trailer { len: 1 };
                assert(self@.scratch =~= seq![byte]);
            }
        }
        Ok(())
    }
}

} // verus!
