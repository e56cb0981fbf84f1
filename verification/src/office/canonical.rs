//! The canonical package emitter: deterministic ZIP records for the
//! `ooxml-v1` canonical form.
//!
//! Frozen canonical form v1: members in original order with original
//! name bytes; method STORE; timestamps, internal and external
//! attributes, and extra fields zeroed (except the ZIP64 sizes a
//! large member requires); known-size members carry their sizes and
//! CRC in the local header, unknown-size members use a signed 32-bit
//! data descriptor; the central directory and end records follow the
//! same zeroing, with ZIP64 records only when a count, size, or
//! offset requires them.

use vstd::prelude::*;

use crate::zip::records::{le16, le32};

verus! {

broadcast use vstd::seq_lib::group_seq_properties;

/// The general-purpose flag of a data-descriptor member.
pub const FLAG_DESCRIPTOR: u16 = 8;
/// The general-purpose flag of UTF-8 names.
pub const FLAG_UTF8: u16 = 2048;
/// Version 4.5 (ZIP64).
pub const VERSION_ZIP64: u16 = 45;
/// Version 2.0.
pub const VERSION_PLAIN: u16 = 20;

/// One member's central-directory facts.
pub struct CentralEntry {
    /// The name bytes.
    pub name: Vec<u8>,
    /// The UTF-8 flag.
    pub utf8: bool,
    /// The CRC-32 of the member's canonical bytes.
    pub crc: u32,
    /// The member's canonical length.
    pub len: u64,
    /// Where the member's local header begins.
    pub offset: u64,
    /// The member closes with a data descriptor.
    pub descriptor: bool,
}

/// A central entry as a mathematical value.
pub struct EntryModel {
    /// The name bytes.
    pub name: Seq<u8>,
    /// The UTF-8 flag.
    pub utf8: bool,
    /// The CRC-32.
    pub crc: u32,
    /// The canonical length.
    pub len: u64,
    /// The local header's offset.
    pub offset: u64,
    /// Descriptor mode.
    pub descriptor: bool,
}

impl View for CentralEntry {
    type V = EntryModel;

    open spec fn view(&self) -> EntryModel {
        EntryModel {
            name: self.name@,
            utf8: self.utf8,
            crc: self.crc,
            len: self.len,
            offset: self.offset,
            descriptor: self.descriptor,
        }
    }
}

/// A 16-bit value, little-endian.
pub open spec fn le16_bytes(value: u16) -> Seq<u8> {
    seq![(value % 256) as u8, (value / 256) as u8]
}

/// A 32-bit value, little-endian.
pub open spec fn le32_bytes(value: u32) -> Seq<u8> {
    le16_bytes((value % 65536) as u16) + le16_bytes((value / 65536) as u16)
}

/// A 64-bit value, little-endian.
pub open spec fn le64_bytes(value: u64) -> Seq<u8> {
    le32_bytes((value % 4294967296) as u32) + le32_bytes((value / 4294967296) as u32)
}

/// A length that needs the ZIP64 sizes.
pub open spec fn needs_zip64_len_spec(len: u64) -> bool {
    len >= u32::MAX
}

/// A name length as the 16-bit field carries it.
pub open spec fn name_len16(name: Seq<u8>) -> u16 {
    (name.len() % 65536) as u16
}

/// The canonical local header for a member whose decoded size and
/// CRC are known.
pub open spec fn local_header_known_spec(name: Seq<u8>, utf8: bool, crc: u32, len: u64) -> Seq<u8> {
    let zip64 = needs_zip64_len_spec(len);
    seq![0x50u8, 0x4Bu8, 0x03u8, 0x04u8] + le16_bytes(if zip64 { VERSION_ZIP64 } else { VERSION_PLAIN })
        + le16_bytes(if utf8 { FLAG_UTF8 } else { 0 }) + le16_bytes(0) + le16_bytes(0) + le16_bytes(0) + le32_bytes(crc)
        + (if zip64 {
            le32_bytes(u32::MAX) + le32_bytes(u32::MAX)
        } else {
            le32_bytes(len as u32) + le32_bytes(len as u32)
        }) + le16_bytes(name_len16(name)) + le16_bytes(if zip64 { 20 } else { 0 }) + name
        + (if zip64 { le16_bytes(1) + le16_bytes(16) + le64_bytes(len) + le64_bytes(len) } else { Seq::empty() })
}

/// The canonical local header for an unknown-size member: zero
/// sizes, descriptor flag.
pub open spec fn local_header_unknown_spec(name: Seq<u8>, utf8: bool) -> Seq<u8> {
    seq![0x50u8, 0x4Bu8, 0x03u8, 0x04u8] + le16_bytes(VERSION_PLAIN)
        + le16_bytes(if utf8 { (FLAG_DESCRIPTOR + FLAG_UTF8) as u16 } else { FLAG_DESCRIPTOR }) + le16_bytes(0)
        + le16_bytes(0) + le16_bytes(0) + le32_bytes(0) + le32_bytes(0) + le32_bytes(0) + le16_bytes(name_len16(name))
        + le16_bytes(0) + name
}

/// The signed 32-bit data descriptor closing an unknown-size member.
pub open spec fn descriptor_spec(crc: u32, len: u32) -> Seq<u8> {
    seq![0x50u8, 0x4Bu8, 0x07u8, 0x08u8] + le32_bytes(crc) + le32_bytes(len) + le32_bytes(len)
}

/// The ZIP64 extra field's length in a central header.
pub open spec fn central_extra_len(entry: EntryModel) -> nat {
    let zip64_len = needs_zip64_len_spec(entry.len);
    let zip64_offset = entry.offset >= u32::MAX;
    if zip64_len || zip64_offset {
        4 + (if zip64_len { 16nat } else { 0 }) + (if zip64_offset { 8nat } else { 0 })
    } else {
        0
    }
}

/// Both sizes of a member: the ZIP64 markers, or the 32-bit length
/// twice.
pub open spec fn sizes_field(zip64_len: bool, len: u64) -> Seq<u8> {
    if zip64_len {
        le32_bytes(u32::MAX) + le32_bytes(u32::MAX)
    } else {
        le32_bytes(len as u32) + le32_bytes(len as u32)
    }
}

/// A central header's ZIP64 extra field (empty when not needed).
pub open spec fn central_zip64_extra(entry: EntryModel) -> Seq<u8> {
    let zip64_len = needs_zip64_len_spec(entry.len);
    let zip64_offset = entry.offset >= u32::MAX;
    if zip64_len || zip64_offset {
        le16_bytes(1) + le16_bytes((central_extra_len(entry) - 4) as u16) + (if zip64_len {
            le64_bytes(entry.len) + le64_bytes(entry.len)
        } else {
            Seq::empty()
        }) + (if zip64_offset { le64_bytes(entry.offset) } else { Seq::empty() })
    } else {
        Seq::empty()
    }
}

/// A central header up to its sizes.
pub open spec fn central_head(entry: EntryModel) -> Seq<u8> {
    let zip64 = needs_zip64_len_spec(entry.len) || entry.offset >= u32::MAX;
    let version = if zip64 { VERSION_ZIP64 } else { VERSION_PLAIN };
    let flags = ((if entry.utf8 { FLAG_UTF8 } else { 0 }) + (if entry.descriptor { FLAG_DESCRIPTOR } else { 0 })) as u16;
    seq![0x50u8, 0x4Bu8, 0x01u8, 0x02u8] + le16_bytes(version) + le16_bytes(version) + le16_bytes(flags)
        + le16_bytes(0) + le16_bytes(0) + le16_bytes(0) + le32_bytes(entry.crc)
}

/// A central header's lengths, attributes and local-header offset.
pub open spec fn central_fields(entry: EntryModel) -> Seq<u8> {
    le16_bytes(name_len16(entry.name)) + le16_bytes(central_extra_len(entry) as u16) + le16_bytes(0) + le16_bytes(0)
        + le16_bytes(0) + le32_bytes(0) + (if entry.offset >= u32::MAX {
            le32_bytes(u32::MAX)
        } else {
            le32_bytes(entry.offset as u32)
        })
}

/// A canonical central-directory header.
pub open spec fn central_header_spec(entry: EntryModel) -> Seq<u8> {
    central_head(entry) + sizes_field(needs_zip64_len_spec(entry.len), entry.len) + central_fields(entry) + entry.name
        + central_zip64_extra(entry)
}

/// A little-endian 16-bit field reads back where it was placed.
pub proof fn lemma_le16_field(s: Seq<u8>, at: int, value: u16)
    requires
        0 <= at,
        at + 2 <= s.len(),
        s.subrange(at, at + 2) == le16_bytes(value),
    ensures
        le16(s, at) == value,
{
    assert(s[at] == s.subrange(at, at + 2)[0]);
    assert(s[at + 1] == s.subrange(at, at + 2)[1]);
    crate::decompose::gzip::lemma_le16_reads_back(value);
}

/// A little-endian 32-bit field reads back where it was placed.
pub proof fn lemma_le32_field(s: Seq<u8>, at: int, value: u32)
    requires
        0 <= at,
        at + 4 <= s.len(),
        s.subrange(at, at + 4) == le32_bytes(value),
    ensures
        le32(s, at) == value,
{
    let field = s.subrange(at, at + 4);
    assert(s[at] == field[0]);
    assert(s[at + 1] == field[1]);
    assert(s[at + 2] == field[2]);
    assert(s[at + 3] == field[3]);
    crate::decompose::gzip::lemma_le32_reads_back(value);
}

/// A 32-bit field of `b` is read at the same place after `a`.
pub proof fn lemma_le32_after(a: Seq<u8>, b: Seq<u8>, at: int)
    requires
        0 <= at,
        at + 4 <= b.len(),
    ensures
        le32(a + b, a.len() + at) == le32(b, at),
{
    let ab = a + b;
    assert(ab[a.len() + at] == b[at]);
    assert(ab[a.len() + at + 1] == b[at + 1]);
    assert(ab[a.len() + at + 2] == b[at + 2]);
    assert(ab[a.len() + at + 3] == b[at + 3]);
}

/// A data descriptor carries its signature `PK\x07\x08`, then the
/// CRC-32 at bytes 4..8 and the length twice, at 8 and 12.
pub proof fn lemma_descriptor_fields(crc: u32, len: u32)
    ensures
        descriptor_spec(crc, len).subrange(0, 4) == seq![0x50u8, 0x4Bu8, 0x07u8, 0x08u8],
        le32(descriptor_spec(crc, len), 4) == crc,
        le32(descriptor_spec(crc, len), 8) == len,
        le32(descriptor_spec(crc, len), 12) == len,
{
    let record = descriptor_spec(crc, len);
    assert(record.subrange(0, 4) =~= seq![0x50u8, 0x4Bu8, 0x07u8, 0x08u8]);
    assert(record.subrange(4, 8) =~= le32_bytes(crc));
    assert(record.subrange(8, 12) =~= le32_bytes(len));
    assert(record.subrange(12, 16) =~= le32_bytes(len));
    lemma_le32_field(record, 4, crc);
    lemma_le32_field(record, 8, len);
    lemma_le32_field(record, 12, len);
}

/// A known-size local header carries its member at the places a
/// reader looks (APPNOTE 4.3.7): the signature `PK\x03\x04`; the
/// version needed (4.5 for a ZIP64 length, else 2.0) at 4; the UTF-8
/// flag at 6; method STORE at 8; the CRC-32 at 14..18; both sizes at
/// 18..26 (the ZIP64 markers when the length needs them); the name's
/// length at 26 and the name from 30.
pub proof fn lemma_local_header_known_fields(name: Seq<u8>, utf8: bool, crc: u32, len: u64)
    ensures
        local_header_known_spec(name, utf8, crc, len).subrange(0, 4) == seq![0x50u8, 0x4Bu8, 0x03u8, 0x04u8],
        le16(local_header_known_spec(name, utf8, crc, len), 4) == (if needs_zip64_len_spec(len) { 45int } else { 20int }),
        le16(local_header_known_spec(name, utf8, crc, len), 6) == (if utf8 { 2048int } else { 0int }),
        le16(local_header_known_spec(name, utf8, crc, len), 8) == 0,
        le32(local_header_known_spec(name, utf8, crc, len), 14) == crc,
        le32(local_header_known_spec(name, utf8, crc, len), 18) == (if needs_zip64_len_spec(len) { u32::MAX as int } else { len as int }),
        le32(local_header_known_spec(name, utf8, crc, len), 22) == (if needs_zip64_len_spec(len) { u32::MAX as int } else { len as int }),
        le16(local_header_known_spec(name, utf8, crc, len), 26) == name.len() % 65536,
        local_header_known_spec(name, utf8, crc, len).subrange(30, 30 + name.len() as int) == name,
{
    let zip64 = needs_zip64_len_spec(len);
    let version = if zip64 { VERSION_ZIP64 } else { VERSION_PLAIN };
    let flags: u16 = if utf8 { FLAG_UTF8 } else { 0 };
    let size32: u32 = if zip64 { u32::MAX } else { len as u32 };
    let h = local_header_known_spec(name, utf8, crc, len);
    let fixed = seq![0x50u8, 0x4Bu8, 0x03u8, 0x04u8] + le16_bytes(version) + le16_bytes(flags) + le16_bytes(0)
        + le16_bytes(0) + le16_bytes(0) + le32_bytes(crc) + le32_bytes(size32) + le32_bytes(size32)
        + le16_bytes(name_len16(name)) + le16_bytes(if zip64 { 20 } else { 0 });
    assert(fixed.len() == 30);
    assert(h.subrange(0, 30) =~= fixed);
    assert(h.subrange(0, 4) =~= fixed.subrange(0, 4));
    assert(h.subrange(4, 6) =~= le16_bytes(version));
    assert(h.subrange(6, 8) =~= le16_bytes(flags));
    assert(h.subrange(8, 10) =~= le16_bytes(0));
    assert(h.subrange(14, 18) =~= le32_bytes(crc));
    assert(h.subrange(18, 22) =~= le32_bytes(size32));
    assert(h.subrange(22, 26) =~= le32_bytes(size32));
    assert(h.subrange(26, 28) =~= le16_bytes(name_len16(name)));
    lemma_le16_field(h, 4, version);
    lemma_le16_field(h, 6, flags);
    lemma_le16_field(h, 8, 0);
    lemma_le32_field(h, 14, crc);
    lemma_le32_field(h, 18, size32);
    lemma_le32_field(h, 22, size32);
    lemma_le16_field(h, 26, name_len16(name));
    assert(h.subrange(30, 30 + name.len() as int) =~= name);
}

/// An unknown-size local header carries the signature `PK\x03\x04`,
/// version 2.0 at 4, the descriptor flag (with the UTF-8 flag when
/// set) at 6, method STORE at 8, a zero CRC-32 and zero sizes at
/// 14..26 (the data descriptor carries them), the name's length at 26
/// and the name from 30.
pub proof fn lemma_local_header_unknown_fields(name: Seq<u8>, utf8: bool)
    ensures
        local_header_unknown_spec(name, utf8).subrange(0, 4) == seq![0x50u8, 0x4Bu8, 0x03u8, 0x04u8],
        le16(local_header_unknown_spec(name, utf8), 4) == 20,
        le16(local_header_unknown_spec(name, utf8), 6) == (if utf8 { 2048int } else { 0int }) + 8,
        le16(local_header_unknown_spec(name, utf8), 8) == 0,
        le32(local_header_unknown_spec(name, utf8), 14) == 0,
        le32(local_header_unknown_spec(name, utf8), 18) == 0,
        le32(local_header_unknown_spec(name, utf8), 22) == 0,
        le16(local_header_unknown_spec(name, utf8), 26) == name.len() % 65536,
        local_header_unknown_spec(name, utf8).subrange(30, 30 + name.len() as int) == name,
{
    let flags: u16 = if utf8 { (FLAG_DESCRIPTOR + FLAG_UTF8) as u16 } else { FLAG_DESCRIPTOR };
    let h = local_header_unknown_spec(name, utf8);
    assert(h.subrange(0, 4) =~= seq![0x50u8, 0x4Bu8, 0x03u8, 0x04u8]);
    assert(h.subrange(4, 6) =~= le16_bytes(VERSION_PLAIN));
    assert(h.subrange(6, 8) =~= le16_bytes(flags));
    assert(h.subrange(8, 10) =~= le16_bytes(0));
    assert(h.subrange(14, 18) =~= le32_bytes(0));
    assert(h.subrange(18, 22) =~= le32_bytes(0));
    assert(h.subrange(22, 26) =~= le32_bytes(0));
    assert(h.subrange(26, 28) =~= le16_bytes(name_len16(name)));
    lemma_le16_field(h, 4, VERSION_PLAIN);
    lemma_le16_field(h, 6, flags);
    lemma_le16_field(h, 8, 0);
    lemma_le32_field(h, 14, 0);
    lemma_le32_field(h, 18, 0);
    lemma_le32_field(h, 22, 0);
    lemma_le16_field(h, 26, name_len16(name));
    assert(h.subrange(30, 30 + name.len() as int) =~= name);
}

/// The central header's first 20 bytes: signature, versions, flags,
/// method, zeroed time and date, CRC-32.
proof fn lemma_central_head_layout(e: EntryModel)
    ensures
        central_head(e).len() == 20,
        central_head(e).subrange(0, 4) == seq![0x50u8, 0x4Bu8, 0x01u8, 0x02u8],
        le16(central_head(e), 4) == (if entry_needs_zip64(e) { 45int } else { 20int }),
        le16(central_head(e), 6) == (if entry_needs_zip64(e) { 45int } else { 20int }),
        le16(central_head(e), 8) == (if e.utf8 { 2048int } else { 0int }) + (if e.descriptor { 8int } else { 0int }),
        le16(central_head(e), 10) == 0,
        le16(central_head(e), 12) == 0,
        le16(central_head(e), 14) == 0,
        le32(central_head(e), 16) == e.crc,
{
    let head = central_head(e);
    let version = if entry_needs_zip64(e) { VERSION_ZIP64 } else { VERSION_PLAIN };
    let flags = ((if e.utf8 { FLAG_UTF8 } else { 0 }) + (if e.descriptor { FLAG_DESCRIPTOR } else { 0 })) as u16;
    assert(head.subrange(0, 4) =~= seq![0x50u8, 0x4Bu8, 0x01u8, 0x02u8]);
    assert(head.subrange(4, 6) =~= le16_bytes(version));
    assert(head.subrange(6, 8) =~= le16_bytes(version));
    assert(head.subrange(8, 10) =~= le16_bytes(flags));
    assert(head.subrange(10, 12) =~= le16_bytes(0));
    assert(head.subrange(12, 14) =~= le16_bytes(0));
    assert(head.subrange(14, 16) =~= le16_bytes(0));
    assert(head.subrange(16, 20) =~= le32_bytes(e.crc));
    lemma_le16_field(head, 4, version);
    lemma_le16_field(head, 6, version);
    lemma_le16_field(head, 8, flags);
    lemma_le16_field(head, 10, 0);
    lemma_le16_field(head, 12, 0);
    lemma_le16_field(head, 14, 0);
    lemma_le32_field(head, 16, e.crc);
}

/// The central header's 18 bytes after the sizes: name length, extra
/// length, zeroed comment length, disk and attributes, offset.
proof fn lemma_central_fields_layout(e: EntryModel)
    ensures
        central_fields(e).len() == 18,
        le16(central_fields(e), 0) == e.name.len() % 65536,
        le16(central_fields(e), 4) == 0,
        le16(central_fields(e), 6) == 0,
        le16(central_fields(e), 8) == 0,
        le32(central_fields(e), 10) == 0,
        e.offset < u32::MAX ==> le32(central_fields(e), 14) == e.offset,
{
    let fields = central_fields(e);
    assert(fields.subrange(0, 2) =~= le16_bytes(name_len16(e.name)));
    assert(fields.subrange(4, 6) =~= le16_bytes(0));
    assert(fields.subrange(6, 8) =~= le16_bytes(0));
    assert(fields.subrange(8, 10) =~= le16_bytes(0));
    assert(fields.subrange(10, 14) =~= le32_bytes(0));
    lemma_le16_field(fields, 0, name_len16(e.name));
    lemma_le16_field(fields, 4, 0);
    lemma_le16_field(fields, 6, 0);
    lemma_le16_field(fields, 8, 0);
    lemma_le32_field(fields, 10, 0);
    if e.offset < u32::MAX {
        assert(fields.subrange(14, 18) =~= le32_bytes(e.offset as u32));
        lemma_le32_field(fields, 14, e.offset as u32);
    }
}

/// Where the parts of a central header sit: the 20-byte head from 0,
/// the 8-byte sizes from 20, the 18-byte fields from 28, the name
/// from 46.
proof fn lemma_header_parts(head: Seq<u8>, sizes: Seq<u8>, fields: Seq<u8>, name: Seq<u8>, extra: Seq<u8>)
    requires
        head.len() == 20,
        sizes.len() == 8,
        fields.len() == 18,
    ensures
        ({
            let h = head + sizes + fields + name + extra;
            &&& h.subrange(0, 4) == head.subrange(0, 4)
            &&& le16(h, 4) == le16(head, 4)
            &&& le16(h, 6) == le16(head, 6)
            &&& le16(h, 8) == le16(head, 8)
            &&& le16(h, 10) == le16(head, 10)
            &&& le16(h, 12) == le16(head, 12)
            &&& le16(h, 14) == le16(head, 14)
            &&& le32(h, 16) == le32(head, 16)
            &&& le32(h, 20) == le32(sizes, 0)
            &&& le32(h, 24) == le32(sizes, 4)
            &&& le16(h, 28) == le16(fields, 0)
            &&& le16(h, 32) == le16(fields, 4)
            &&& le16(h, 34) == le16(fields, 6)
            &&& le16(h, 36) == le16(fields, 8)
            &&& le32(h, 38) == le32(fields, 10)
            &&& le32(h, 42) == le32(fields, 14)
            &&& h.subrange(46, 46 + name.len() as int) == name
            &&& h.len() >= 46 + name.len()
        }),
{
    let h = head + sizes + fields + name + extra;
    assert forall|k: int| 0 <= k < 20 implies h[k] == head[k] by {}
    assert forall|k: int| 0 <= k < 8 implies h[20 + k] == sizes[k] by {}
    assert forall|k: int| 0 <= k < 18 implies h[28 + k] == fields[k] by {}
    assert(h.subrange(0, 4) =~= head.subrange(0, 4));
    assert(h.subrange(46, 46 + name.len() as int) =~= name);
}

/// A central header carries its entry at the places a reader looks
/// (APPNOTE 4.3.12): the signature `PK\x01\x02`; the versions made
/// by and needed (4.5 where ZIP64 fields are needed, else 2.0) at 4
/// and 6; the UTF-8 and descriptor flags at 8; method STORE at 10;
/// a zeroed time and date at 12 and 14; the entry's CRC-32 at bytes
/// 16..20; both sizes at 20..28 when they fit in 32 bits; the name's
/// length at 28 and the name from 46; zeroed comment length, disk,
/// and attributes at 32..42; and the local-header offset at 42 when
/// it fits in 32 bits.
pub proof fn lemma_central_header_fields(e: EntryModel)
    ensures
        central_header_spec(e).subrange(0, 4) == seq![0x50u8, 0x4Bu8, 0x01u8, 0x02u8],
        le16(central_header_spec(e), 4) == (if entry_needs_zip64(e) { 45int } else { 20int }),
        le16(central_header_spec(e), 6) == (if entry_needs_zip64(e) { 45int } else { 20int }),
        le16(central_header_spec(e), 8) == (if e.utf8 { 2048int } else { 0int }) + (if e.descriptor { 8int } else { 0int }),
        le16(central_header_spec(e), 10) == 0,
        le16(central_header_spec(e), 12) == 0 && le16(central_header_spec(e), 14) == 0,
        le32(central_header_spec(e), 16) == e.crc,
        !needs_zip64_len_spec(e.len) ==> le32(central_header_spec(e), 20) == e.len && le32(central_header_spec(e), 24) == e.len,
        le16(central_header_spec(e), 28) == e.name.len() % 65536,
        le16(central_header_spec(e), 32) == 0 && le16(central_header_spec(e), 34) == 0,
        le16(central_header_spec(e), 36) == 0 && le32(central_header_spec(e), 38) == 0,
        e.offset < u32::MAX ==> le32(central_header_spec(e), 42) == e.offset,
        central_header_spec(e).subrange(46, 46 + e.name.len() as int) == e.name,
        central_header_spec(e).len() >= 46 + e.name.len(),
{
    let zip64_len = needs_zip64_len_spec(e.len);
    let sizes = sizes_field(zip64_len, e.len);
    lemma_central_head_layout(e);
    lemma_central_fields_layout(e);
    if !zip64_len {
        assert(sizes.subrange(0, 4) =~= le32_bytes(e.len as u32));
        assert(sizes.subrange(4, 8) =~= le32_bytes(e.len as u32));
        lemma_le32_field(sizes, 0, e.len as u32);
        lemma_le32_field(sizes, 4, e.len as u32);
    }
    lemma_header_parts(central_head(e), sizes, central_fields(e), e.name, central_zip64_extra(e));
}

/// The central headers of `entries`, in order.
pub open spec fn central_directory(entries: Seq<EntryModel>) -> Seq<u8>
    decreases entries.len(),
{
    if entries.len() == 0 {
        Seq::empty()
    } else {
        central_directory(entries.drop_last()) + central_header_spec(entries.last())
    }
}

/// In the central directory, each entry's header carries that
/// entry's CRC-32 at byte 16 of the header.
pub proof fn lemma_central_directory_crc(entries: Seq<EntryModel>, e: EntryModel)
    ensures
        le32(central_directory(entries.push(e)), central_directory(entries).len() + 16int) == e.crc,
{
    lemma_central_header_fields(e);
    assert(entries.push(e).drop_last() =~= entries);
    lemma_le32_after(central_directory(entries), central_header_spec(e), 16);
}

/// Some entry needs a ZIP64 length or offset.
pub open spec fn any_zip64_entry(entries: Seq<EntryModel>) -> bool {
    exists|i: int| 0 <= i < entries.len() && (needs_zip64_len_spec(#[trigger] entries[i].len) || entries[i].offset >= u32::MAX)
}

/// The ZIP64 end record and its locator.
pub open spec fn zip64_end_spec(count: u64, central_size: u64, central_offset: u64) -> Seq<u8> {
    seq![0x50u8, 0x4Bu8, 0x06u8, 0x06u8] + le64_bytes(44) + le16_bytes(VERSION_ZIP64) + le16_bytes(VERSION_ZIP64)
        + le32_bytes(0) + le32_bytes(0) + le64_bytes(count) + le64_bytes(count) + le64_bytes(central_size)
        + le64_bytes(central_offset) + seq![0x50u8, 0x4Bu8, 0x06u8, 0x07u8] + le32_bytes(0)
        + le64_bytes((central_offset + central_size) as u64) + le32_bytes(1)
}

/// The end-of-central-directory record.
pub open spec fn end_spec(zip64: bool, count: u64, central_size: u64, central_offset: u64) -> Seq<u8> {
    seq![0x50u8, 0x4Bu8, 0x05u8, 0x06u8] + le16_bytes(0) + le16_bytes(0) + (if zip64 {
        le16_bytes(u16::MAX) + le16_bytes(u16::MAX) + le32_bytes(u32::MAX) + le32_bytes(u32::MAX)
    } else {
        le16_bytes(count as u16) + le16_bytes(count as u16) + le32_bytes(central_size as u32)
            + le32_bytes(central_offset as u32)
    }) + le16_bytes(0)
}

/// Whether one entry needs ZIP64 fields.
pub open spec fn entry_needs_zip64(entry: EntryModel) -> bool {
    needs_zip64_len_spec(entry.len) || entry.offset >= u32::MAX
}

/// A prefix one entry longer needs ZIP64 exactly when the shorter
/// one did or the new entry does.
proof fn lemma_any_zip64_push(models: Seq<EntryModel>, i: int)
    requires
        0 <= i < models.len(),
    ensures
        any_zip64_entry(models.subrange(0, i + 1)) == (any_zip64_entry(models.subrange(0, i)) || entry_needs_zip64(models[i])),
{
    let prefix = models.subrange(0, i + 1);
    let shorter = models.subrange(0, i);
    assert(prefix[i] == models[i]);
    if any_zip64_entry(shorter) {
        let j = choose|j: int| 0 <= j < shorter.len() && (needs_zip64_len_spec(#[trigger] shorter[j].len) || shorter[j].offset >= u32::MAX);
        assert(prefix[j] == models[j]);
        assert(shorter[j] == models[j]);
    }
    if any_zip64_entry(prefix) {
        let j = choose|j: int| 0 <= j < prefix.len() && (needs_zip64_len_spec(#[trigger] prefix[j].len) || prefix[j].offset >= u32::MAX);
        if j < i {
            assert(prefix[j] == models[j]);
            assert(shorter[j] == models[j]);
        }
    }
}

/// The canonical central directory and end records, given the
/// members and the canonical offset where the directory begins.
pub open spec fn tail_spec(entries: Seq<EntryModel>, central_offset: u64) -> Seq<u8> {
    let directory = central_directory(entries);
    let central_size = directory.len() as u64;
    let count = entries.len() as u64;
    let zip64 = count >= u16::MAX || central_size >= u32::MAX || central_offset >= u32::MAX || any_zip64_entry(entries);
    directory + (if zip64 { zip64_end_spec(count, central_size, central_offset) } else { Seq::empty() })
        + end_spec(zip64, count, central_size, central_offset)
}

/// The tail that closes the archive carries each entry's CRC-32 in
/// that entry's central header, at byte 16 of the header.
pub proof fn lemma_tail_carries_crc(entries: Seq<EntryModel>, e: EntryModel, central_offset: u64)
    ensures
        le32(tail_spec(entries.push(e), central_offset), central_directory(entries).len() + 16int) == e.crc,
{
    lemma_central_directory_crc(entries, e);
    lemma_central_header_fields(e);
    assert(entries.push(e).drop_last() =~= entries);
    let dir = central_directory(entries.push(e));
    let tail = tail_spec(entries.push(e), central_offset);
    let at = central_directory(entries).len() + 16int;
    assert(dir.len() >= at + 4);
    assert(tail[at] == dir[at]);
    assert(tail[at + 1] == dir[at + 1]);
    assert(tail[at + 2] == dir[at + 2]);
    assert(tail[at + 3] == dir[at + 3]);
}

/// Append a 16-bit value, little-endian.
pub fn put16(out: &mut Vec<u8>, value: u16)
    ensures
        final(out)@ == old(out)@ + le16_bytes(value),
{
    out.push((value % 256) as u8);
    out.push((value / 256) as u8);
    assert(final(out)@ =~= old(out)@ + le16_bytes(value)) by {
        assert(out@ =~= old(out)@ + le16_bytes(value));
    }
}

/// Append a 32-bit value, little-endian.
pub fn put32(out: &mut Vec<u8>, value: u32)
    ensures
        final(out)@ == old(out)@ + le32_bytes(value),
{
    put16(out, (value % 65536) as u16);
    put16(out, (value / 65536) as u16);
    assert(out@ =~= old(out)@ + le32_bytes(value));
}

/// Append a 64-bit value, little-endian.
pub fn put64(out: &mut Vec<u8>, value: u64)
    ensures
        final(out)@ == old(out)@ + le64_bytes(value),
{
    put32(out, (value % 4294967296) as u32);
    put32(out, (value / 4294967296) as u32);
    assert(out@ =~= old(out)@ + le64_bytes(value));
}

/// Append bytes.
fn put_bytes(out: &mut Vec<u8>, bytes: &[u8])
    ensures
        final(out)@ == old(out)@ + bytes@,
{
    let mut i: usize = 0;
    while i < bytes.len()
        invariant
            i <= bytes@.len(),
            out@ == old(out)@ + bytes@.subrange(0, i as int),
        decreases bytes@.len() - i,
    {
        out.push(bytes[i]);
        assert(bytes@.subrange(0, i + 1) =~= bytes@.subrange(0, i as int).push(bytes@[i as int]));
        i = i + 1;
    }
    assert(bytes@.subrange(0, i as int) =~= bytes@);
}

/// Append a record signature.
fn put_signature(out: &mut Vec<u8>, third: u8, fourth: u8)
    ensures
        final(out)@ == old(out)@ + seq![0x50u8, 0x4Bu8, third, fourth],
{
    out.push(0x50);
    out.push(0x4B);
    out.push(third);
    out.push(fourth);
    assert(out@ =~= old(out)@ + seq![0x50u8, 0x4Bu8, third, fourth]);
}

/// Whether a length needs the ZIP64 sizes.
pub fn needs_zip64_len(len: u64) -> (zip64: bool)
    ensures
        zip64 == needs_zip64_len_spec(len),
{
    len >= 0xFFFF_FFFF
}

/// The canonical local header for a member whose decoded size and
/// CRC are already known (the normal Office case).
pub fn local_header_known(name: &[u8], utf8: bool, crc: u32, len: u64) -> (header: Vec<u8>)
    ensures
        header@ == local_header_known_spec(name@, utf8, crc, len),
{
    let zip64 = needs_zip64_len(len);
    let mut out: Vec<u8> = Vec::new();
    put_signature(&mut out, 0x03, 0x04);
    put16(&mut out, if zip64 { VERSION_ZIP64 } else { VERSION_PLAIN });
    put16(&mut out, if utf8 { FLAG_UTF8 } else { 0 });
    put16(&mut out, 0);
    put16(&mut out, 0);
    put16(&mut out, 0);
    put32(&mut out, crc);
    if zip64 {
        put32(&mut out, 0xFFFF_FFFF);
        put32(&mut out, 0xFFFF_FFFF);
    } else {
        put32(&mut out, len as u32);
        put32(&mut out, len as u32);
    }
    put16(&mut out, (name.len() % 65536) as u16);
    put16(&mut out, if zip64 { 20 } else { 0 });
    put_bytes(&mut out, name);
    if zip64 {
        put16(&mut out, 1);
        put16(&mut out, 16);
        put64(&mut out, len);
        put64(&mut out, len);
    }
    assert(out@ =~= local_header_known_spec(name@, utf8, crc, len));
    out
}

/// The canonical local header for an unknown-size member: zero
/// sizes, descriptor flag; the descriptor closes it.
pub fn local_header_unknown(name: &[u8], utf8: bool) -> (header: Vec<u8>)
    ensures
        header@ == local_header_unknown_spec(name@, utf8),
{
    let mut out: Vec<u8> = Vec::new();
    put_signature(&mut out, 0x03, 0x04);
    put16(&mut out, VERSION_PLAIN);
    put16(&mut out, if utf8 { FLAG_DESCRIPTOR + FLAG_UTF8 } else { FLAG_DESCRIPTOR });
    put16(&mut out, 0);
    put16(&mut out, 0);
    put16(&mut out, 0);
    put32(&mut out, 0);
    put32(&mut out, 0);
    put32(&mut out, 0);
    put16(&mut out, (name.len() % 65536) as u16);
    put16(&mut out, 0);
    put_bytes(&mut out, name);
    assert(out@ =~= local_header_unknown_spec(name@, utf8));
    out
}

/// The signed 32-bit data descriptor closing an unknown-size member.
pub fn descriptor(crc: u32, len: u32) -> (record: Vec<u8>)
    ensures
        record@ == descriptor_spec(crc, len),
{
    let mut out: Vec<u8> = Vec::new();
    put_signature(&mut out, 0x07, 0x08);
    put32(&mut out, crc);
    put32(&mut out, len);
    put32(&mut out, len);
    assert(out@ =~= descriptor_spec(crc, len));
    out
}

/// Append both sizes of a member.
fn put_sizes(out: &mut Vec<u8>, zip64_len: bool, len: u64)
    ensures
        final(out)@ == old(out)@ + sizes_field(zip64_len, len),
{
    if zip64_len {
        put32(out, 0xFFFF_FFFF);
        put32(out, 0xFFFF_FFFF);
    } else {
        put32(out, len as u32);
        put32(out, len as u32);
    }
    assert(out@ =~= old(out)@ + sizes_field(zip64_len, len));
}

/// A central header up to its sizes.
fn central_head_of(entry: &CentralEntry) -> (head: Vec<u8>)
    ensures
        head@ == central_head(entry@),
{
    let zip64 = needs_zip64_len(entry.len) || entry.offset >= 0xFFFF_FFFF;
    let mut out: Vec<u8> = Vec::new();
    put_signature(&mut out, 0x01, 0x02);
    let version = if zip64 { VERSION_ZIP64 } else { VERSION_PLAIN };
    put16(&mut out, version);
    put16(&mut out, version);
    let flags: u16 = (if entry.utf8 { FLAG_UTF8 } else { 0 }) + (if entry.descriptor { FLAG_DESCRIPTOR } else { 0 });
    put16(&mut out, flags);
    put16(&mut out, 0);
    put16(&mut out, 0);
    put16(&mut out, 0);
    put32(&mut out, entry.crc);
    assert(out@ =~= central_head(entry@));
    out
}

/// Append a central header's lengths, attributes and offset.
fn put_central_fields(out: &mut Vec<u8>, entry: &CentralEntry)
    ensures
        final(out)@ == old(out)@ + central_fields(entry@),
{
    let zip64_len = needs_zip64_len(entry.len);
    let zip64_offset = entry.offset >= 0xFFFF_FFFF;
    let extra_len: u16 = if zip64_len || zip64_offset {
        4 + (if zip64_len { 16 } else { 0 }) + (if zip64_offset { 8 } else { 0 })
    } else {
        0
    };
    put16(out, (entry.name.len() % 65536) as u16);
    put16(out, extra_len);
    put16(out, 0);
    put16(out, 0);
    put16(out, 0);
    put32(out, 0);
    if zip64_offset {
        put32(out, 0xFFFF_FFFF);
    } else {
        put32(out, entry.offset as u32);
    }
    assert(out@ =~= old(out)@ + central_fields(entry@));
}

/// Append a central header's ZIP64 extra field.
fn put_central_extra(out: &mut Vec<u8>, entry: &CentralEntry)
    ensures
        final(out)@ == old(out)@ + central_zip64_extra(entry@),
{
    let zip64_len = needs_zip64_len(entry.len);
    let zip64_offset = entry.offset >= 0xFFFF_FFFF;
    if zip64_len || zip64_offset {
        let extra_len: u16 = 4 + (if zip64_len { 16 } else { 0 }) + (if zip64_offset { 8 } else { 0 });
        put16(out, 1);
        put16(out, extra_len - 4);
        let ghost mid = out@;
        if zip64_len {
            put64(out, entry.len);
            put64(out, entry.len);
        }
        let ghost mid2 = out@;
        if zip64_offset {
            put64(out, entry.offset);
        }
        assert(out@ =~= old(out)@ + central_zip64_extra(entry@));
    } else {
        assert(out@ =~= old(out)@ + central_zip64_extra(entry@));
    }
}

/// A canonical central-directory header.
fn central_header(entry: &CentralEntry) -> (header: Vec<u8>)
    ensures
        header@ == central_header_spec(entry@),
{
    let mut out = central_head_of(entry);
    put_sizes(&mut out, needs_zip64_len(entry.len), entry.len);
    put_central_fields(&mut out, entry);
    put_bytes(&mut out, entry.name.as_slice());
    put_central_extra(&mut out, entry);
    out
}

/// Append the ZIP64 end record and its locator.
fn put_zip64_end(out: &mut Vec<u8>, count: u64, central_size: u64, central_offset: u64)
    requires
        central_offset + central_size <= u64::MAX,
    ensures
        final(out)@ == old(out)@ + zip64_end_spec(count, central_size, central_offset),
{
    put_signature(out, 0x06, 0x06);
    put64(out, 44);
    put16(out, VERSION_ZIP64);
    put16(out, VERSION_ZIP64);
    put32(out, 0);
    put32(out, 0);
    put64(out, count);
    put64(out, count);
    put64(out, central_size);
    put64(out, central_offset);
    put_signature(out, 0x06, 0x07);
    put32(out, 0);
    put64(out, central_offset + central_size);
    put32(out, 1);
    assert(out@ =~= old(out)@ + zip64_end_spec(count, central_size, central_offset));
}

/// Append the end-of-central-directory record.
fn put_end(out: &mut Vec<u8>, zip64: bool, count: u64, central_size: u64, central_offset: u64)
    ensures
        final(out)@ == old(out)@ + end_spec(zip64, count, central_size, central_offset),
{
    put_signature(out, 0x05, 0x06);
    put16(out, 0);
    put16(out, 0);
    if zip64 {
        put16(out, 0xFFFF);
        put16(out, 0xFFFF);
        put32(out, 0xFFFF_FFFF);
        put32(out, 0xFFFF_FFFF);
    } else {
        put16(out, count as u16);
        put16(out, count as u16);
        put32(out, central_size as u32);
        put32(out, central_offset as u32);
    }
    put16(out, 0);
    assert(out@ =~= old(out)@ + end_spec(zip64, count, central_size, central_offset));
}

/// The canonical central directory and end records, given the
/// members and the canonical offset where the directory begins.
#[verifier::rlimit(30)]
pub fn tail(entries: &[CentralEntry], central_offset: u64) -> (records: Vec<u8>)
    requires
        central_offset + central_directory(entries@.map_values(|e: CentralEntry| e@)).len() <= u64::MAX,
    ensures
        records@ == tail_spec(entries@.map_values(|e: CentralEntry| e@), central_offset),
{
    let ghost models = entries@.map_values(|e: CentralEntry| e@);
    let mut out: Vec<u8> = Vec::new();
    let mut any = false;
    let mut i: usize = 0;
    while i < entries.len()
        invariant
            i <= entries@.len(),
            models == entries@.map_values(|e: CentralEntry| e@),
            out@ == central_directory(models.subrange(0, i as int)),
            any == any_zip64_entry(models.subrange(0, i as int)),
        decreases entries@.len() - i,
    {
        let header = central_header(&entries[i]);
        put_bytes(&mut out, header.as_slice());
        let big = needs_zip64_len(entries[i].len) || entries[i].offset >= 0xFFFF_FFFF;
        proof {
            let prefix = models.subrange(0, i + 1);
            assert(prefix.drop_last() =~= models.subrange(0, i as int));
            assert(prefix.last() == entries@[i as int]@);
            lemma_any_zip64_push(models, i as int);
        }
        any = any || big;
        i = i + 1;
    }
    assert(models.subrange(0, i as int) =~= models);
    let central_size = out.len() as u64;
    let count = entries.len() as u64;
    let zip64 = count >= 0xFFFF || central_size >= 0xFFFF_FFFF || central_offset >= 0xFFFF_FFFF || any;
    let ghost directory = out@;
    if zip64 {
        put_zip64_end(&mut out, count, central_size, central_offset);
    }
    let ghost with_zip64 = out@;
    put_end(&mut out, zip64, count, central_size, central_offset);
    assert(out@ =~= tail_spec(models, central_offset));
    out
}

} // verus!
