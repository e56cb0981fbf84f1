//! [`CanonicalZipWriter`] — deterministic ZIP reconstruction over the
//! shared canonical record emitter (STORE + data descriptors, zeroed
//! metadata).

use vstd::prelude::*;

use crate::assembler::chunk_view;
use crate::decompose::media::is_utf8;
use crate::office::canonical::{
    central_directory, central_header_spec, descriptor, descriptor_spec, lemma_central_directory_crc,
    lemma_central_header_fields, lemma_descriptor_fields, lemma_tail_carries_crc, local_header_unknown,
    local_header_unknown_spec, tail, tail_spec, CentralEntry, EntryModel,
};
use crate::text::utf8::whole_scalars;
use crate::zip::records::le32;

verus! {

broadcast use vstd::seq_lib::group_seq_properties;

/// crc32fast's incremental CRC-32 hasher.
#[verifier::external_type_specification]
#[verifier::external_body]
pub struct ExCrc32Hasher(crc32fast::Hasher);

/// The bytes a CRC-32 hasher has taken in, in order.
pub uninterp spec fn crc_input(hasher: crc32fast::Hasher) -> Seq<u8>;

/// One bit-serial step of the reflected CRC-32 register
/// (polynomial 0xEDB88320).
pub open spec fn crc32_bit(reg: u32) -> u32 {
    if reg & 1 == 1 {
        (reg >> 1u32) ^ 0xEDB8_8320u32
    } else {
        reg >> 1u32
    }
}

/// The register after one byte: the byte is folded in low bit first.
pub open spec fn crc32_byte(reg: u32, byte: u8) -> u32 {
    crc32_bit(crc32_bit(crc32_bit(crc32_bit(crc32_bit(crc32_bit(crc32_bit(crc32_bit(reg ^ (byte as u32)))))))))
}

/// The register after a byte string, starting from all ones.
#[verifier::opaque]
pub open spec fn crc32_register(bytes: Seq<u8>) -> u32
    decreases bytes.len(),
{
    if bytes.len() == 0 {
        0xFFFF_FFFFu32
    } else {
        crc32_byte(crc32_register(bytes.drop_last()), bytes.last())
    }
}

/// The CRC-32 (IEEE 802.3, the ZIP and gzip checksum) of a byte
/// string: the final register, inverted.
pub open spec fn crc32_of(bytes: Seq<u8>) -> u32 {
    crc32_register(bytes) ^ 0xFFFF_FFFFu32
}

/// `crc32fast::Hasher::new`: a hasher that has taken in nothing.
pub assume_specification[crc32fast::Hasher::new]() -> (hasher: crc32fast::Hasher)
    ensures
        crc_input(hasher) == Seq::<u8>::empty(),
;

/// `crc32fast::Hasher::update`: the hasher takes in `buf` after what
/// it already holds. Its byte count is a `u64` that the call adds to.
pub assume_specification[crc32fast::Hasher::update](hasher: &mut crc32fast::Hasher, buf: &[u8])
    requires
        crc_input(*old(hasher)).len() + buf@.len() <= u64::MAX,
    ensures
        crc_input(*final(hasher)) == crc_input(*old(hasher)) + buf@,
;

/// `crc32fast::Hasher`'s derived `clone`: a copy that has taken in
/// the same bytes.
pub assume_specification[<crc32fast::Hasher as core::clone::Clone>::clone](hasher: &crc32fast::Hasher) -> (copy: crc32fast::Hasher)
    ensures
        crc_input(copy) == crc_input(*hasher),
;

/// `crc32fast::Hasher::finalize`: the CRC-32 of every byte the hasher
/// took in.
pub assume_specification[crc32fast::Hasher::finalize](hasher: crc32fast::Hasher) -> (crc: u32)
    ensures
        crc == crc32_of(crc_input(hasher)),
;

/// The open member, as a mathematical value.
pub struct OpenModel {
    /// The member's name.
    pub name: Seq<u8>,
    /// Where its local header begins.
    pub header_offset: u64,
    /// The member bytes written so far.
    pub data: Seq<u8>,
}

/// The writer, as a mathematical value.
pub struct ZipWriterModel {
    /// The central entries of the closed members, in order.
    pub entries: Seq<EntryModel>,
    /// Bytes written so far.
    pub offset: u64,
    /// The open member, if any.
    pub open: Option<OpenModel>,
}

/// A fresh writer.
pub open spec fn zip_writer_initial() -> ZipWriterModel {
    ZipWriterModel { entries: Seq::empty(), offset: 0, open: None }
}

/// The central entry of a closed member.
pub open spec fn closed_entry(open: OpenModel) -> EntryModel {
    EntryModel {
        name: open.name,
        utf8: whole_scalars(open.name),
        crc: crc32_of(open.data),
        len: open.data.len() as u64,
        offset: open.header_offset,
        descriptor: true,
    }
}

/// The CRC-32 a closed member's central header carries (bytes
/// 16..20) is the CRC-32 of the member's bytes, the value its data
/// descriptor carries (bytes 4..8); the central directory and the
/// tail that closes the archive carry it at that place of the
/// member's own header.
pub proof fn lemma_closed_member_crc(entries: Seq<EntryModel>, open: OpenModel, central_offset: u64)
    requires
        open.data.len() <= u32::MAX,
    ensures
        le32(central_header_spec(closed_entry(open)), 16) == crc32_of(open.data),
        le32(descriptor_spec(crc32_of(open.data), open.data.len() as u32), 4) == crc32_of(open.data),
        le32(central_directory(entries.push(closed_entry(open))), central_directory(entries).len() + 16int) == crc32_of(
            open.data,
        ),
        le32(tail_spec(entries.push(closed_entry(open)), central_offset), central_directory(entries).len() + 16int)
            == crc32_of(open.data),
{
    lemma_central_header_fields(closed_entry(open));
    lemma_descriptor_fields(crc32_of(open.data), open.data.len() as u32);
    lemma_central_directory_crc(entries, closed_entry(open));
    lemma_tail_carries_crc(entries, closed_entry(open), central_offset);
}

/// The name of an explicit directory entry: the path, with a `/`
/// appended unless it already ends in one.
pub open spec fn directory_name(path: Seq<u8>) -> Seq<u8> {
    if path.len() > 0 && path.last() == 47 {
        path
    } else {
        path.push(47)
    }
}

struct OpenMember {
    name: Vec<u8>,
    header_offset: u64,
    crc: crc32fast::Hasher,
    len: u64,
}

/// Streaming deterministic ZIP writer: every member is written in
/// descriptor mode (STORE, zeroed metadata), so no size or CRC is
/// needed up front.
pub struct CanonicalZipWriter {
    entries: Vec<CentralEntry>,
    offset: u64,
    open: Option<OpenMember>,
}

impl View for CanonicalZipWriter {
    type V = ZipWriterModel;

    closed spec fn view(&self) -> ZipWriterModel {
        ZipWriterModel {
            entries: self.entries@.map_values(|e: CentralEntry| e@),
            offset: self.offset,
            open: match self.open {
                Some(o) => Some(OpenModel { name: o.name@, header_offset: o.header_offset, data: crc_input(o.crc) }),
                None => None,
            },
        }
    }
}

impl CanonicalZipWriter {
    /// The internal invariant: the open member's length is the count
    /// of bytes its hasher took in.
    pub closed spec fn wf(&self) -> bool {
        self.open matches Some(o) ==> o.len == crc_input(o.crc).len()
    }

    /// A fresh writer.
    pub fn new() -> (writer: Self)
        ensures
            writer@ == zip_writer_initial(),
            writer.wf(),
    {
        let writer = CanonicalZipWriter { entries: Vec::new(), offset: 0, open: None };
        assert(writer@.entries =~= Seq::<EntryModel>::empty());
        writer
    }

    /// Emit `bytes` as one chunk and count them.
    fn emit_counted(&mut self, bytes: Vec<u8>, emit: &mut Vec<Vec<u8>>)
        requires
            old(self).offset + bytes@.len() <= u64::MAX,
        ensures
            final(self).offset == old(self).offset + bytes@.len(),
            final(self).entries == old(self).entries,
            final(self).open == old(self).open,
            chunk_view(final(emit)@) == chunk_view(old(emit)@).push(bytes@),
    {
        self.offset = self.offset + bytes.len() as u64;
        let ghost view = bytes@;
        emit.push(bytes);
        assert(chunk_view(emit@) =~= chunk_view(old(emit)@).push(view));
    }

    /// Begin a member: its local header, sizes deferred to the
    /// descriptor.
    pub fn begin_member(&mut self, path: &[u8], emit: &mut Vec<Vec<u8>>)
        requires
            old(self).wf(),
            old(self)@.open is None,
            old(self)@.offset + 30 + path@.len() <= u64::MAX,
        ensures
            final(self).wf(),
            final(self)@ == (ZipWriterModel {
                open: Some(OpenModel { name: path@, header_offset: old(self)@.offset, data: Seq::empty() }),
                offset: (old(self)@.offset + local_header_unknown_spec(path@, whole_scalars(path@)).len()) as u64,
                ..old(self)@
            }),
            chunk_view(final(emit)@) == chunk_view(old(emit)@).push(
                local_header_unknown_spec(path@, whole_scalars(path@)),
            ),
    {
        let utf8 = is_utf8(path);
        let header_offset = self.offset;
        let header = local_header_unknown(path, utf8);
        self.emit_counted(header, emit);
        let mut name: Vec<u8> = Vec::new();
        crate::decompose::reader::push_all(&mut name, path);
        assert(name@ =~= path@);
        self.open = Some(OpenMember { name, header_offset, crc: crc32fast::Hasher::new(), len: 0 });
    }

    /// Write member bytes.
    pub fn member_bytes(&mut self, bytes: &[u8], emit: &mut Vec<Vec<u8>>)
        requires
            old(self).wf(),
            old(self)@.open is Some,
            old(self)@.offset + bytes@.len() <= u64::MAX,
            old(self)@.open->Some_0.data.len() + bytes@.len() <= u64::MAX,
        ensures
            final(self).wf(),
            final(self)@ == (ZipWriterModel {
                open: Some(OpenModel { data: old(self)@.open->Some_0.data + bytes@, ..old(self)@.open->Some_0 }),
                offset: (old(self)@.offset + bytes@.len()) as u64,
                ..old(self)@
            }),
            chunk_view(final(emit)@) == chunk_view(old(emit)@).push(bytes@),
    {
        let mut open = self.open.take().unwrap();
        open.crc.update(bytes);
        open.len = open.len + bytes.len() as u64;
        self.open = Some(open);
        let mut copy: Vec<u8> = Vec::new();
        crate::decompose::reader::push_all(&mut copy, bytes);
        self.emit_counted(copy, emit);
    }

    /// Close the member with its data descriptor and record its
    /// central entry.
    pub fn end_member(&mut self, emit: &mut Vec<Vec<u8>>)
        requires
            old(self).wf(),
            old(self)@.open is Some,
            old(self)@.open->Some_0.data.len() <= u32::MAX,
            old(self)@.offset + 16 <= u64::MAX,
        ensures
            final(self).wf(),
            final(self)@ == (ZipWriterModel {
                entries: old(self)@.entries.push(closed_entry(old(self)@.open->Some_0)),
                offset: (old(self)@.offset + 16) as u64,
                open: None,
            }),
            chunk_view(final(emit)@) == chunk_view(old(emit)@).push(
                descriptor_spec(crc32_of(old(self)@.open->Some_0.data), old(self)@.open->Some_0.data.len() as u32),
            ),
    {
        let open = self.open.take().unwrap();
        let OpenMember { name, header_offset, crc, len } = open;
        let crc_value = crc.finalize();
        let record = descriptor(crc_value, len as u32);
        self.emit_counted(record, emit);
        let utf8 = is_utf8(name.as_slice());
        self.entries.push(CentralEntry { name, utf8, crc: crc_value, len, offset: header_offset, descriptor: true });
        assert(self@.entries =~= old(self)@.entries.push(closed_entry(old(self)@.open->Some_0)));
    }

    /// Write an explicit directory entry: a zero-length member whose
    /// name ends in `/`.
    pub fn directory(&mut self, path: &[u8], emit: &mut Vec<Vec<u8>>)
        requires
            old(self).wf(),
            old(self)@.open is None,
            old(self)@.offset + 30 + path@.len() + 1 + 16 <= u64::MAX,
        ensures
            final(self).wf(),
            ({
                let name = directory_name(path@);
                let header = local_header_unknown_spec(name, whole_scalars(name));
                &&& final(self)@ == (ZipWriterModel {
                    entries: old(self)@.entries.push(closed_entry(
                        OpenModel { name, header_offset: old(self)@.offset, data: Seq::empty() },
                    )),
                    offset: (old(self)@.offset + header.len() + 16) as u64,
                    open: None,
                })
                &&& chunk_view(final(emit)@) == chunk_view(old(emit)@).push(header).push(
                    descriptor_spec(crc32_of(Seq::empty()), 0),
                )
            }),
    {
        let mut name: Vec<u8> = Vec::new();
        crate::decompose::reader::push_all(&mut name, path);
        if !(name.len() > 0 && name[name.len() - 1] == 47) {
            name.push(47);
        }
        assert(name@ =~= directory_name(path@));
        self.begin_member(name.as_slice(), emit);
        self.end_member(emit);
    }

    /// Finish the archive: central directory and end records.
    pub fn finish(self, emit: &mut Vec<Vec<u8>>)
        requires
            self.wf(),
            self@.open is None,
            self@.offset + central_directory(self@.entries).len() <= u64::MAX,
        ensures
            chunk_view(final(emit)@) == chunk_view(old(emit)@).push(tail_spec(self@.entries, self@.offset)),
    {
        let records = tail(self.entries.as_slice(), self.offset);
        let ghost view = records@;
        emit.push(records);
        assert(chunk_view(emit@) =~= chunk_view(old(emit)@).push(view));
    }
}

} // verus!
