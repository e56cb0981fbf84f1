//! Fixed-layout ZIP records, parsed from their bytes after the
//! four-byte signature (APPNOTE 4.3).

use vstd::prelude::*;

use super::fault::ZipFault;

verus! {

/// The little-endian 16-bit value at `at`.
pub open spec fn le16(s: Seq<u8>, at: int) -> int {
    s[at] as int + 256 * (s[at + 1] as int)
}

/// The little-endian 32-bit value at `at`.
pub open spec fn le32(s: Seq<u8>, at: int) -> int {
    le16(s, at) + 65536 * le16(s, at + 2)
}

/// The little-endian 64-bit value at `at`.
pub open spec fn le64(s: Seq<u8>, at: int) -> int {
    le32(s, at) + 4294967296 * le32(s, at + 4)
}

/// `PK\x03\x04`.
pub const LOCAL_HEADER_SIG: u32 = 0x0403_4B50;
/// `PK\x01\x02`.
pub const CENTRAL_HEADER_SIG: u32 = 0x0201_4B50;
/// `PK\x05\x06`.
pub const END_OF_CENTRAL_DIRECTORY_SIG: u32 = 0x0605_4B50;
/// `PK\x06\x06`.
pub const ZIP64_END_OF_CENTRAL_DIRECTORY_SIG: u32 = 0x0606_4B50;
/// `PK\x06\x07`.
pub const ZIP64_LOCATOR_SIG: u32 = 0x0706_4B50;
/// `PK\x07\x08`.
pub const DATA_DESCRIPTOR_SIG: u32 = 0x0807_4B50;

/// A 32-bit size field that defers to the ZIP64 extra field.
pub const ZIP64_MARKER_32: u32 = 0xFFFF_FFFF;
/// A 16-bit count field that defers to the ZIP64 end record.
pub const ZIP64_MARKER_16: u16 = 0xFFFF;

/// Stored (no compression).
pub const METHOD_STORED: u16 = 0;
/// Deflate.
pub const METHOD_DEFLATE: u16 = 8;
/// Deflate64.
pub const METHOD_DEFLATE64: u16 = 9;
/// Deflate cannot expand beyond 1032:1 (a 258-byte match costs at
/// least two bits); the slack covers tiny inputs.
pub const MAX_DEFLATE_RATIO: u64 = 1032;
/// Slack added to the deflate expansion bound.
pub const DEFLATE_RATIO_SLACK: u64 = 64;

/// The little-endian 16-bit value at `at`.
pub fn u16_at(bytes: &[u8], at: usize) -> (value: u16)
    requires
        at + 2 <= bytes@.len(),
    ensures
        value as int == le16(bytes@, at as int),
{
    let lo = bytes[at] as u16;
    let hi = bytes[at + 1] as u16;
    lo + hi * 256
}

/// The little-endian 32-bit value at `at`.
pub fn u32_at(bytes: &[u8], at: usize) -> (value: u32)
    requires
        at + 4 <= bytes@.len(),
    ensures
        value as int == le32(bytes@, at as int),
{
    let _n = bytes.len();
    let lo = u16_at(bytes, at) as u32;
    let hi = u16_at(bytes, at + 2) as u32;
    lo + hi * 65536
}

/// The little-endian 64-bit value at `at`.
pub fn u64_at(bytes: &[u8], at: usize) -> (value: u64)
    requires
        at + 8 <= bytes@.len(),
    ensures
        value as int == le64(bytes@, at as int),
{
    let _n = bytes.len();
    let lo = u32_at(bytes, at) as u64;
    let hi = u32_at(bytes, at + 4) as u64;
    lo + hi * 4294967296
}

/// The size claims of one member, checked against the expansion
/// rules the profile enforces without inflating anything.
#[derive(Debug, Clone, Copy, PartialEq, Eq)]
pub struct MemberSizes {
    /// Bytes as stored.
    pub compressed: u64,
    /// Bytes after decompression.
    pub uncompressed: u64,
}

/// The deflate expansion ceiling for `compressed` stored bytes,
/// saturating at the largest 64-bit value.
pub open spec fn expansion_cap(compressed: u64) -> int {
    let cap = compressed * MAX_DEFLATE_RATIO + DEFLATE_RATIO_SLACK;
    if cap > u64::MAX { u64::MAX as int } else { cap }
}

/// The size claims no real member of `method` can carry.
pub open spec fn sizes_fault(sizes: MemberSizes, method: u16) -> Option<ZipFault> {
    if method == METHOD_STORED && sizes.compressed != sizes.uncompressed {
        Some(ZipFault::StoredSizesDisagree)
    } else if (method == METHOD_DEFLATE || method == METHOD_DEFLATE64)
        && sizes.uncompressed > expansion_cap(sizes.compressed) {
        Some(ZipFault::ImplausibleExpansion)
    } else {
        None
    }
}

impl MemberSizes {
    /// Reject size claims no real member of `method` can carry.
    pub fn check(self, method: u16) -> (result: Result<(), ZipFault>)
        ensures
            result == (match sizes_fault(self, method) {
                Some(fault) => Err(fault),
                None => Ok(()),
            }),
    {
        if method == METHOD_STORED {
            if self.compressed != self.uncompressed {
                return Err(ZipFault::StoredSizesDisagree);
            }
            return Ok(());
        }
        if method == METHOD_DEFLATE || method == METHOD_DEFLATE64 {
            let cap: u64 = if self.compressed > (u64::MAX - DEFLATE_RATIO_SLACK) / MAX_DEFLATE_RATIO {
                u64::MAX
            } else {
                self.compressed * MAX_DEFLATE_RATIO + DEFLATE_RATIO_SLACK
            };
            if self.uncompressed > cap {
                return Err(ZipFault::ImplausibleExpansion);
            }
        }
        Ok(())
    }
}

/// Where the ZIP64 extended-information field's data sits inside an
/// extra area, validating the area's `(id, size, data)*` layout from
/// `at` on.
pub open spec fn find_zip64(extra: Seq<u8>, at: int) -> Result<Option<(int, int)>, ZipFault>
    decreases extra.len() - at,
{
    if at < 0 || at >= extra.len() {
        Ok(None)
    } else if extra.len() - at < 4 {
        Err(ZipFault::MalformedExtraField)
    } else {
        let start = at + 4;
        let end = start + le16(extra, at + 2);
        if end > extra.len() {
            Err(ZipFault::MalformedExtraField)
        } else if le16(extra, at) == 1 {
            Ok(Some((start, end)))
        } else {
            find_zip64(extra, end)
        }
    }
}

/// The `k`-th 64-bit value of the ZIP64 field spanning
/// `start..end`, if the field holds that many.
pub open spec fn zip64_value(extra: Seq<u8>, start: int, end: int, k: int) -> Option<u64> {
    if start + 8 * (k + 1) <= end {
        Some(le64(extra, start + 8 * k) as u64)
    } else {
        None
    }
}

/// Locate the ZIP64 field (id `0x0001`) inside an extra area,
/// returning the bounds of its data.
pub fn find_zip64_field(extra: &[u8]) -> (result: Result<Option<(usize, usize)>, ZipFault>)
    ensures
        result matches Ok(Some((s, e))) ==> find_zip64(extra@, 0) == Ok::<Option<(int, int)>, ZipFault>(Some((s as int, e as int))) && s <= e <= extra@.len(),
        result matches Ok(None) ==> find_zip64(extra@, 0) == Ok::<Option<(int, int)>, ZipFault>(None),
        result matches Err(f) ==> find_zip64(extra@, 0) == Err::<Option<(int, int)>, ZipFault>(f),
{
    let mut at: usize = 0;
    while at < extra.len()
        invariant
            at <= extra@.len(),
            find_zip64(extra@, 0) == find_zip64(extra@, at as int),
        decreases extra@.len() - at,
    {
        if extra.len() - at < 4 {
            return Err(ZipFault::MalformedExtraField);
        }
        let id = u16_at(extra, at);
        let size = u16_at(extra, at + 2) as usize;
        let start = at + 4;
        if size > extra.len() - start {
            return Err(ZipFault::MalformedExtraField);
        }
        let end = start + size;
        if id == 1 {
            return Ok(Some((start, end)));
        }
        at = end;
    }
    Ok(None)
}

/// The `k`-th 64-bit value of the ZIP64 field spanning `start..end`.
pub fn zip64_field(extra: &[u8], start: usize, end: usize, k: usize) -> (value: Option<u64>)
    requires
        start <= end <= extra@.len(),
        k < 3,
    ensures
        value == zip64_value(extra@, start as int, end as int, k as int),
{
    if 8 * (k + 1) <= end - start {
        Some(u64_at(extra, start + 8 * k))
    } else {
        None
    }
}

/// The fixed part of a local file header (26 bytes after the
/// signature).
#[derive(Debug, Clone, Copy, PartialEq, Eq)]
pub struct LocalHeader {
    /// General-purpose flags.
    pub flags: u16,
    /// Compression method.
    pub method: u16,
    /// Claimed CRC-32.
    pub crc: u32,
    /// Claimed compressed size (or the ZIP64 marker).
    pub compressed: u32,
    /// Claimed uncompressed size (or the ZIP64 marker).
    pub uncompressed: u32,
    /// Name length.
    pub name_len: u16,
    /// Extra-field length.
    pub extra_len: u16,
}

/// Bytes of a local header's fixed part after the signature.
pub const LOCAL_FIXED_LEN: usize = 26;
/// Bytes of a central header's fixed part after the signature.
pub const CENTRAL_FIXED_LEN: usize = 42;
/// Bytes of the end record's fixed part after the signature.
pub const END_FIXED_LEN: usize = 18;
/// Bytes of the ZIP64 end record's fixed part after the signature.
pub const ZIP64_END_FIXED_LEN: usize = 52;
/// Bytes of the ZIP64 locator after the signature; nothing in it
/// steers a forward-only walk.
pub const ZIP64_LOCATOR_FIXED_LEN: usize = 16;

/// The local header a 26-byte fixed part encodes.
pub open spec fn local_header_of(s: Seq<u8>) -> LocalHeader {
    LocalHeader {
        flags: le16(s, 2) as u16,
        method: le16(s, 4) as u16,
        crc: le32(s, 10) as u32,
        compressed: le32(s, 14) as u32,
        uncompressed: le32(s, 18) as u32,
        name_len: le16(s, 22) as u16,
        extra_len: le16(s, 24) as u16,
    }
}

/// The resolved sizes of a local header, given its extra area.
pub open spec fn local_sizes(h: LocalHeader, extra: Seq<u8>) -> Result<MemberSizes, ZipFault> {
    let uses_u = h.uncompressed == ZIP64_MARKER_32;
    let uses_c = h.compressed == ZIP64_MARKER_32;
    if !(uses_u || uses_c) {
        Ok(MemberSizes { compressed: h.compressed as u64, uncompressed: h.uncompressed as u64 })
    } else {
        match find_zip64(extra, 0) {
            Err(fault) => Err(fault),
            Ok(None) => Err(ZipFault::MissingZip64Sizes),
            Ok(Some((s, e))) => {
                let kc: int = if uses_u { 1 } else { 0 };
                if uses_u && zip64_value(extra, s, e, 0) is None {
                    Err(ZipFault::MissingZip64Sizes)
                } else if uses_c && zip64_value(extra, s, e, kc) is None {
                    Err(ZipFault::MissingZip64Sizes)
                } else {
                    Ok(MemberSizes {
                        compressed: if uses_c { zip64_value(extra, s, e, kc)->0 } else { h.compressed as u64 },
                        uncompressed: if uses_u { zip64_value(extra, s, e, 0)->0 } else { h.uncompressed as u64 },
                    })
                }
            },
        }
    }
}

impl LocalHeader {
    /// Parse the fixed part.
    pub fn parse(bytes: &[u8]) -> (header: Self)
        requires
            bytes@.len() >= LOCAL_FIXED_LEN,
        ensures
            header == local_header_of(bytes@),
    {
        LocalHeader {
            flags: u16_at(bytes, 2),
            method: u16_at(bytes, 4),
            crc: u32_at(bytes, 10),
            compressed: u32_at(bytes, 14),
            uncompressed: u32_at(bytes, 18),
            name_len: u16_at(bytes, 22),
            extra_len: u16_at(bytes, 24),
        }
    }

    /// Whether the sizes defer to a ZIP64 extra field.
    pub fn needs_zip64(self) -> (needs: bool)
        ensures
            needs == (self.compressed == ZIP64_MARKER_32 || self.uncompressed == ZIP64_MARKER_32),
    {
        self.compressed == ZIP64_MARKER_32 || self.uncompressed == ZIP64_MARKER_32
    }

    /// Whether the general-purpose flags announce a data descriptor.
    pub fn has_descriptor(self) -> (has: bool)
        ensures
            has == (self.flags & 8 != 0),
    {
        self.flags & 8 != 0
    }

    /// The member sizes, resolving ZIP64 markers through `extra`.
    pub fn sizes(self, extra: &[u8]) -> (result: Result<MemberSizes, ZipFault>)
        ensures
            result == local_sizes(self, extra@),
    {
        let uses_u = self.uncompressed == ZIP64_MARKER_32;
        let uses_c = self.compressed == ZIP64_MARKER_32;
        if !(uses_u || uses_c) {
            return Ok(MemberSizes { compressed: self.compressed as u64, uncompressed: self.uncompressed as u64 });
        }
        let (s, e) = match find_zip64_field(extra) {
            Err(fault) => return Err(fault),
            Ok(None) => return Err(ZipFault::MissingZip64Sizes),
            Ok(Some(bounds)) => bounds,
        };
        let kc: usize = if uses_u { 1 } else { 0 };
        let mut sizes = MemberSizes { compressed: self.compressed as u64, uncompressed: self.uncompressed as u64 };
        if uses_u {
            match zip64_field(extra, s, e, 0) {
                Some(v) => sizes.uncompressed = v,
                None => return Err(ZipFault::MissingZip64Sizes),
            }
        }
        if uses_c {
            match zip64_field(extra, s, e, kc) {
                Some(v) => sizes.compressed = v,
                None => return Err(ZipFault::MissingZip64Sizes),
            }
        }
        Ok(sizes)
    }
}

/// The fixed part of a central directory header (42 bytes after the
/// signature).
#[derive(Debug, Clone, Copy, PartialEq, Eq)]
pub struct CentralHeader {
    /// Compression method.
    pub method: u16,
    /// Claimed compressed size (or the ZIP64 marker).
    pub compressed: u32,
    /// Claimed uncompressed size (or the ZIP64 marker).
    pub uncompressed: u32,
    /// Name length.
    pub name_len: u16,
    /// Extra-field length.
    pub extra_len: u16,
    /// Comment length.
    pub comment_len: u16,
    /// Offset of the member's local header (or the ZIP64 marker).
    pub local_offset: u32,
}

/// The central header a 42-byte fixed part encodes.
pub open spec fn central_header_of(s: Seq<u8>) -> CentralHeader {
    CentralHeader {
        method: le16(s, 6) as u16,
        compressed: le32(s, 16) as u32,
        uncompressed: le32(s, 20) as u32,
        name_len: le16(s, 24) as u16,
        extra_len: le16(s, 26) as u16,
        comment_len: le16(s, 28) as u16,
        local_offset: le32(s, 38) as u32,
    }
}

/// The resolved sizes and local-header offset of a central entry.
pub open spec fn central_resolved(h: CentralHeader, extra: Seq<u8>) -> Result<(MemberSizes, u64), ZipFault> {
    let uses_u = h.uncompressed == ZIP64_MARKER_32;
    let uses_c = h.compressed == ZIP64_MARKER_32;
    let uses_o = h.local_offset == ZIP64_MARKER_32;
    if !(uses_u || uses_c || uses_o) {
        Ok((MemberSizes { compressed: h.compressed as u64, uncompressed: h.uncompressed as u64 }, h.local_offset as u64))
    } else {
        match find_zip64(extra, 0) {
            Err(fault) => Err(fault),
            Ok(None) => Err(ZipFault::MissingZip64Sizes),
            Ok(Some((s, e))) => {
                let kc: int = if uses_u { 1 } else { 0 };
                let ko: int = kc + if uses_c { 1int } else { 0int };
                if uses_u && zip64_value(extra, s, e, 0) is None {
                    Err(ZipFault::MissingZip64Sizes)
                } else if uses_c && zip64_value(extra, s, e, kc) is None {
                    Err(ZipFault::MissingZip64Sizes)
                } else if uses_o && zip64_value(extra, s, e, ko) is None {
                    Err(ZipFault::MissingZip64Sizes)
                } else {
                    Ok((MemberSizes {
                        compressed: if uses_c { zip64_value(extra, s, e, kc)->0 } else { h.compressed as u64 },
                        uncompressed: if uses_u { zip64_value(extra, s, e, 0)->0 } else { h.uncompressed as u64 },
                    }, if uses_o { zip64_value(extra, s, e, ko)->0 } else { h.local_offset as u64 }))
                }
            },
        }
    }
}

impl CentralHeader {
    /// Parse the fixed part.
    pub fn parse(bytes: &[u8]) -> (header: Self)
        requires
            bytes@.len() >= CENTRAL_FIXED_LEN,
        ensures
            header == central_header_of(bytes@),
    {
        CentralHeader {
            method: u16_at(bytes, 6),
            compressed: u32_at(bytes, 16),
            uncompressed: u32_at(bytes, 20),
            name_len: u16_at(bytes, 24),
            extra_len: u16_at(bytes, 26),
            comment_len: u16_at(bytes, 28),
            local_offset: u32_at(bytes, 38),
        }
    }

    /// The entry's sizes and local-header offset, resolving ZIP64
    /// markers through `extra`.
    pub fn resolve(self, extra: &[u8]) -> (result: Result<(MemberSizes, u64), ZipFault>)
        ensures
            result == central_resolved(self, extra@),
    {
        let uses_u = self.uncompressed == ZIP64_MARKER_32;
        let uses_c = self.compressed == ZIP64_MARKER_32;
        let uses_o = self.local_offset == ZIP64_MARKER_32;
        let mut sizes = MemberSizes { compressed: self.compressed as u64, uncompressed: self.uncompressed as u64 };
        let mut offset = self.local_offset as u64;
        if !(uses_u || uses_c || uses_o) {
            return Ok((sizes, offset));
        }
        let (s, e) = match find_zip64_field(extra) {
            Err(fault) => return Err(fault),
            Ok(None) => return Err(ZipFault::MissingZip64Sizes),
            Ok(Some(bounds)) => bounds,
        };
        let kc: usize = if uses_u { 1 } else { 0 };
        let ko: usize = kc + if uses_c { 1 } else { 0 };
        if uses_u {
            match zip64_field(extra, s, e, 0) {
                Some(v) => sizes.uncompressed = v,
                None => return Err(ZipFault::MissingZip64Sizes),
            }
        }
        if uses_c {
            match zip64_field(extra, s, e, kc) {
                Some(v) => sizes.compressed = v,
                None => return Err(ZipFault::MissingZip64Sizes),
            }
        }
        if uses_o {
            match zip64_field(extra, s, e, ko) {
                Some(v) => offset = v,
                None => return Err(ZipFault::MissingZip64Sizes),
            }
        }
        Ok((sizes, offset))
    }
}

/// The end-of-central-directory record (18 bytes after the
/// signature).
#[derive(Debug, Clone, Copy, PartialEq, Eq)]
pub struct EndRecord {
    /// Entries in the whole central directory.
    pub entries_total: u16,
    /// Bytes of the central directory.
    pub central_size: u32,
    /// Offset of the central directory.
    pub central_offset: u32,
    /// Archive comment length.
    pub comment_len: u16,
}

/// The end record an 18-byte fixed part encodes.
pub open spec fn end_record_of(s: Seq<u8>) -> EndRecord {
    EndRecord {
        entries_total: le16(s, 6) as u16,
        central_size: le32(s, 8) as u32,
        central_offset: le32(s, 12) as u32,
        comment_len: le16(s, 16) as u16,
    }
}

impl EndRecord {
    /// Parse the fixed part.
    pub fn parse(bytes: &[u8]) -> (record: Self)
        requires
            bytes@.len() >= END_FIXED_LEN,
        ensures
            record == end_record_of(bytes@),
    {
        EndRecord {
            entries_total: u16_at(bytes, 6),
            central_size: u32_at(bytes, 8),
            central_offset: u32_at(bytes, 12),
            comment_len: u16_at(bytes, 16),
        }
    }
}

/// The ZIP64 end-of-central-directory record (52 bytes after the
/// signature, then an extensible data sector).
#[derive(Debug, Clone, Copy, PartialEq, Eq)]
pub struct Zip64EndRecord {
    /// Entries in the whole central directory.
    pub entries_total: u64,
    /// Bytes of the central directory.
    pub central_size: u64,
    /// Offset of the central directory.
    pub central_offset: u64,
    /// Bytes of extensible data following the fixed part.
    pub extensible_len: u64,
}

/// The record's size field counts bytes after itself; the fixed
/// fields it covers are 44 bytes.
pub const ZIP64_END_COVERED_FIXED: u64 = 44;

/// The ZIP64 end record a 52-byte fixed part encodes.
pub open spec fn zip64_end_record_of(s: Seq<u8>) -> Result<Zip64EndRecord, ZipFault> {
    if le64(s, 0) < 44 {
        Err(ZipFault::CentralDirectoryGeometry)
    } else {
        Ok(Zip64EndRecord {
            entries_total: le64(s, 28) as u64,
            central_size: le64(s, 36) as u64,
            central_offset: le64(s, 44) as u64,
            extensible_len: (le64(s, 0) - 44) as u64,
        })
    }
}

impl Zip64EndRecord {
    /// Parse the fixed part.
    pub fn parse(bytes: &[u8]) -> (result: Result<Self, ZipFault>)
        requires
            bytes@.len() >= ZIP64_END_FIXED_LEN,
        ensures
            result == zip64_end_record_of(bytes@),
    {
        let size = u64_at(bytes, 0);
        if size < ZIP64_END_COVERED_FIXED {
            return Err(ZipFault::CentralDirectoryGeometry);
        }
        Ok(Zip64EndRecord {
            entries_total: u64_at(bytes, 28),
            central_size: u64_at(bytes, 36),
            central_offset: u64_at(bytes, 44),
            extensible_len: size - ZIP64_END_COVERED_FIXED,
        })
    }
}

} // verus!
