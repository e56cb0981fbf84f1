//! The forward-only TAR walker: ustar, pax extended headers, and
//! GNU long-name/long-link entries, in bounded state.
//!
//! The walk is specified as a transition function on a mathematical
//! model ([`tar_push_spec`]); the executable walker is proved to
//! follow it byte by byte.

use vstd::prelude::*;
use vstd::string::StringSliceAdditionalSpecFns;

use super::fault::OpaqueReason;
use super::sink::EntryKind;

verus! {

broadcast use vstd::seq_lib::group_seq_properties;

/// A TAR block.
pub const BLOCK: usize = 512;
/// Longest pax record set / long name retained per entry.
pub const OVERRIDE_MAX: usize = 16384;
/// The ustar magic.
pub const USTAR_MAGIC: &'static str = "ustar";
/// The pax key that overrides the path.
pub const PAX_PATH: &'static str = "path";
/// The pax key that overrides the link target.
pub const PAX_LINKPATH: &'static str = "linkpath";
/// The pax key that overrides the size.
pub const PAX_SIZE: &'static str = "size";

/// The literals as bytes.
pub proof fn lemma_tar_literals()
    ensures
        USTAR_MAGIC.spec_bytes() == seq![117u8, 115u8, 116u8, 97u8, 114u8],
{
    reveal_strlit("ustar");
    vstd::string::is_ascii_spec_bytes(USTAR_MAGIC);
    assert(vstd::string::is_ascii(USTAR_MAGIC));
    assert(USTAR_MAGIC.spec_bytes() =~= seq![117u8, 115u8, 116u8, 97u8, 114u8]);
}

/// What the walker is collecting.
#[derive(Debug, Clone, Copy, PartialEq, Eq, Structural)]
pub enum TarState {
    /// A 512-byte header block.
    Header,
    /// Entry data; `remaining` real bytes then `padding` bytes.
    Data { remaining: u64, padding: usize },
    /// A pax/GNU override payload; applied to the next real header.
    OverrideData { remaining: u64, padding: usize, kind: OverrideKind },
    /// The first zero block was seen; the second must follow.
    FirstZero,
    /// The archive ended; only zero padding may follow.
    Ended,
}

/// What an override payload overrides.
#[derive(Debug, Clone, Copy, PartialEq, Eq, Structural)]
pub enum OverrideKind {
    /// A pax `x` record set for the next entry.
    PaxNext,
    /// A pax `g` record set (accepted and ignored).
    PaxGlobal,
    /// A GNU long name for the next entry.
    GnuName,
    /// A GNU long link target for the next entry.
    GnuLink,
}

/// Pending overrides for the next header, as a mathematical value.
pub struct OverridesModel {
    /// The overriding path.
    pub path: Option<Seq<u8>>,
    /// The overriding link target.
    pub link: Option<Seq<u8>>,
    /// The overriding size.
    pub size: Option<u64>,
    /// The override payload being collected.
    pub buffer: Seq<u8>,
}

/// The walker as a mathematical value.
pub struct TarWalkerModel {
    /// What the walker is collecting.
    pub state: TarState,
    /// The header block being collected.
    pub block: Seq<u8>,
    /// Pending overrides.
    pub overrides: OverridesModel,
    /// Bytes consumed so far.
    pub offset: u64,
    /// At least one entry was walked.
    pub saw_entry: bool,
}

/// An entry kind, as a mathematical value.
pub enum TarKindModel {
    /// A regular file.
    Regular,
    /// A directory.
    Directory,
    /// A symbolic link.
    Symlink { target: Seq<u8> },
    /// A hard link.
    Hardlink { target: Seq<u8> },
    /// A device node or FIFO.
    Other { tag: u8 },
}

/// A walked entry header, as a mathematical value.
pub struct TarEntryModel {
    /// The path, overrides applied.
    pub path: Seq<u8>,
    /// The entry kind.
    pub kind: TarKindModel,
    /// The data size, overrides applied.
    pub size: u64,
    /// The mode bits, when the field is octal and fits.
    pub mode: Option<u32>,
    /// The modification time, when the field is octal.
    pub mtime: Option<u64>,
}

/// What one byte reported, as a mathematical value.
pub enum TarEventModel {
    /// Nothing externally visible.
    Quiet,
    /// A new entry's header completed.
    Entry(TarEntryModel),
    /// Bytes of the current entry's data.
    Data(usize),
    /// The archive's end marker was seen.
    End,
}

/// A fresh walker.
pub open spec fn tar_initial() -> TarWalkerModel {
    TarWalkerModel {
        state: TarState::Header,
        block: Seq::empty(),
        overrides: OverridesModel { path: None, link: None, size: None, buffer: Seq::empty() },
        offset: 0,
        saw_entry: false,
    }
}

/// The malformed outcome at `offset`.
pub open spec fn tar_malformed(detail: &'static str, offset: u64) -> OpaqueReason {
    OpaqueReason::Malformed { detail, offset }
}

/// The octal scan of a field's prefix: the value so far, whether a
/// digit was seen, whether a terminator stopped the scan; `None` for
/// a non-octal byte or an overflow.
pub open spec fn octal_scan(field: Seq<u8>) -> Option<(u64, bool, bool)>
    decreases field.len(),
{
    if field.len() == 0 {
        Some((0, false, false))
    } else {
        match octal_scan(field.drop_last()) {
            None => None,
            Some((value, seen, stopped)) => {
                let byte = field.last();
                if stopped {
                    Some((value, seen, true))
                } else if 48 <= byte <= 55 {
                    if value * 8 + (byte - 48) > u64::MAX {
                        None
                    } else {
                        Some(((value * 8 + (byte - 48)) as u64, true, false))
                    }
                } else if byte == 32 && !seen {
                    Some((value, seen, false))
                } else if byte == 32 || byte == 0 {
                    Some((value, seen, true))
                } else {
                    None
                }
            },
        }
    }
}

/// A NUL/space-terminated octal field: leading spaces skipped, then
/// octal digits up to a space, a NUL or the field's end.
pub open spec fn parse_octal_spec(field: Seq<u8>) -> Option<u64> {
    match octal_scan(field) {
        Some((value, seen, _)) => if seen { Some(value) } else { None },
        None => None,
    }
}

/// The header's byte sum with the checksum field read as spaces.
pub open spec fn header_sum(block: Seq<u8>, n: int) -> nat
    decreases n,
{
    if n <= 0 {
        0
    } else {
        header_sum(block, n - 1) + (if 148 <= n - 1 < 156 { 32 } else { block[n - 1] as nat })
    }
}

/// Whether a 512-byte header's checksum field matches its bytes.
pub open spec fn checksum_spec(block: Seq<u8>) -> bool {
    block.len() >= BLOCK && match parse_octal_spec(block.subrange(148, 156)) {
        Some(declared) => header_sum(block, 512) == declared && header_sum(block, 512) != 0,
        None => false,
    }
}

/// The position of the first `byte` in `bytes`, or the length.
pub open spec fn first_index(bytes: Seq<u8>, byte: u8) -> nat
    decreases bytes.len(),
{
    if bytes.len() == 0 {
        0
    } else if bytes[0] == byte {
        0
    } else {
        1 + first_index(bytes.drop_first(), byte)
    }
}

/// A NUL-terminated byte field.
pub open spec fn c_string_spec(field: Seq<u8>) -> Seq<u8> {
    field.subrange(0, first_index(field, 0) as int)
}

/// Every byte is zero.
pub open spec fn all_zero(bytes: Seq<u8>) -> bool {
    forall|i: int| 0 <= i < bytes.len() ==> bytes[i] == 0
}

/// A decimal text as Rust's unsigned `parse` reads it: an optional
/// `+`, then one or more digits, the value within `max`.
pub open spec fn decimal_text(bytes: Seq<u8>, max: nat) -> Option<nat> {
    let digits = if bytes.len() > 0 && bytes[0] == 43 { bytes.drop_first() } else { bytes };
    if digits.len() > 0 && crate::pdf::object::all_digits(digits) && crate::pdf::object::decimal_value(digits) <= max {
        Some(crate::pdf::object::decimal_value(digits))
    } else {
        None
    }
}

/// One pax record set applied to the overrides (errors at `offset`).
pub open spec fn apply_pax_spec(ov: OverridesModel, rest: Seq<u8>, offset: u64) -> Result<OverridesModel, OpaqueReason>
    decreases rest.len(),
{
    if rest.len() == 0 {
        Ok(ov)
    } else {
        let space = first_index(rest, 32);
        if space == rest.len() {
            Err(tar_malformed("pax record has no length", offset))
        } else {
            match decimal_text(rest.subrange(0, space as int), usize::MAX as nat) {
                None => Err(tar_malformed("pax record length is not decimal", offset)),
                Some(len) => if len <= space + 1 || len > rest.len() {
                    Err(tar_malformed("pax record length out of range", offset))
                } else {
                    let record = rest.subrange(space + 1 as int, len as int);
                    if record.last() != 10 {
                        Err(tar_malformed("pax record does not end in newline", offset))
                    } else {
                        let body = record.drop_last();
                        let eq = first_index(body, 61);
                        if eq == body.len() {
                            Err(tar_malformed("pax record has no '='", offset))
                        } else {
                            let key = body.subrange(0, eq as int);
                            let value = body.subrange(eq + 1 as int, body.len() as int);
                            let applied = if key == PAX_PATH.spec_bytes() {
                                Ok(OverridesModel { path: Some(value), ..ov })
                            } else if key == PAX_LINKPATH.spec_bytes() {
                                Ok(OverridesModel { link: Some(value), ..ov })
                            } else if key == PAX_SIZE.spec_bytes() {
                                match decimal_text(value, u64::MAX as nat) {
                                    Some(size) => Ok(OverridesModel { size: Some(size as u64), ..ov }),
                                    None => Err(tar_malformed("pax size is not decimal", offset)),
                                }
                            } else {
                                Ok(ov)
                            };
                            match applied {
                                Err(e) => Err(e),
                                Ok(ov2) => apply_pax_spec(ov2, rest.subrange(len as int, rest.len() as int), offset),
                            }
                        }
                    }
                },
            }
        }
    }
}

/// A completed override payload applied.
pub open spec fn apply_override_spec(w: TarWalkerModel, kind: OverrideKind) -> Result<TarWalkerModel, OpaqueReason> {
    let buffer = w.overrides.buffer;
    let ov = OverridesModel { buffer: Seq::empty(), ..w.overrides };
    match kind {
        OverrideKind::GnuName => Ok(TarWalkerModel { overrides: OverridesModel { path: Some(c_string_spec(buffer)), ..ov }, ..w }),
        OverrideKind::GnuLink => Ok(TarWalkerModel { overrides: OverridesModel { link: Some(c_string_spec(buffer)), ..ov }, ..w }),
        OverrideKind::PaxGlobal => Ok(TarWalkerModel { overrides: ov, ..w }),
        OverrideKind::PaxNext => match apply_pax_spec(ov, buffer, w.offset) {
            Err(e) => Err(e),
            Ok(ov2) => Ok(TarWalkerModel { overrides: ov2, ..w }),
        },
    }
}

/// An override header: collect its payload (or nothing).
pub open spec fn begin_override_spec(w: TarWalkerModel, size: u64, padding: usize, kind: OverrideKind) -> TarWalkerModel {
    TarWalkerModel {
        state: if size == 0 { TarState::Header } else { TarState::OverrideData { remaining: size, padding, kind } },
        overrides: OverridesModel { buffer: Seq::empty(), ..w.overrides },
        ..w
    }
}

/// The ustar path of a header: its prefix field joined to its name
/// field when both are present.
pub open spec fn header_path(block: Seq<u8>) -> Seq<u8> {
    let name = c_string_spec(block.subrange(0, 100));
    let prefix = c_string_spec(block.subrange(345, 500));
    if prefix.len() > 0 && block.subrange(257, 262) == USTAR_MAGIC.spec_bytes() {
        prefix + seq![47u8] + name
    } else {
        name
    }
}

/// A real entry header with its pending overrides applied (which are
/// consumed).
pub open spec fn build_entry_spec(w: TarWalkerModel, block: Seq<u8>, typeflag: u8, header_size: u64)
    -> Result<(TarWalkerModel, TarEntryModel), OpaqueReason> {
    let path = match w.overrides.path {
        Some(path) => path,
        None => header_path(block),
    };
    let link = match w.overrides.link {
        Some(link) => link,
        None => c_string_spec(block.subrange(157, 257)),
    };
    let size = match w.overrides.size {
        Some(size) => size,
        None => header_size,
    };
    let w1 = TarWalkerModel { overrides: OverridesModel { path: None, link: None, size: None, ..w.overrides }, ..w };
    let kind = if typeflag == 48 || typeflag == 0 || typeflag == 55 {
        Some(TarKindModel::Regular)
    } else if typeflag == 53 {
        Some(TarKindModel::Directory)
    } else if typeflag == 50 {
        Some(TarKindModel::Symlink { target: link })
    } else if typeflag == 49 {
        Some(TarKindModel::Hardlink { target: link })
    } else if typeflag == 51 || typeflag == 52 || typeflag == 54 {
        Some(TarKindModel::Other { tag: typeflag })
    } else {
        None
    };
    match kind {
        None => Err(tar_malformed("unknown tar entry type", w.offset)),
        Some(kind) => Ok((
            w1,
            TarEntryModel {
                path,
                kind,
                size,
                mode: match parse_octal_spec(block.subrange(100, 108)) {
                    Some(mode) => if mode <= u32::MAX { Some(mode as u32) } else { None },
                    None => None,
                },
                mtime: parse_octal_spec(block.subrange(136, 148)),
            },
        )),
    }
}

/// A completed header block (the walker's block buffer already
/// emptied).
pub open spec fn close_header_spec(w: TarWalkerModel, block: Seq<u8>) -> Result<(TarWalkerModel, TarEventModel), OpaqueReason> {
    if all_zero(block) {
        if w.state == TarState::FirstZero {
            Ok((TarWalkerModel { state: TarState::Ended, ..w }, TarEventModel::End))
        } else {
            Ok((TarWalkerModel { state: TarState::FirstZero, ..w }, TarEventModel::Quiet))
        }
    } else if w.state == TarState::FirstZero {
        Err(tar_malformed("lone zero block inside the archive", w.offset))
    } else if !checksum_spec(block) {
        Err(tar_malformed("tar header checksum mismatch", w.offset))
    } else {
        match parse_octal_spec(block.subrange(124, 136)) {
            None => Err(tar_malformed("tar size field is not octal", w.offset)),
            Some(size) => {
                let padding = ((512 - size % 512) % 512) as usize;
                let typeflag = block[156];
                if typeflag == 120 || typeflag == 88 {
                    Ok((begin_override_spec(w, size, padding, OverrideKind::PaxNext), TarEventModel::Quiet))
                } else if typeflag == 103 {
                    Ok((begin_override_spec(w, size, padding, OverrideKind::PaxGlobal), TarEventModel::Quiet))
                } else if typeflag == 76 {
                    Ok((begin_override_spec(w, size, padding, OverrideKind::GnuName), TarEventModel::Quiet))
                } else if typeflag == 75 {
                    Ok((begin_override_spec(w, size, padding, OverrideKind::GnuLink), TarEventModel::Quiet))
                } else if typeflag == 83 {
                    Err(OpaqueReason::UnsupportedFeature { detail: "sparse tar member" })
                } else {
                    match build_entry_spec(w, block, typeflag, size) {
                        Err(e) => Err(e),
                        Ok((w1, entry)) => if entry.kind is Regular && entry.size > 0 {
                            Ok((
                                TarWalkerModel {
                                    state: TarState::Data {
                                        remaining: entry.size,
                                        padding: ((512 - entry.size % 512) % 512) as usize,
                                    },
                                    saw_entry: true,
                                    ..w1
                                },
                                TarEventModel::Entry(entry),
                            ))
                        } else if size > 0 && !(entry.kind is Regular) {
                            Err(tar_malformed("tar metadata entry declares a payload", w.offset))
                        } else {
                            Ok((TarWalkerModel { state: TarState::Header, saw_entry: true, ..w1 }, TarEventModel::Entry(entry)))
                        },
                    }
                }
            },
        }
    }
}

/// One byte of the walk (the offset still counts the bytes before
/// it).
pub open spec fn tar_step_spec(w: TarWalkerModel, byte: u8) -> Result<(TarWalkerModel, TarEventModel), OpaqueReason> {
    match w.state {
        TarState::Header | TarState::FirstZero => {
            let block = w.block.push(byte);
            if block.len() < BLOCK {
                Ok((TarWalkerModel { block, ..w }, TarEventModel::Quiet))
            } else {
                close_header_spec(TarWalkerModel { block: Seq::empty(), ..w }, block)
            }
        },
        TarState::Data { remaining, padding } => if remaining > 0 {
            let left = (remaining - 1) as u64;
            Ok((
                TarWalkerModel {
                    state: if left == 0 && padding == 0 { TarState::Header } else { TarState::Data { remaining: left, padding } },
                    ..w
                },
                TarEventModel::Data(1),
            ))
        } else if byte != 0 {
            Err(tar_malformed("nonzero tar padding", w.offset))
        } else {
            let pad = (padding - 1) as usize;
            Ok((
                TarWalkerModel { state: if pad == 0 { TarState::Header } else { TarState::Data { remaining: 0, padding: pad } }, ..w },
                TarEventModel::Quiet,
            ))
        },
        TarState::OverrideData { remaining, padding, kind } => if remaining > 0 {
            let left = (remaining - 1) as u64;
            if w.overrides.buffer.len() >= OVERRIDE_MAX {
                Err(OpaqueReason::MetadataOverBound)
            } else {
                let overrides = OverridesModel { buffer: w.overrides.buffer.push(byte), ..w.overrides };
                if left == 0 && padding == 0 {
                    match apply_override_spec(TarWalkerModel { state: TarState::Header, overrides, ..w }, kind) {
                        Err(e) => Err(e),
                        Ok(w2) => Ok((w2, TarEventModel::Quiet)),
                    }
                } else {
                    Ok((
                        TarWalkerModel { state: TarState::OverrideData { remaining: left, padding, kind }, overrides, ..w },
                        TarEventModel::Quiet,
                    ))
                }
            }
        } else if byte != 0 {
            Err(tar_malformed("nonzero tar padding", w.offset))
        } else {
            let pad = (padding - 1) as usize;
            if pad == 0 {
                match apply_override_spec(TarWalkerModel { state: TarState::Header, ..w }, kind) {
                    Err(e) => Err(e),
                    Ok(w2) => Ok((w2, TarEventModel::Quiet)),
                }
            } else {
                Ok((
                    TarWalkerModel { state: TarState::OverrideData { remaining: 0, padding: pad, kind }, ..w },
                    TarEventModel::Quiet,
                ))
            }
        },
        TarState::Ended => if byte != 0 {
            Err(tar_malformed("bytes after the tar end marker", w.offset))
        } else {
            Ok((w, TarEventModel::Quiet))
        },
    }
}

/// One pushed byte: the step, then the offset advances.
pub open spec fn tar_push_spec(w: TarWalkerModel, byte: u8) -> Result<(TarWalkerModel, TarEventModel), OpaqueReason> {
    match tar_step_spec(w, byte) {
        Err(e) => Err(e),
        Ok((w2, event)) => Ok((TarWalkerModel { offset: (w.offset + 1) as u64, ..w2 }, event)),
    }
}

/// The walk over `bytes` from `w`: the walker after them with the
/// event each byte reported, in order, or the first rejection.
pub open spec fn tar_walk(w: TarWalkerModel, bytes: Seq<u8>) -> Result<(TarWalkerModel, Seq<TarEventModel>), OpaqueReason>
    decreases bytes.len(),
{
    if bytes.len() == 0 {
        Ok((w, Seq::empty()))
    } else {
        match tar_walk(w, bytes.drop_last()) {
            Err(e) => Err(e),
            Ok((w1, events)) => match tar_push_spec(w1, bytes.last()) {
                Err(e) => Err(e),
                Ok((w2, event)) => Ok((w2, events.push(event))),
            },
        }
    }
}

/// The input ended: after the end marker, or at a block boundary
/// after at least one entry.
pub open spec fn tar_finish_spec(w: TarWalkerModel) -> Result<(), OpaqueReason> {
    match w.state {
        TarState::Ended => Ok(()),
        TarState::Header | TarState::FirstZero => if w.saw_entry && w.block.len() == 0 {
            Ok(())
        } else {
            Err(tar_malformed("tar archive is truncated", w.offset))
        },
        _ => Err(tar_malformed("tar archive is truncated", w.offset)),
    }
}

/// The bounded-state invariant.
pub open spec fn tar_walker_wf(w: TarWalkerModel) -> bool {
    &&& w.block.len() < BLOCK
    &&& w.overrides.buffer.len() <= OVERRIDE_MAX
    &&& match w.state {
        TarState::Data { remaining, padding } => (remaining > 0 || padding > 0) && padding < BLOCK,
        TarState::OverrideData { remaining, padding, .. } => (remaining > 0 || padding > 0) && padding < BLOCK,
        TarState::Header | TarState::FirstZero => true,
        TarState::Ended => w.block.len() == 0,
    }
}

/// A field of NUL bytes holds no octal digit.
proof fn lemma_octal_scan_zeros(field: Seq<u8>)
    requires
        forall|i: int| 0 <= i < field.len() ==> field[i] == 0,
    ensures
        octal_scan(field) matches Some((_, seen, _)) && !seen,
    decreases field.len(),
{
    if field.len() > 0 {
        lemma_octal_scan_zeros(field.drop_last());
    }
}

/// The path a regular-file header names: where the header carries
/// the ustar magic and its prefix field is not empty, that field's
/// NUL-terminated text, a slash, then the name field's NUL-terminated
/// text, in that order; otherwise the name field's text alone. The
/// byte that completes such a header reports the entry under it.
pub proof fn lemma_ustar_prefix_then_name(w: TarWalkerModel, block: Seq<u8>)
    requires
        block.len() == BLOCK,
        w.state == TarState::Header,
        w.block == block.drop_last(),
        w.overrides.path is None,
        checksum_spec(block),
        parse_octal_spec(block.subrange(124, 136)) is Some,
        block[156] == 48 || block[156] == 0 || block[156] == 55,
    ensures
        tar_push_spec(w, block.last()) matches Ok((_, TarEventModel::Entry(entry)))
            && (c_string_spec(block.subrange(345, 500)).len() > 0 && block.subrange(257, 262) == USTAR_MAGIC.spec_bytes()
            ==> entry.path == c_string_spec(block.subrange(345, 500)) + seq![47u8] + c_string_spec(block.subrange(0, 100)))
            && (c_string_spec(block.subrange(345, 500)).len() == 0 || block.subrange(257, 262) != USTAR_MAGIC.spec_bytes()
            ==> entry.path == c_string_spec(block.subrange(0, 100))),
{
    if all_zero(block) {
        lemma_octal_scan_zeros(block.subrange(148, 156));
    }
    assert(w.block.push(block.last()) =~= block);
}

/// The first occurrence: within bounds, at the byte, none before.
pub proof fn lemma_first_index(bytes: Seq<u8>, byte: u8)
    ensures
        first_index(bytes, byte) <= bytes.len(),
        first_index(bytes, byte) < bytes.len() ==> bytes[first_index(bytes, byte) as int] == byte,
        forall|i: int| 0 <= i < first_index(bytes, byte) ==> bytes[i] != byte,
    decreases bytes.len(),
{
    if bytes.len() > 0 && bytes[0] != byte {
        lemma_first_index(bytes.drop_first(), byte);
        assert forall|i: int| 0 <= i < first_index(bytes, byte) implies bytes[i] != byte by {
            if i > 0 {
                assert(bytes[i] == bytes.drop_first()[i - 1]);
            }
        }
    }
}

/// Past a prefix free of `byte`, the first occurrence is no earlier;
/// at a `byte` right after it, it is there.
pub proof fn lemma_first_index_at(bytes: Seq<u8>, byte: u8, k: int)
    requires
        0 <= k <= bytes.len(),
        forall|j: int| 0 <= j < k ==> bytes[j] != byte,
    ensures
        first_index(bytes, byte) >= k,
        k < bytes.len() && bytes[k] == byte ==> first_index(bytes, byte) == k,
    decreases k,
{
    if k > 0 {
        assert forall|j: int| 0 <= j < k - 1 implies bytes.drop_first()[j] != byte by {
            assert(bytes.drop_first()[j] == bytes[j + 1]);
        }
        lemma_first_index_at(bytes.drop_first(), byte, k - 1);
        if k < bytes.len() {
            assert(bytes.drop_first()[k - 1] == bytes[k]);
        }
    }
}

/// The first position at or after `start`, before `end`, holding
/// `byte`, or `end`.
fn find_from(bytes: &[u8], start: usize, end: usize, byte: u8) -> (index: usize)
    requires
        start <= end <= bytes@.len(),
    ensures
        index == start + first_index(bytes@.subrange(start as int, end as int), byte),
{
    let ghost part = bytes@.subrange(start as int, end as int);
    proof {
        lemma_first_index(part, byte);
    }
    let mut i: usize = start;
    while i < end
        invariant
            start <= i <= end <= bytes@.len(),
            part == bytes@.subrange(start as int, end as int),
            forall|j: int| 0 <= j < i - start ==> part[j] != byte,
        decreases end - i,
    {
        if bytes[i] == byte {
            proof {
                lemma_first_index_at(part, byte, i - start);
            }
            return i;
        }
        assert(part[i - start] != byte);
        i = i + 1;
    }
    proof {
        lemma_first_index_at(part, byte, i - start);
    }
    i
}

/// Whether `bytes[start..end]` equals `word`.
fn range_equals(bytes: &[u8], start: usize, end: usize, word: &[u8]) -> (equal: bool)
    requires
        start <= end <= bytes@.len(),
    ensures
        equal == (bytes@.subrange(start as int, end as int) == word@),
{
    if end - start != word.len() {
        return false;
    }
    let mut i: usize = 0;
    while i < word.len()
        invariant
            end - start == word@.len(),
            start <= end <= bytes@.len(),
            i <= word@.len(),
            forall|j: int| 0 <= j < i ==> bytes@[start + j] == word@[j],
        decreases word@.len() - i,
    {
        if bytes[start + i] != word[i] {
            assert(bytes@.subrange(start as int, end as int)[i as int] != word@[i as int]);
            return false;
        }
        i = i + 1;
    }
    assert(bytes@.subrange(start as int, end as int) =~= word@);
    true
}

/// A copy of `bytes[start..end]`.
fn copy_range(bytes: &[u8], start: usize, end: usize) -> (copy: Vec<u8>)
    requires
        start <= end <= bytes@.len(),
    ensures
        copy@ == bytes@.subrange(start as int, end as int),
{
    let mut copy: Vec<u8> = Vec::new();
    let mut i: usize = start;
    while i < end
        invariant
            start <= i <= end <= bytes@.len(),
            copy@ == bytes@.subrange(start as int, i as int),
        decreases end - i,
    {
        copy.push(bytes[i]);
        assert(bytes@.subrange(start as int, i + 1) =~= bytes@.subrange(start as int, i as int).push(bytes@[i as int]));
        i = i + 1;
    }
    copy
}

/// The NUL-terminated field `bytes[start..end]`.
fn c_string(bytes: &[u8], start: usize, end: usize) -> (field: Vec<u8>)
    requires
        start <= end <= bytes@.len(),
    ensures
        field@ == c_string_spec(bytes@.subrange(start as int, end as int)),
{
    let stop = find_from(bytes, start, end, 0);
    proof {
        lemma_first_index(bytes@.subrange(start as int, end as int), 0);
    }
    let field = copy_range(bytes, start, stop);
    assert(field@ =~= c_string_spec(bytes@.subrange(start as int, end as int)));
    field
}

/// Parse the NUL/space-terminated octal field `bytes[start..end]`.
fn parse_octal(bytes: &[u8], start: usize, end: usize) -> (value: Option<u64>)
    requires
        start <= end <= bytes@.len(),
    ensures
        value == parse_octal_spec(bytes@.subrange(start as int, end as int)),
{
    let ghost field = bytes@.subrange(start as int, end as int);
    let mut value: u64 = 0;
    let mut seen = false;
    let mut i: usize = start;
    while i < end
        invariant
            start <= i <= end <= bytes@.len(),
            field == bytes@.subrange(start as int, end as int),
            octal_scan(field.subrange(0, i - start)) == Some((value, seen, false)),
        decreases end - i,
    {
        let byte = bytes[i];
        assert(field.subrange(0, i - start + 1).drop_last() =~= field.subrange(0, i - start));
        assert(field.subrange(0, i - start + 1).last() == byte);
        if 48 <= byte && byte <= 55 {
            let times = match value.checked_mul(8) {
                Some(times) => times,
                None => {
                    proof {
                        lemma_octal_stops_err(field, (i - start + 1) as nat);
                    }
                    return None;
                },
            };
            value = match times.checked_add((byte - 48) as u64) {
                Some(next) => next,
                None => {
                    proof {
                        lemma_octal_stops_err(field, (i - start + 1) as nat);
                    }
                    return None;
                },
            };
            seen = true;
        } else if byte == 32 && !seen {
        } else if byte == 32 || byte == 0 {
            proof {
                lemma_octal_stopped(field, (i - start + 1) as nat);
            }
            return if seen { Some(value) } else { None };
        } else {
            proof {
                lemma_octal_stops_err(field, (i - start + 1) as nat);
            }
            return None;
        }
        i = i + 1;
    }
    assert(field.subrange(0, i - start) =~= field);
    if seen { Some(value) } else { None }
}

/// A stopped octal scan stays stopped with its value.
proof fn lemma_octal_stopped(field: Seq<u8>, n: nat)
    requires
        n <= field.len(),
        octal_scan(field.subrange(0, n as int)) matches Some((_, _, stopped)) && stopped,
    ensures
        octal_scan(field) == octal_scan(field.subrange(0, n as int)),
    decreases field.len() - n,
{
    if n < field.len() {
        assert(field.subrange(0, n + 1 as int).drop_last() =~= field.subrange(0, n as int));
        lemma_octal_stopped(field, n + 1);
    } else {
        assert(field.subrange(0, n as int) =~= field);
    }
}

/// A failed octal scan stays failed.
proof fn lemma_octal_stops_err(field: Seq<u8>, n: nat)
    requires
        n <= field.len(),
        octal_scan(field.subrange(0, n as int)) is None,
    ensures
        octal_scan(field) is None,
    decreases field.len() - n,
{
    if n < field.len() {
        assert(field.subrange(0, n + 1 as int).drop_last() =~= field.subrange(0, n as int));
        lemma_octal_stops_err(field, n + 1);
    } else {
        assert(field.subrange(0, n as int) =~= field);
    }
}

/// Parse the decimal text `bytes[start..end]` as Rust's unsigned
/// `parse` does, within `max`.
fn parse_decimal(bytes: &[u8], start: usize, end: usize, max: u64) -> (value: Option<u64>)
    requires
        start <= end <= bytes@.len(),
    ensures
        match decimal_text(bytes@.subrange(start as int, end as int), max as nat) {
            Some(v) => value == Some(v as u64),
            None => value is None,
        },
{
    let ghost text = bytes@.subrange(start as int, end as int);
    let mut first = start;
    if start < end && bytes[start] == 43 {
        first = start + 1;
    }
    let ghost digits = bytes@.subrange(first as int, end as int);
    assert(digits =~= (if text.len() > 0 && text[0] == 43 { text.drop_first() } else { text }));
    if first == end {
        assert(decimal_text(text, max as nat) is None);
        return None;
    }
    assert(decimal_text(text, max as nat) == (if crate::pdf::object::all_digits(digits)
        && crate::pdf::object::decimal_value(digits) <= max {
        Some(crate::pdf::object::decimal_value(digits))
    } else {
        None
    }));
    let mut i: usize = first;
    while i < end
        invariant
            first <= i <= end <= bytes@.len(),
            digits == bytes@.subrange(first as int, end as int),
            text == bytes@.subrange(start as int, end as int),
            decimal_text(text, max as nat) == (if crate::pdf::object::all_digits(digits)
                && crate::pdf::object::decimal_value(digits) <= max {
                Some(crate::pdf::object::decimal_value(digits))
            } else {
                None
            }),
            forall|j: int| 0 <= j < i - first ==> crate::pdf::object::is_digit(#[trigger] digits[j]),
        decreases end - i,
    {
        if bytes[i] < 48 || bytes[i] > 57 {
            assert(!crate::pdf::object::is_digit(digits[i - first]));
            assert(!crate::pdf::object::all_digits(digits));
            assert(decimal_text(text, max as nat) is None);
            return None;
        }
        i = i + 1;
    }
    assert(crate::pdf::object::all_digits(digits));
    let mut value: u64 = 0;
    let mut j: usize = first;
    while j < end
        invariant
            first <= j <= end <= bytes@.len(),
            digits == bytes@.subrange(first as int, end as int),
            text == bytes@.subrange(start as int, end as int),
            decimal_text(text, max as nat) == (if crate::pdf::object::all_digits(digits)
                && crate::pdf::object::decimal_value(digits) <= max {
                Some(crate::pdf::object::decimal_value(digits))
            } else {
                None
            }),
            crate::pdf::object::all_digits(digits),
            value == crate::pdf::object::decimal_value(digits.subrange(0, j - first)),
        decreases end - j,
    {
        assert(digits.subrange(0, j - first + 1).drop_last() =~= digits.subrange(0, j - first));
        assert(digits.subrange(0, j - first + 1).last() == bytes@[j as int]);
        assert(crate::pdf::object::is_digit(digits[j - first]));
        proof {
            crate::pdf::object::lemma_decimal_prefix(digits, j - first + 1);
        }
        let times = match value.checked_mul(10) {
            Some(times) => times,
            None => {
                assert(crate::pdf::object::decimal_value(digits) > u64::MAX);
                assert(decimal_text(text, max as nat) is None);
                return None;
            },
        };
        value = match times.checked_add((bytes[j] - 48) as u64) {
            Some(next) => next,
            None => {
                assert(crate::pdf::object::decimal_value(digits) > u64::MAX);
                assert(decimal_text(text, max as nat) is None);
                return None;
            },
        };
        j = j + 1;
    }
    assert(digits.subrange(0, j - first) =~= digits);
    if value > max {
        return None;
    }
    Some(value)
}

/// Whether the 512-byte header's checksum field matches its bytes.
pub fn checksum_matches(block: &[u8]) -> (matches: bool)
    ensures
        matches == checksum_spec(block@),
{
    if block.len() < BLOCK {
        return false;
    }
    let declared = match parse_octal(block, 148, 156) {
        Some(declared) => declared,
        None => {
            return false;
        },
    };
    let mut sum: u64 = 0;
    let mut i: usize = 0;
    while i < BLOCK
        invariant
            i <= BLOCK <= block@.len(),
            sum == header_sum(block@, i as int),
            sum <= 255 * i,
        decreases BLOCK - i,
    {
        let add: u64 = if 148 <= i && i < 156 { 32 } else { block[i] as u64 };
        sum = sum + add;
        i = i + 1;
    }
    sum == declared && sum != 0
}

/// Pending overrides for the next header.
pub struct Overrides {
    path: Option<Vec<u8>>,
    link: Option<Vec<u8>>,
    size: Option<u64>,
    buffer: Vec<u8>,
}

/// The view of an optional byte string.
pub open spec fn opt_view(bytes: Option<Vec<u8>>) -> Option<Seq<u8>> {
    match bytes {
        Some(b) => Some(b@),
        None => None,
    }
}

impl View for Overrides {
    type V = OverridesModel;

    closed spec fn view(&self) -> OverridesModel {
        OverridesModel { path: opt_view(self.path), link: opt_view(self.link), size: self.size, buffer: self.buffer@ }
    }
}

/// The entry kinds the walker distinguishes.
pub enum TarKind {
    /// A regular file.
    Regular,
    /// A directory.
    Directory,
    /// A symbolic link.
    Symlink { target: Vec<u8> },
    /// A hard link.
    Hardlink { target: Vec<u8> },
    /// A device node or FIFO.
    Other { tag: u8 },
}

impl View for TarKind {
    type V = TarKindModel;

    open spec fn view(&self) -> TarKindModel {
        match self {
            TarKind::Regular => TarKindModel::Regular,
            TarKind::Directory => TarKindModel::Directory,
            TarKind::Symlink { target } => TarKindModel::Symlink { target: target@ },
            TarKind::Hardlink { target } => TarKindModel::Hardlink { target: target@ },
            TarKind::Other { tag } => TarKindModel::Other { tag: *tag },
        }
    }
}

impl TarKind {
    /// The event vocabulary's entry kind, `None` for a regular
    /// member.
    pub fn to_entry_kind(&self) -> (kind: Option<EntryKind>)
        ensures
            match self@ {
                TarKindModel::Regular => kind is None,
                TarKindModel::Directory => kind == Some(EntryKind::Directory),
                TarKindModel::Symlink { target } => kind matches Some(EntryKind::Symlink { target: t }) && t@ == target,
                TarKindModel::Hardlink { target } => kind matches Some(EntryKind::Hardlink { target: t }) && t@ == target,
                TarKindModel::Other { tag } => kind == Some(EntryKind::Other { tag }),
            },
    {
        match self {
            TarKind::Regular => None,
            TarKind::Directory => Some(EntryKind::Directory),
            TarKind::Symlink { target } => Some(EntryKind::Symlink { target: copy_range(target.as_slice(), 0, target.len()) }),
            TarKind::Hardlink { target } => Some(EntryKind::Hardlink { target: copy_range(target.as_slice(), 0, target.len()) }),
            TarKind::Other { tag } => Some(EntryKind::Other { tag: *tag }),
        }
    }
}

/// One walked TAR entry header, with pax/GNU overrides applied.
pub struct TarEntry {
    /// The path.
    pub path: Vec<u8>,
    /// The entry kind.
    pub kind: TarKind,
    /// The data size.
    pub size: u64,
    /// The mode bits.
    pub mode: Option<u32>,
    /// The modification time.
    pub mtime: Option<u64>,
}

impl View for TarEntry {
    type V = TarEntryModel;

    open spec fn view(&self) -> TarEntryModel {
        TarEntryModel { path: self.path@, kind: self.kind@, size: self.size, mode: self.mode, mtime: self.mtime }
    }
}

/// What the walker reports for one pushed byte.
pub enum TarEvent {
    /// Nothing externally visible (metadata consumed).
    Quiet,
    /// A new entry's header completed.
    Entry(TarEntry),
    /// Bytes of the current entry's data.
    Data(usize),
    /// The archive's end marker was seen.
    End,
}

impl View for TarEvent {
    type V = TarEventModel;

    open spec fn view(&self) -> TarEventModel {
        match self {
            TarEvent::Quiet => TarEventModel::Quiet,
            TarEvent::Entry(entry) => TarEventModel::Entry(entry@),
            TarEvent::Data(len) => TarEventModel::Data(*len),
            TarEvent::End => TarEventModel::End,
        }
    }
}

/// Pax records change only the path, link and size overrides.
pub proof fn lemma_apply_pax_buffer(ov: OverridesModel, rest: Seq<u8>, offset: u64)
    ensures
        apply_pax_spec(ov, rest, offset) matches Ok(ov2) ==> ov2.buffer == ov.buffer,
    decreases rest.len(),
{
    if rest.len() > 0 {
        let space = first_index(rest, 32);
        if space != rest.len() {
            match decimal_text(rest.subrange(0, space as int), usize::MAX as nat) {
                None => {},
                Some(len) => if !(len <= space + 1 || len > rest.len()) {
                    let record = rest.subrange(space + 1 as int, len as int);
                    let body = record.drop_last();
                    let eq = first_index(body, 61);
                    let key = body.subrange(0, eq as int);
                    let value = body.subrange(eq + 1 as int, body.len() as int);
                    let next = rest.subrange(len as int, rest.len() as int);
                    lemma_apply_pax_buffer(OverridesModel { path: Some(value), ..ov }, next, offset);
                    lemma_apply_pax_buffer(OverridesModel { link: Some(value), ..ov }, next, offset);
                    match decimal_text(value, u64::MAX as nat) {
                        Some(size) => lemma_apply_pax_buffer(OverridesModel { size: Some(size as u64), ..ov }, next, offset),
                        None => {},
                    }
                    lemma_apply_pax_buffer(ov, next, offset);
                },
            }
        }
    }
}

/// Apply the pax record starting at `pos`; on success, where the
/// next record starts.
#[verifier::rlimit(40)]
fn apply_pax_record(overrides: &mut Overrides, records: &[u8], pos: usize, offset: u64) -> (result: Result<usize, OpaqueReason>)
    requires
        pos < records@.len(),
    ensures
        match result {
            Ok(next) => pos < next <= records@.len()
                && apply_pax_spec(old(overrides)@, records@.subrange(pos as int, records@.len() as int), offset)
                == apply_pax_spec(final(overrides)@, records@.subrange(next as int, records@.len() as int), offset),
            Err(e) => apply_pax_spec(old(overrides)@, records@.subrange(pos as int, records@.len() as int), offset)
                == Err::<OverridesModel, OpaqueReason>(e),
        },
{
    let ghost rest = records@.subrange(pos as int, records@.len() as int);
    let space = find_from(records, pos, records.len(), 32);
    proof {
        lemma_first_index(rest, 32);
    }
    if space == records.len() {
        return Err(OpaqueReason::Malformed { detail: "pax record has no length", offset });
    }
    assert(rest.subrange(0, space - pos) =~= records@.subrange(pos as int, space as int));
    let len = match parse_decimal(records, pos, space, usize::MAX as u64) {
        Some(len) => len as usize,
        None => {
            return Err(OpaqueReason::Malformed { detail: "pax record length is not decimal", offset });
        },
    };
    if len <= space - pos + 1 || len > records.len() - pos {
        return Err(OpaqueReason::Malformed { detail: "pax record length out of range", offset });
    }
    let record_start = space + 1;
    let record_end = pos + len;
    let ghost record = rest.subrange(space - pos + 1, len as int);
    assert(record =~= records@.subrange(record_start as int, record_end as int));
    if records[record_end - 1] != 10 {
        return Err(OpaqueReason::Malformed { detail: "pax record does not end in newline", offset });
    }
    let body_end = record_end - 1;
    let ghost body = record.drop_last();
    assert(body =~= records@.subrange(record_start as int, body_end as int));
    let eq = find_from(records, record_start, body_end, 61);
    proof {
        lemma_first_index(body, 61);
    }
    if eq == body_end {
        return Err(OpaqueReason::Malformed { detail: "pax record has no '='", offset });
    }
    assert(body.subrange(0, eq - record_start) =~= records@.subrange(record_start as int, eq as int));
    assert(body.subrange(eq - record_start + 1, body.len() as int) =~= records@.subrange(eq + 1, body_end as int));
    assert(rest.subrange(len as int, rest.len() as int) =~= records@.subrange(pos + len, records@.len() as int));
    if range_equals(records, record_start, eq, PAX_PATH.as_bytes()) {
        overrides.path = Some(copy_range(records, eq + 1, body_end));
    } else if range_equals(records, record_start, eq, PAX_LINKPATH.as_bytes()) {
        overrides.link = Some(copy_range(records, eq + 1, body_end));
    } else if range_equals(records, record_start, eq, PAX_SIZE.as_bytes()) {
        match parse_decimal(records, eq + 1, body_end, u64::MAX) {
            Some(size) => {
                overrides.size = Some(size);
            },
            None => {
                return Err(OpaqueReason::Malformed { detail: "pax size is not decimal", offset });
            },
        }
    }
    Ok(pos + len)
}

/// Apply one pax record set to the overrides.
fn apply_pax(overrides: &mut Overrides, records: &[u8], offset: u64) -> (result: Result<(), OpaqueReason>)
    ensures
        match apply_pax_spec(old(overrides)@, records@, offset) {
            Ok(ov) => result is Ok && final(overrides)@ == ov,
            Err(e) => result == Err::<(), OpaqueReason>(e),
        },
{
    let mut pos: usize = 0;
    assert(records@.subrange(0, records@.len() as int) =~= records@);
    while pos < records.len()
        invariant
            pos <= records@.len(),
            apply_pax_spec(old(overrides)@, records@, offset)
                == apply_pax_spec(overrides@, records@.subrange(pos as int, records@.len() as int), offset),
        decreases records@.len() - pos,
    {
        match apply_pax_record(overrides, records, pos, offset) {
            Ok(next) => {
                pos = next;
            },
            Err(e) => {
                return Err(e);
            },
        }
    }
    assert(records@.subrange(pos as int, records@.len() as int) =~= Seq::<u8>::empty());
    Ok(())
}

/// Whether every byte of the block is zero.
fn is_zero_block(block: &Vec<u8>) -> (zero: bool)
    ensures
        zero == all_zero(block@),
{
    let mut i: usize = 0;
    while i < block.len()
        invariant
            i <= block@.len(),
            forall|j: int| 0 <= j < i ==> block@[j] == 0,
        decreases block@.len() - i,
    {
        if block[i] != 0 {
            return false;
        }
        i = i + 1;
    }
    true
}

/// The ustar path of a header.
fn header_path_of(block: &Vec<u8>) -> (path: Vec<u8>)
    requires
        block@.len() == BLOCK,
    ensures
        path@ == header_path(block@),
{
    proof {
        lemma_tar_literals();
    }
    let name = c_string(block.as_slice(), 0, 100);
    let prefix = c_string(block.as_slice(), 345, 500);
    if prefix.len() > 0 && range_equals(block.as_slice(), 257, 262, USTAR_MAGIC.as_bytes()) {
        let mut joined = prefix;
        joined.push(47);
        let ghost start = joined@;
        let mut i: usize = 0;
        while i < name.len()
            invariant
                i <= name@.len(),
                joined@ == start + name@.subrange(0, i as int),
            decreases name@.len() - i,
        {
            joined.push(name[i]);
            assert(name@.subrange(0, i + 1) =~= name@.subrange(0, i as int).push(name@[i as int]));
            i = i + 1;
        }
        assert(name@.subrange(0, i as int) =~= name@);
        joined
    } else {
        name
    }
}

/// The walker. Feed one byte at a time; data bytes flow past it (it
/// only frames them).
pub struct TarWalker {
    state: TarState,
    block: Vec<u8>,
    overrides: Overrides,
    offset: u64,
    saw_entry: bool,
}

impl View for TarWalker {
    type V = TarWalkerModel;

    closed spec fn view(&self) -> TarWalkerModel {
        TarWalkerModel {
            state: self.state,
            block: self.block@,
            overrides: self.overrides@,
            offset: self.offset,
            saw_entry: self.saw_entry,
        }
    }
}

impl TarWalker {
    /// A walker at the start of an archive.
    pub fn new() -> (walker: Self)
        ensures
            walker@ == tar_initial(),
            tar_walker_wf(walker@),
    {
        let walker = TarWalker {
            state: TarState::Header,
            block: Vec::new(),
            overrides: Overrides { path: None, link: None, size: None, buffer: Vec::new() },
            offset: 0,
            saw_entry: false,
        };
        assert(walker@ =~= tar_initial());
        walker
    }

    fn malformed(&self, detail: &'static str) -> (reason: OpaqueReason)
        ensures
            reason == tar_malformed(detail, self@.offset),
    {
        OpaqueReason::Malformed { detail, offset: self.offset }
    }

    /// Bytes consumed so far.
    pub fn offset(&self) -> (offset: u64)
        ensures
            offset == self@.offset,
    {
        self.offset
    }

    /// Push one byte. Returns an event when this byte completes a
    /// header, contributes entry data, or ends the archive.
    pub fn push(&mut self, byte: u8) -> (result: Result<TarEvent, OpaqueReason>)
        requires
            tar_walker_wf(old(self)@),
            old(self)@.offset < u64::MAX,
        ensures
            final(self)@.offset == old(self)@.offset + 1,
            match tar_push_spec(old(self)@, byte) {
                Ok((w, event)) => result is Ok && result->Ok_0@ == event && final(self)@ == w && tar_walker_wf(w),
                Err(e) => result == Err::<TarEvent, OpaqueReason>(e),
            },
    {
        let event = self.step(byte);
        self.offset = self.offset + 1;
        event
    }

    /// The input ended.
    pub fn finish(&self) -> (result: Result<(), OpaqueReason>)
        ensures
            result == tar_finish_spec(self@),
    {
        match self.state {
            TarState::Ended => Ok(()),
            TarState::Header | TarState::FirstZero => if self.saw_entry && self.block.len() == 0 {
                Ok(())
            } else {
                Err(self.malformed("tar archive is truncated"))
            },
            _ => Err(self.malformed("tar archive is truncated")),
        }
    }

    fn step(&mut self, byte: u8) -> (result: Result<TarEvent, OpaqueReason>)
        requires
            tar_walker_wf(old(self)@),
        ensures
            final(self)@.offset == old(self)@.offset,
            match tar_step_spec(old(self)@, byte) {
                Ok((w, event)) => result is Ok && result->Ok_0@ == event && final(self)@ == w && tar_walker_wf(w),
                Err(e) => result == Err::<TarEvent, OpaqueReason>(e),
            },
    {
        match self.state {
            TarState::Header | TarState::FirstZero => {
                self.block.push(byte);
                if self.block.len() < BLOCK {
                    return Ok(TarEvent::Quiet);
                }
                let mut block: Vec<u8> = Vec::new();
                std::mem::swap(&mut block, &mut self.block);
                assert(self.block@ =~= Seq::<u8>::empty());
                assert(self@ == TarWalkerModel { block: Seq::empty(), ..old(self)@ });
                assert(block@ == old(self)@.block.push(byte));
                let result = self.close_header(block);
                assert(tar_step_spec(old(self)@, byte) == close_header_spec(TarWalkerModel { block: Seq::empty(), ..old(self)@ }, old(self)@.block.push(byte)));
                result
            },
            TarState::Data { remaining, padding } => {
                if remaining > 0 {
                    let left = remaining - 1;
                    if left == 0 && padding == 0 {
                        self.state = TarState::Header;
                    } else {
                        self.state = TarState::Data { remaining: left, padding };
                    }
                    return Ok(TarEvent::Data(1));
                }
                if byte != 0 {
                    return Err(self.malformed("nonzero tar padding"));
                }
                let pad = padding - 1;
                if pad == 0 {
                    self.state = TarState::Header;
                } else {
                    self.state = TarState::Data { remaining: 0, padding: pad };
                }
                Ok(TarEvent::Quiet)
            },
            TarState::OverrideData { remaining, padding, kind } => {
                if remaining > 0 {
                    let left = remaining - 1;
                    if self.overrides.buffer.len() >= OVERRIDE_MAX {
                        return Err(OpaqueReason::MetadataOverBound);
                    }
                    self.overrides.buffer.push(byte);
                    if left == 0 && padding == 0 {
                        self.state = TarState::Header;
                        match self.apply_override(kind) {
                            Ok(()) => {},
                            Err(e) => {
                                return Err(e);
                            },
                        }
                    } else {
                        self.state = TarState::OverrideData { remaining: left, padding, kind };
                    }
                    return Ok(TarEvent::Quiet);
                }
                if byte != 0 {
                    return Err(self.malformed("nonzero tar padding"));
                }
                let pad = padding - 1;
                if pad == 0 {
                    self.state = TarState::Header;
                    match self.apply_override(kind) {
                        Ok(()) => {},
                        Err(e) => {
                            return Err(e);
                        },
                    }
                } else {
                    self.state = TarState::OverrideData { remaining: 0, padding: pad, kind };
                }
                Ok(TarEvent::Quiet)
            },
            TarState::Ended => {
                if byte != 0 {
                    return Err(self.malformed("bytes after the tar end marker"));
                }
                Ok(TarEvent::Quiet)
            },
        }
    }

    fn close_header(&mut self, block: Vec<u8>) -> (result: Result<TarEvent, OpaqueReason>)
        requires
            block@.len() == BLOCK,
            old(self).state == TarState::Header || old(self).state == TarState::FirstZero,
            tar_walker_wf(old(self)@),
            old(self)@.block.len() == 0,
        ensures
            final(self)@.offset == old(self)@.offset,
            match close_header_spec(old(self)@, block@) {
                Ok((w, event)) => result is Ok && result->Ok_0@ == event && final(self)@ == w && tar_walker_wf(w),
                Err(e) => result == Err::<TarEvent, OpaqueReason>(e),
            },
    {
        if is_zero_block(&block) {
            if self.state == TarState::FirstZero {
                self.state = TarState::Ended;
                return Ok(TarEvent::End);
            }
            self.state = TarState::FirstZero;
            return Ok(TarEvent::Quiet);
        }
        if self.state == TarState::FirstZero {
            return Err(self.malformed("lone zero block inside the archive"));
        }
        if !checksum_matches(block.as_slice()) {
            return Err(self.malformed("tar header checksum mismatch"));
        }
        let typeflag = block[156];
        let size = match parse_octal(block.as_slice(), 124, 136) {
            Some(size) => size,
            None => {
                return Err(self.malformed("tar size field is not octal"));
            },
        };
        let padding = ((512 - size % 512) % 512) as usize;
        if typeflag == 120 || typeflag == 88 {
            self.begin_override(size, padding, OverrideKind::PaxNext);
            return Ok(TarEvent::Quiet);
        }
        if typeflag == 103 {
            self.begin_override(size, padding, OverrideKind::PaxGlobal);
            return Ok(TarEvent::Quiet);
        }
        if typeflag == 76 {
            self.begin_override(size, padding, OverrideKind::GnuName);
            return Ok(TarEvent::Quiet);
        }
        if typeflag == 75 {
            self.begin_override(size, padding, OverrideKind::GnuLink);
            return Ok(TarEvent::Quiet);
        }
        if typeflag == 83 {
            return Err(OpaqueReason::UnsupportedFeature { detail: "sparse tar member" });
        }
        let ghost before = self@;
        let entry = match self.build_entry(&block, typeflag, size) {
            Ok(entry) => entry,
            Err(e) => {
                return Err(e);
            },
        };
        let regular = matches!(entry.kind, TarKind::Regular);
        if regular && entry.size > 0 {
            let data_padding = ((512 - entry.size % 512) % 512) as usize;
            self.state = TarState::Data { remaining: entry.size, padding: data_padding };
        } else if size > 0 && !regular {
            return Err(self.malformed("tar metadata entry declares a payload"));
        } else {
            self.state = TarState::Header;
        }
        self.saw_entry = true;
        Ok(TarEvent::Entry(entry))
    }

    fn begin_override(&mut self, size: u64, padding: usize, kind: OverrideKind)
        requires
            padding < BLOCK,
        ensures
            final(self)@ == begin_override_spec(old(self)@, size, padding, kind),
    {
        self.overrides.buffer.clear();
        if size == 0 {
            self.state = TarState::Header;
        } else {
            self.state = TarState::OverrideData { remaining: size, padding, kind };
        }
    }

    fn apply_override(&mut self, kind: OverrideKind) -> (result: Result<(), OpaqueReason>)
        ensures
            final(self)@.offset == old(self)@.offset,
            result is Ok ==> final(self)@.overrides.buffer.len() == 0,
            match apply_override_spec(old(self)@, kind) {
                Ok(w) => result is Ok && final(self)@ == w,
                Err(e) => result == Err::<(), OpaqueReason>(e),
            },
    {
        let mut buffer: Vec<u8> = Vec::new();
        std::mem::swap(&mut buffer, &mut self.overrides.buffer);
        proof {
            lemma_apply_pax_buffer(OverridesModel { buffer: Seq::empty(), ..old(self)@.overrides }, buffer@, old(self)@.offset);
        }
        assert(self.overrides.buffer@ =~= Seq::<u8>::empty());
        match kind {
            OverrideKind::GnuName => {
                self.overrides.path = Some(c_string(buffer.as_slice(), 0, buffer.len()));
                assert(buffer@.subrange(0, buffer@.len() as int) =~= buffer@);
                Ok(())
            },
            OverrideKind::GnuLink => {
                self.overrides.link = Some(c_string(buffer.as_slice(), 0, buffer.len()));
                assert(buffer@.subrange(0, buffer@.len() as int) =~= buffer@);
                Ok(())
            },
            OverrideKind::PaxGlobal => Ok(()),
            OverrideKind::PaxNext => apply_pax(&mut self.overrides, buffer.as_slice(), self.offset),
        }
    }

    fn build_entry(&mut self, block: &Vec<u8>, typeflag: u8, header_size: u64) -> (result: Result<TarEntry, OpaqueReason>)
        requires
            block@.len() == BLOCK,
        ensures
            final(self)@.offset == old(self)@.offset,
            final(self)@.state == old(self)@.state,
            final(self)@.block == old(self)@.block,
            final(self)@.overrides.buffer == old(self)@.overrides.buffer,
            match build_entry_spec(old(self)@, block@, typeflag, header_size) {
                Ok((w, entry)) => result is Ok && result->Ok_0@ == entry && final(self)@ == w,
                Err(e) => result == Err::<TarEntry, OpaqueReason>(e),
            },
    {
        let path = match self.overrides.path.take() {
            Some(path) => path,
            None => header_path_of(block),
        };
        let link = match self.overrides.link.take() {
            Some(link) => link,
            None => c_string(block.as_slice(), 157, 257),
        };
        let size = match self.overrides.size.take() {
            Some(size) => size,
            None => header_size,
        };
        let kind = if typeflag == 48 || typeflag == 0 || typeflag == 55 {
            TarKind::Regular
        } else if typeflag == 53 {
            TarKind::Directory
        } else if typeflag == 50 {
            TarKind::Symlink { target: link }
        } else if typeflag == 49 {
            TarKind::Hardlink { target: link }
        } else if typeflag == 51 || typeflag == 52 || typeflag == 54 {
            TarKind::Other { tag: typeflag }
        } else {
            return Err(self.malformed("unknown tar entry type"));
        };
        let mode = match parse_octal(block.as_slice(), 100, 108) {
            Some(mode) => if mode <= 0xFFFF_FFFF { Some(mode as u32) } else { None },
            None => None,
        };
        let mtime = parse_octal(block.as_slice(), 136, 148);
        Ok(TarEntry { path, kind, size, mode, mtime })
    }
}

} // verus!
