//! The canonical TAR writer's output walks back: the TAR walker, fed
//! what the writer wrote for a member, reports that member — its
//! path, its size, exactly its bytes as data — and then the end of
//! the archive.

use vstd::prelude::*;

use vstd::string::StringSliceAdditionalSpecFns;

use super::read_back::{canonical_overrides, lemma_pax_records_read};
use super::tar::{
    entry_chunks, header_chunks, header_size, header_spec, lemma_header_round_trip, octal_room, padded_chunks, pax_records_spec,
    size_overflows, zeros, BLOCK, DIRECTORY_MODE, MEMBER_MODE, PAX_HEADER_NAME,
};
use crate::decompose::fault::OpaqueReason;
use crate::decompose::sink::EntryKind;
use crate::decompose::tar::{
    all_zero, apply_pax_spec, tar_finish_spec, tar_initial, tar_push_spec, tar_walk, OverrideKind, OverridesModel,
    TarEventModel, TarKindModel, TarState, TarWalkerModel, OVERRIDE_MAX,
};

verus! {

broadcast use vstd::seq_lib::group_seq_properties;

/// `n` quiet events.
pub open spec fn quiet_events(n: nat) -> Seq<TarEventModel> {
    Seq::new(n, |i: int| TarEventModel::Quiet)
}

/// `n` single-byte data events.
pub open spec fn data_events(n: nat) -> Seq<TarEventModel> {
    Seq::new(n, |i: int| TarEventModel::Data(1))
}

/// The zero padding that completes a member of `size` bytes to a
/// whole block.
pub open spec fn member_padding(size: u64) -> nat {
    ((512 - size % 512) % 512) as nat
}

/// What the writer emits for one member of `data` under a short
/// path, followed by the end marker.
pub open spec fn member_archive(path: Seq<u8>, data: Seq<u8>) -> Seq<u8> {
    header_spec(path, data.len() as u64, MEMBER_MODE, 48, Seq::empty()) + data + zeros(member_padding(data.len() as u64))
        + zeros(512) + zeros(512)
}

/// Walking `a + b` is walking `a`, then `b` from where `a` left off.
proof fn lemma_tar_walk_split(w: TarWalkerModel, a: Seq<u8>, b: Seq<u8>)
    ensures
        tar_walk(w, a + b) == match tar_walk(w, a) {
            Err(e) => Err(e),
            Ok((w1, e1)) => match tar_walk(w1, b) {
                Err(e) => Err(e),
                Ok((w2, e2)) => Ok((w2, e1 + e2)),
            },
        },
    decreases b.len(),
{
    if b.len() == 0 {
        assert(a + b =~= a);
        match tar_walk(w, a) {
            Err(_) => {},
            Ok((w1, e1)) => {
                assert(e1 + Seq::<TarEventModel>::empty() =~= e1);
            },
        }
    } else {
        lemma_tar_walk_split(w, a, b.drop_last());
        assert((a + b).drop_last() =~= a + b.drop_last());
        assert((a + b).last() == b.last());
        match tar_walk(w, a) {
            Err(_) => {},
            Ok((w1, e1)) => match tar_walk(w1, b.drop_last()) {
                Err(_) => {},
                Ok((w2, e2)) => match tar_push_spec(w2, b.last()) {
                    Err(_) => {},
                    Ok((w3, event)) => {
                        assert((e1 + e2).push(event) =~= e1 + e2.push(event));
                    },
                },
            },
        }
    }
}

/// Header bytes short of a block only collect: each is a quiet step
/// that appends it to the pending block.
proof fn lemma_walk_collects(w: TarWalkerModel, bytes: Seq<u8>)
    requires
        w.state == TarState::Header || w.state == TarState::FirstZero,
        w.block.len() + bytes.len() < BLOCK,
        w.offset + bytes.len() <= u64::MAX,
    ensures
        tar_walk(w, bytes) == Ok::<(TarWalkerModel, Seq<TarEventModel>), OpaqueReason>((
            TarWalkerModel { block: w.block + bytes, offset: (w.offset + bytes.len()) as u64, ..w },
            quiet_events(bytes.len()),
        )),
    decreases bytes.len(),
{
    if bytes.len() == 0 {
        assert(w.block + bytes =~= w.block);
        assert(quiet_events(0) =~= Seq::<TarEventModel>::empty());
    } else {
        let prefix = bytes.drop_last();
        lemma_walk_collects(w, prefix);
        let w1 = TarWalkerModel { block: w.block + prefix, offset: (w.offset + prefix.len()) as u64, ..w };
        assert((w.block + prefix).push(bytes.last()) =~= w.block + bytes);
        let stepped = TarWalkerModel { block: w1.block.push(bytes.last()), ..w1 };
        assert(tar_push_spec(w1, bytes.last()) == Ok::<(TarWalkerModel, TarEventModel), OpaqueReason>((
            TarWalkerModel { offset: (w1.offset + 1) as u64, ..stepped },
            TarEventModel::Quiet,
        )));
        assert(TarWalkerModel { offset: (w1.offset + 1) as u64, ..stepped } == TarWalkerModel {
            block: w.block + bytes,
            offset: (w.offset + bytes.len()) as u64,
            ..w
        });
        assert(quiet_events(prefix.len()).push(TarEventModel::Quiet) =~= quiet_events(bytes.len()));
    }
}

/// Member data: each byte is one data event, and the last owed byte
/// moves on to the padding, or to the next header when there is none.
proof fn lemma_walk_data(w: TarWalkerModel, remaining: u64, padding: usize, bytes: Seq<u8>)
    requires
        w.state == (TarState::Data { remaining, padding }),
        0 < remaining,
        bytes.len() <= remaining,
        w.offset + bytes.len() <= u64::MAX,
    ensures
        tar_walk(w, bytes) == Ok::<(TarWalkerModel, Seq<TarEventModel>), OpaqueReason>((
            TarWalkerModel {
                state: if bytes.len() == remaining && padding == 0 {
                    TarState::Header
                } else {
                    TarState::Data { remaining: (remaining - bytes.len()) as u64, padding }
                },
                offset: (w.offset + bytes.len()) as u64,
                ..w
            },
            data_events(bytes.len()),
        )),
    decreases bytes.len(),
{
    if bytes.len() == 0 {
        assert(data_events(0) =~= Seq::<TarEventModel>::empty());
    } else {
        let prefix = bytes.drop_last();
        lemma_walk_data(w, remaining, padding, prefix);
        assert(data_events(prefix.len()).push(TarEventModel::Data(1)) =~= data_events(bytes.len()));
    }
}

/// Member padding: each zero byte is quiet, and the last moves on to
/// the next header.
proof fn lemma_walk_padding(w: TarWalkerModel, padding: usize, bytes: Seq<u8>)
    requires
        w.state == (TarState::Data { remaining: 0, padding }),
        0 < padding,
        bytes.len() <= padding,
        all_zero(bytes),
        w.offset + bytes.len() <= u64::MAX,
    ensures
        tar_walk(w, bytes) == Ok::<(TarWalkerModel, Seq<TarEventModel>), OpaqueReason>((
            TarWalkerModel {
                state: if bytes.len() == padding {
                    TarState::Header
                } else {
                    TarState::Data { remaining: 0, padding: (padding - bytes.len()) as usize }
                },
                offset: (w.offset + bytes.len()) as u64,
                ..w
            },
            quiet_events(bytes.len()),
        )),
    decreases bytes.len(),
{
    if bytes.len() == 0 {
        assert(quiet_events(0) =~= Seq::<TarEventModel>::empty());
    } else {
        let prefix = bytes.drop_last();
        assert(bytes.last() == 0);
        lemma_walk_padding(w, padding, prefix);
        assert(quiet_events(prefix.len()).push(TarEventModel::Quiet) =~= quiet_events(bytes.len()));
    }
}

/// A zero block at a header boundary: the first is quiet and awaits
/// its twin; the second ends the archive.
proof fn lemma_walk_zero_block(w: TarWalkerModel)
    requires
        w.state == TarState::Header || w.state == TarState::FirstZero,
        w.block.len() == 0,
        w.offset + BLOCK <= u64::MAX,
    ensures
        tar_walk(w, zeros(512)) == Ok::<(TarWalkerModel, Seq<TarEventModel>), OpaqueReason>((
            TarWalkerModel {
                state: if w.state == TarState::Header { TarState::FirstZero } else { TarState::Ended },
                offset: (w.offset + BLOCK) as u64,
                ..w
            },
            quiet_events(511).push(if w.state == TarState::Header { TarEventModel::Quiet } else { TarEventModel::End }),
        )),
{
    let block = zeros(512);
    let prefix = block.drop_last();
    lemma_walk_collects(w, prefix);
    let w1 = TarWalkerModel { block: w.block + prefix, offset: (w.offset + prefix.len()) as u64, ..w };
    assert(w1.block.push(block.last()) =~= block);
    assert(all_zero(block));
}

/// A canonical member header walks back: from a header boundary with
/// no pending overrides, the walker takes its 512 bytes quietly but
/// for the last, which reports the member with the written path
/// (short and NUL-free, so it fits the name field) and size; it then
/// expects the member's data, or the next header for an empty
/// member.
pub proof fn lemma_member_header_walks_back(w: TarWalkerModel, path: Seq<u8>, size: u64)
    requires
        w.state == TarState::Header,
        w.block.len() == 0,
        w.overrides.path is None,
        w.overrides.link is None,
        w.overrides.size is None,
        w.offset + BLOCK <= u64::MAX,
        size < octal_room(11),
        path.len() <= 100,
        forall|i: int| 0 <= i < path.len() ==> path[i] != 0,
    ensures
        tar_walk(w, header_spec(path, size, MEMBER_MODE, 48, Seq::empty())) matches Ok((w2, events)) && {
            &&& events.len() == BLOCK
            &&& events.subrange(0, BLOCK - 1) == quiet_events((BLOCK - 1) as nat)
            &&& events[BLOCK - 1] matches TarEventModel::Entry(entry) && entry.path == path && entry.size == size
                && entry.kind == TarKindModel::Regular
            &&& w2.state == (if size > 0 {
                TarState::Data { remaining: size, padding: member_padding(size) as usize }
            } else {
                TarState::Header
            })
            &&& w2.block.len() == 0
            &&& w2.saw_entry
            &&& w2.offset == w.offset + BLOCK
            &&& w2.overrides == w.overrides
        },
{
    reveal_with_fuel(octal_room, 8);
    let header = header_spec(path, size, MEMBER_MODE, 48, Seq::empty());
    lemma_header_round_trip(path, size, MEMBER_MODE, 48, Seq::empty());
    let prefix = header.drop_last();
    lemma_walk_collects(w, prefix);
    let w1 = TarWalkerModel { block: w.block + prefix, offset: (w.offset + prefix.len()) as u64, ..w };
    assert(w1.block.push(header.last()) =~= header);
    assert(!all_zero(header)) by {
        assert(header[156] == 48);
    }
    let events = tar_walk(w, header)->Ok_0.1;
    assert(events.subrange(0, BLOCK - 1) =~= quiet_events((BLOCK - 1) as nat));
}

/// A member's data and its padding: one data event per byte, quiet
/// padding, and the walker back at a header boundary.
proof fn lemma_walk_body(w: TarWalkerModel, data: Seq<u8>)
    requires
        data.len() <= u64::MAX,
        w.state == (if data.len() > 0 {
            TarState::Data { remaining: data.len() as u64, padding: member_padding(data.len() as u64) as usize }
        } else {
            TarState::Header
        }),
        w.offset + data.len() + BLOCK <= u64::MAX,
    ensures
        tar_walk(w, data + zeros(member_padding(data.len() as u64))) == Ok::<(TarWalkerModel, Seq<TarEventModel>), OpaqueReason>((
            TarWalkerModel {
                state: TarState::Header,
                offset: (w.offset + data.len() + member_padding(data.len() as u64)) as u64,
                ..w
            },
            data_events(data.len()) + quiet_events(member_padding(data.len() as u64)),
        )),
{
    let size = data.len() as u64;
    let pad = member_padding(size);
    if size == 0 {
        lemma_walk_body_empty(w, data);
    } else if pad == 0 {
        lemma_walk_body_aligned(w, data);
    } else {
        lemma_walk_body_padded(w, data);
    }
}

/// An empty member has no data and no padding.
proof fn lemma_walk_body_empty(w: TarWalkerModel, data: Seq<u8>)
    requires
        data.len() == 0,
    ensures
        tar_walk(w, data + zeros(member_padding(data.len() as u64))) == Ok::<(TarWalkerModel, Seq<TarEventModel>), OpaqueReason>((
            TarWalkerModel { offset: (w.offset + data.len() + member_padding(data.len() as u64)) as u64, ..w },
            data_events(data.len()) + quiet_events(member_padding(data.len() as u64)),
        )),
{
    assert(member_padding(0) == 0);
    assert(data + zeros(0) =~= Seq::<u8>::empty());
    assert(data_events(0) + quiet_events(0) =~= Seq::<TarEventModel>::empty());
    assert(TarWalkerModel { offset: (w.offset + 0 + 0) as u64, ..w } == w);
}

/// A member that fills whole blocks has no padding.
proof fn lemma_walk_body_aligned(w: TarWalkerModel, data: Seq<u8>)
    requires
        0 < data.len() <= u64::MAX,
        member_padding(data.len() as u64) == 0,
        w.state == (TarState::Data { remaining: data.len() as u64, padding: 0 }),
        w.offset + data.len() <= u64::MAX,
    ensures
        tar_walk(w, data + zeros(member_padding(data.len() as u64))) == Ok::<(TarWalkerModel, Seq<TarEventModel>), OpaqueReason>((
            TarWalkerModel {
                state: TarState::Header,
                offset: (w.offset + data.len() + member_padding(data.len() as u64)) as u64,
                ..w
            },
            data_events(data.len()) + quiet_events(member_padding(data.len() as u64)),
        )),
{
    lemma_walk_data(w, data.len() as u64, 0, data);
    assert(data + zeros(0) =~= data);
    assert(data_events(data.len()) + quiet_events(0) =~= data_events(data.len()));
}

/// A member's data, then the zero padding that completes its block.
proof fn lemma_walk_body_padded(w: TarWalkerModel, data: Seq<u8>)
    requires
        0 < data.len() <= u64::MAX,
        member_padding(data.len() as u64) > 0,
        w.state == (TarState::Data {
            remaining: data.len() as u64,
            padding: member_padding(data.len() as u64) as usize,
        }),
        w.offset + data.len() + BLOCK <= u64::MAX,
    ensures
        tar_walk(w, data + zeros(member_padding(data.len() as u64))) == Ok::<(TarWalkerModel, Seq<TarEventModel>), OpaqueReason>((
            TarWalkerModel {
                state: TarState::Header,
                offset: (w.offset + data.len() + member_padding(data.len() as u64)) as u64,
                ..w
            },
            data_events(data.len()) + quiet_events(member_padding(data.len() as u64)),
        )),
{
    let size = data.len() as u64;
    let pad = member_padding(size);
    assert(pad < 512);
    lemma_walk_data(w, size, pad as usize, data);
    let wd = TarWalkerModel {
        state: TarState::Data { remaining: 0, padding: pad as usize },
        offset: (w.offset + data.len()) as u64,
        ..w
    };
    assert(all_zero(zeros(pad)));
    lemma_walk_padding(wd, pad as usize, zeros(pad));
    lemma_tar_walk_split(w, data, zeros(pad));
}

/// The end marker: two zero blocks end the archive.
proof fn lemma_walk_end_marker(w: TarWalkerModel)
    requires
        w.state == TarState::Header,
        w.block.len() == 0,
        w.offset + 2 * BLOCK <= u64::MAX,
    ensures
        tar_walk(w, zeros(512) + zeros(512)) == Ok::<(TarWalkerModel, Seq<TarEventModel>), OpaqueReason>((
            TarWalkerModel { state: TarState::Ended, offset: (w.offset + 2 * BLOCK) as u64, ..w },
            quiet_events(1023).push(TarEventModel::End),
        )),
{
    lemma_walk_zero_block(w);
    let (w3, e3) = tar_walk(w, zeros(512))->Ok_0;
    lemma_walk_zero_block(w3);
    lemma_tar_walk_split(w, zeros(512), zeros(512));
    assert(quiet_events(511).push(TarEventModel::Quiet) + quiet_events(511).push(TarEventModel::End)
        =~= quiet_events(1023).push(TarEventModel::End));
}

/// A canonical one-member archive walks back: the walker, fed what
/// the writer emits for a member of `data` under a short NUL-free
/// path and then the end marker, accepts the whole archive and
/// reports one entry with that path and size, a data event for
/// exactly the bytes of `data`, and the end of the archive — every
/// other byte is quiet.
#[verifier::rlimit(40)]
pub proof fn lemma_member_archive_walks_back(path: Seq<u8>, data: Seq<u8>)
    requires
        data.len() < octal_room(11),
        path.len() <= 100,
        forall|i: int| 0 <= i < path.len() ==> path[i] != 0,
    ensures
        tar_walk(tar_initial(), member_archive(path, data)) matches Ok((w, events)) && {
            let size = data.len() as u64;
            let tail_start = BLOCK + data.len();
            &&& tar_finish_spec(w) == Ok::<(), OpaqueReason>(())
            &&& events.len() == member_archive(path, data).len()
            &&& events.subrange(0, BLOCK - 1) == quiet_events((BLOCK - 1) as nat)
            &&& events[BLOCK - 1] matches TarEventModel::Entry(entry) && entry.path == path && entry.size == size
                && entry.kind == TarKindModel::Regular
            &&& events.subrange(BLOCK as int, tail_start as int) == data_events(data.len())
            &&& member_archive(path, data).subrange(BLOCK as int, tail_start as int) == data
            &&& events.subrange(tail_start as int, events.len() - 1) == quiet_events(member_padding(size) + 1023)
            &&& events.last() == TarEventModel::End
        },
{
    reveal_with_fuel(octal_room, 12);
    let size = data.len() as u64;
    let pad = member_padding(size);
    let header = header_spec(path, size, MEMBER_MODE, 48, Seq::empty());
    let body = data + zeros(pad);
    let marker = zeros(512) + zeros(512);
    lemma_header_round_trip(path, size, MEMBER_MODE, 48, Seq::empty());
    let w0 = tar_initial();
    lemma_member_header_walks_back(w0, path, size);
    let (w1, e1) = tar_walk(w0, header)->Ok_0;
    lemma_walk_body(w1, data);
    let (w2, e2) = tar_walk(w1, body)->Ok_0;
    lemma_walk_end_marker(w2);
    let (w4, e4) = tar_walk(w2, marker)->Ok_0;
    lemma_tar_walk_split(w0, header, body);
    lemma_tar_walk_split(w0, header + body, marker);
    assert(member_archive(path, data) =~= header + body + marker);
    let events = e1 + e2 + e4;
    assert(tar_walk(w0, member_archive(path, data)) == Ok::<(TarWalkerModel, Seq<TarEventModel>), OpaqueReason>((w4, events)));
    assert(events.subrange(0, BLOCK - 1) =~= e1.subrange(0, BLOCK - 1));
    assert(events[BLOCK - 1] == e1[BLOCK - 1]);
    assert(member_archive(path, data).subrange(BLOCK as int, BLOCK + data.len()) =~= data);
    assert(events.subrange(BLOCK as int, BLOCK + data.len()) =~= data_events(data.len()));
    assert(events.subrange(BLOCK + data.len(), events.len() - 1) =~= quiet_events(pad + 1023));
}


/// No pending overrides.
pub open spec fn no_overrides() -> OverridesModel {
    OverridesModel { path: None, link: None, size: None, buffer: Seq::empty() }
}

/// Override payload bytes short of its end only collect: each is a
/// quiet step that appends it to the override buffer.
proof fn lemma_override_collect(w: TarWalkerModel, remaining: u64, padding: usize, bytes: Seq<u8>)
    requires
        w.state == (TarState::OverrideData { remaining, padding, kind: OverrideKind::PaxNext }),
        bytes.len() <= remaining,
        bytes.len() == remaining ==> padding > 0,
        w.overrides.buffer.len() + bytes.len() <= OVERRIDE_MAX,
        w.offset + bytes.len() <= u64::MAX,
    ensures
        tar_walk(w, bytes) == Ok::<(TarWalkerModel, Seq<TarEventModel>), OpaqueReason>((
            TarWalkerModel {
                state: TarState::OverrideData {
                    remaining: (remaining - bytes.len()) as u64,
                    padding,
                    kind: OverrideKind::PaxNext,
                },
                overrides: OverridesModel { buffer: w.overrides.buffer + bytes, ..w.overrides },
                offset: (w.offset + bytes.len()) as u64,
                ..w
            },
            quiet_events(bytes.len()),
        )),
    decreases bytes.len(),
{
    if bytes.len() == 0 {
        assert(w.overrides.buffer + bytes =~= w.overrides.buffer);
        assert(quiet_events(0) =~= Seq::<TarEventModel>::empty());
    } else {
        let prefix = bytes.drop_last();
        lemma_override_collect(w, remaining, padding, prefix);
        assert((w.overrides.buffer + prefix).push(bytes.last()) =~= w.overrides.buffer + bytes);
        assert(quiet_events(prefix.len()).push(TarEventModel::Quiet) =~= quiet_events(bytes.len()));
    }
}

/// Override padding short of its end is quiet.
proof fn lemma_override_padding(w: TarWalkerModel, padding: usize, bytes: Seq<u8>)
    requires
        w.state == (TarState::OverrideData { remaining: 0, padding, kind: OverrideKind::PaxNext }),
        bytes.len() < padding,
        all_zero(bytes),
        w.offset + bytes.len() <= u64::MAX,
    ensures
        tar_walk(w, bytes) == Ok::<(TarWalkerModel, Seq<TarEventModel>), OpaqueReason>((
            TarWalkerModel {
                state: TarState::OverrideData {
                    remaining: 0,
                    padding: (padding - bytes.len()) as usize,
                    kind: OverrideKind::PaxNext,
                },
                offset: (w.offset + bytes.len()) as u64,
                ..w
            },
            quiet_events(bytes.len()),
        )),
    decreases bytes.len(),
{
    if bytes.len() == 0 {
        assert(quiet_events(0) =~= Seq::<TarEventModel>::empty());
    } else {
        let prefix = bytes.drop_last();
        assert(bytes.last() == 0);
        lemma_override_padding(w, padding, prefix);
        assert(quiet_events(prefix.len()).push(TarEventModel::Quiet) =~= quiet_events(bytes.len()));
    }
}

/// The last byte of a pax payload: the collected records are applied
/// and the walker returns to a header boundary.
proof fn lemma_pax_last_byte(w: TarWalkerModel, padding: usize, byte: u8, ov2: OverridesModel)
    requires
        w.state == (if padding == 0 {
            TarState::OverrideData { remaining: 1, padding: 0, kind: OverrideKind::PaxNext }
        } else {
            TarState::OverrideData { remaining: 0, padding, kind: OverrideKind::PaxNext }
        }),
        padding <= 1,
        padding == 1 ==> byte == 0,
        padding == 0 ==> w.overrides.buffer.len() < OVERRIDE_MAX,
        w.offset < u64::MAX,
        apply_pax_spec(
            OverridesModel { buffer: Seq::empty(), ..w.overrides },
            if padding == 0 { w.overrides.buffer.push(byte) } else { w.overrides.buffer },
            w.offset,
        ) == Ok::<OverridesModel, OpaqueReason>(ov2),
    ensures
        tar_push_spec(w, byte) == Ok::<(TarWalkerModel, TarEventModel), OpaqueReason>((
            TarWalkerModel { state: TarState::Header, overrides: ov2, offset: (w.offset + 1) as u64, ..w },
            TarEventModel::Quiet,
        )),
{
}

/// A pax payload filling whole blocks: collected quietly, then
/// applied as its last byte is taken.
#[verifier::rlimit(40)]
proof fn lemma_walk_pax_aligned(w: TarWalkerModel, pax: Seq<u8>, ov2: OverridesModel)
    requires
        w.state == (TarState::OverrideData { remaining: pax.len() as u64, padding: 0, kind: OverrideKind::PaxNext }),
        0 < pax.len() <= OVERRIDE_MAX,
        w.overrides.buffer.len() == 0,
        w.offset + pax.len() <= u64::MAX,
        apply_pax_spec(w.overrides, pax, (w.offset + pax.len() - 1) as u64) == Ok::<OverridesModel, OpaqueReason>(ov2),
    ensures
        tar_walk(w, pax) == Ok::<(TarWalkerModel, Seq<TarEventModel>), OpaqueReason>((
            TarWalkerModel { state: TarState::Header, overrides: ov2, offset: (w.offset + pax.len()) as u64, ..w },
            quiet_events(pax.len()),
        )),
{
    let n = pax.len();
    let init = pax.drop_last();
    lemma_override_collect(w, n as u64, 0, init);
    let w1 = TarWalkerModel {
        state: TarState::OverrideData { remaining: 1, padding: 0, kind: OverrideKind::PaxNext },
        overrides: OverridesModel { buffer: w.overrides.buffer + init, ..w.overrides },
        offset: (w.offset + init.len()) as u64,
        ..w
    };
    assert(w.overrides.buffer + init =~= init);
    assert(init.push(pax.last()) =~= pax);
    assert(OverridesModel { buffer: Seq::empty(), ..w1.overrides } == w.overrides);
    lemma_pax_last_byte(w1, 0, pax.last(), ov2);
    assert(quiet_events((n - 1) as nat).push(TarEventModel::Quiet) =~= quiet_events(n));
}

/// A pax payload with padding: collected quietly, the padding quiet,
/// then applied as the last padding byte is taken.
#[verifier::rlimit(40)]
proof fn lemma_walk_pax_padded(w: TarWalkerModel, pax: Seq<u8>, pad: nat, ov2: OverridesModel)
    requires
        w.state == (TarState::OverrideData { remaining: pax.len() as u64, padding: pad as usize, kind: OverrideKind::PaxNext }),
        0 < pad < 512,
        0 < pax.len() <= OVERRIDE_MAX,
        w.overrides.buffer.len() == 0,
        w.offset + pax.len() + pad <= u64::MAX,
        apply_pax_spec(w.overrides, pax, (w.offset + pax.len() + pad - 1) as u64) == Ok::<OverridesModel, OpaqueReason>(ov2),
    ensures
        tar_walk(w, pax + zeros(pad)) == Ok::<(TarWalkerModel, Seq<TarEventModel>), OpaqueReason>((
            TarWalkerModel { state: TarState::Header, overrides: ov2, offset: (w.offset + pax.len() + pad) as u64, ..w },
            quiet_events(pax.len() + pad),
        )),
{
    let n = pax.len();
    lemma_override_collect(w, n as u64, pad as usize, pax);
    let w1 = TarWalkerModel {
        state: TarState::OverrideData { remaining: 0, padding: pad as usize, kind: OverrideKind::PaxNext },
        overrides: OverridesModel { buffer: w.overrides.buffer + pax, ..w.overrides },
        offset: (w.offset + n) as u64,
        ..w
    };
    assert(w.overrides.buffer + pax =~= pax);
    let zs = zeros((pad - 1) as nat);
    assert(all_zero(zs));
    lemma_override_padding(w1, pad as usize, zs);
    let w2 = TarWalkerModel {
        state: TarState::OverrideData { remaining: 0, padding: 1, kind: OverrideKind::PaxNext },
        offset: (w1.offset + zs.len()) as u64,
        ..w1
    };
    lemma_tar_walk_split(w, pax, zs);
    let e2 = quiet_events((n + pad - 1) as nat);
    assert(quiet_events(n) + quiet_events((pad - 1) as nat) =~= e2);
    assert(tar_walk(w, pax + zs) == Ok::<(TarWalkerModel, Seq<TarEventModel>), OpaqueReason>((w2, e2)));
    assert(OverridesModel { buffer: Seq::empty(), ..w2.overrides } == w.overrides);
    lemma_pax_last_byte(w2, 1, 0u8, ov2);
    let all = pax + zeros(pad);
    assert(all.drop_last() =~= pax + zs);
    assert(all.last() == 0u8);
    assert(e2.push(TarEventModel::Quiet) =~= quiet_events(n + pad));
}

/// A pax header for `n` record bytes: quiet, then the walker collects
/// the records.
proof fn lemma_pax_header_walks(w: TarWalkerModel, n: u64)
    requires
        w.state == TarState::Header,
        w.block.len() == 0,
        0 < n < octal_room(11),
        w.offset + BLOCK <= u64::MAX,
    ensures
        tar_walk(w, header_spec(PAX_HEADER_NAME.spec_bytes(), n, MEMBER_MODE, 120, Seq::empty()))
            == Ok::<(TarWalkerModel, Seq<TarEventModel>), OpaqueReason>((
            TarWalkerModel {
                state: TarState::OverrideData {
                    remaining: n,
                    padding: member_padding(n) as usize,
                    kind: OverrideKind::PaxNext,
                },
                overrides: OverridesModel { buffer: Seq::empty(), ..w.overrides },
                offset: (w.offset + BLOCK) as u64,
                ..w
            },
            quiet_events(BLOCK as nat),
        )),
{
    reveal_with_fuel(octal_room, 8);
    let header = header_spec(PAX_HEADER_NAME.spec_bytes(), n, MEMBER_MODE, 120, Seq::empty());
    lemma_header_round_trip(PAX_HEADER_NAME.spec_bytes(), n, MEMBER_MODE, 120, Seq::empty());
    let prefix = header.drop_last();
    lemma_walk_collects(w, prefix);
    let w1 = TarWalkerModel { block: w.block + prefix, offset: (w.offset + prefix.len()) as u64, ..w };
    assert(w1.block.push(header.last()) =~= header);
    assert(!all_zero(header)) by {
        assert(header[156] == 120);
    }
    assert(quiet_events((BLOCK - 1) as nat).push(TarEventModel::Quiet) =~= quiet_events(BLOCK as nat));
}


/// One item the canonical TAR writer writes: a member (type `0`) with
/// its bytes, or an entry (directory `5`, symlink `2`, hard link `1`,
/// device or FIFO `3`, `4`, `6`) with a link target or none.
pub struct TarItem {
    /// The path.
    pub path: Seq<u8>,
    /// The ustar type flag.
    pub typeflag: u8,
    /// The mode bits.
    pub mode: u32,
    /// The link target (links only).
    pub link: Seq<u8>,
    /// The member's bytes (members only).
    pub data: Seq<u8>,
}

/// An item's size.
pub open spec fn item_size(it: TarItem) -> u64 {
    it.data.len() as u64
}

/// The pax records the writer emits for an item.
pub open spec fn item_pax(it: TarItem) -> Seq<u8> {
    pax_records_spec(it.path, it.link, item_size(it))
}

/// The pax header and its padded records, when there are records.
pub open spec fn pax_block(pax: Seq<u8>) -> Seq<u8> {
    if pax.len() > 0 {
        header_spec(PAX_HEADER_NAME.spec_bytes(), pax.len() as u64, MEMBER_MODE, 120, Seq::empty()) + pax + zeros(
            member_padding(pax.len() as u64),
        )
    } else {
        Seq::empty()
    }
}

/// The ustar header the writer emits for an item.
pub open spec fn item_ustar(it: TarItem) -> Seq<u8> {
    header_spec(it.path, header_size(item_size(it)), it.mode, it.typeflag, it.link)
}

/// Every byte the writer emits for an item: its headers, its bytes
/// and their padding.
pub open spec fn item_bytes(it: TarItem) -> Seq<u8> {
    header_chunks(it.path, item_size(it), it.mode, it.typeflag, it.link).flatten() + it.data + zeros(
        member_padding(item_size(it)),
    )
}

/// The item a member of `data` under `path` is.
pub open spec fn member_item(path: Seq<u8>, data: Seq<u8>) -> TarItem {
    TarItem { path, typeflag: 48, mode: MEMBER_MODE, link: Seq::empty(), data }
}

/// The item a non-member entry is.
pub open spec fn entry_item(kind: EntryKind, path: Seq<u8>) -> TarItem {
    match kind {
        EntryKind::Directory => TarItem { path, typeflag: 53, mode: DIRECTORY_MODE, link: Seq::empty(), data: Seq::empty() },
        EntryKind::Symlink { target } => TarItem { path, typeflag: 50, mode: MEMBER_MODE, link: target@, data: Seq::empty() },
        EntryKind::Hardlink { target } => TarItem { path, typeflag: 49, mode: MEMBER_MODE, link: target@, data: Seq::empty() },
        EntryKind::Other { tag } => TarItem { path, typeflag: tag, mode: MEMBER_MODE, link: Seq::empty(), data: Seq::empty() },
    }
}

/// The writer's chunks for an entry are its item's header chunks.
pub proof fn lemma_entry_item_chunks(kind: EntryKind, path: Seq<u8>)
    ensures
        entry_chunks(kind, path) == header_chunks(
            path,
            0,
            entry_item(kind, path).mode,
            entry_item(kind, path).typeflag,
            entry_item(kind, path).link,
        ),
        entry_item(kind, path).data.len() == 0,
        entry_item(kind, path).path == path,
{
    match kind {
        EntryKind::Directory => {},
        EntryKind::Symlink { target } => {},
        EntryKind::Hardlink { target } => {},
        EntryKind::Other { tag } => {},
    }
}

/// A byte string with no NUL.
pub open spec fn nul_free(bytes: Seq<u8>) -> bool {
    forall|i: int| 0 <= i < bytes.len() ==> bytes[i] != 0
}

/// An item the walker reads back: a type flag the walker reports as
/// that kind, no bytes unless a member, a link target only on a link,
/// short names free of NUL (a long one goes in a pax record, which
/// holds any bytes), and a record set within the walker's bound.
pub open spec fn readable_item(it: TarItem) -> bool {
    &&& it.typeflag == 48 || it.typeflag == 53 || it.typeflag == 50 || it.typeflag == 49 || it.typeflag == 51
        || it.typeflag == 52 || it.typeflag == 54
    &&& it.mode == MEMBER_MODE || it.mode == DIRECTORY_MODE
    &&& it.typeflag != 48 ==> it.data.len() == 0
    &&& !(it.typeflag == 50 || it.typeflag == 49) ==> it.link.len() == 0
    &&& it.path.len() <= 100 ==> nul_free(it.path)
    &&& it.link.len() <= 100 ==> nul_free(it.link)
    &&& it.data.len() <= u64::MAX
    &&& item_pax(it).len() <= OVERRIDE_MAX
}

/// The kind the walker reports for an item.
pub open spec fn item_kind(it: TarItem) -> TarKindModel {
    if it.typeflag == 48 {
        TarKindModel::Regular
    } else if it.typeflag == 53 {
        TarKindModel::Directory
    } else if it.typeflag == 50 {
        TarKindModel::Symlink { target: it.link }
    } else if it.typeflag == 49 {
        TarKindModel::Hardlink { target: it.link }
    } else {
        TarKindModel::Other { tag: it.typeflag }
    }
}

/// The item's header bytes are its pax block, then its ustar header.
proof fn lemma_item_header_bytes(it: TarItem)
    requires
        item_pax(it).len() <= OVERRIDE_MAX,
    ensures
        header_chunks(it.path, item_size(it), it.mode, it.typeflag, it.link).flatten() == pax_block(
            item_pax(it),
        ) + item_ustar(it),
{
    let pax = item_pax(it);
    let h = item_ustar(it);
    let chunks = header_chunks(it.path, item_size(it), it.mode, it.typeflag, it.link);
    seq![h].lemma_flatten_singleton();
    if pax.len() > 0 {
        let ph = header_spec(PAX_HEADER_NAME.spec_bytes(), pax.len() as u64, MEMBER_MODE, 120, Seq::empty());
        let pc = padded_chunks(pax);
        vstd::seq_lib::lemma_flatten_concat(seq![ph] + pc, seq![h]);
        vstd::seq_lib::lemma_flatten_concat(seq![ph], pc);
        seq![ph].lemma_flatten_singleton();
        if pax.len() % 512 != 0 {
            vstd::seq_lib::lemma_flatten_concat(seq![pax], seq![zeros((512 - pax.len() % 512) as nat)]);
            seq![pax].lemma_flatten_singleton();
            seq![zeros((512 - pax.len() % 512) as nat)].lemma_flatten_singleton();
            assert(seq![pax] + seq![zeros((512 - pax.len() % 512) as nat)] =~= pc);
            assert(member_padding(pax.len() as u64) == (512 - pax.len() % 512) as nat);
            assert(pc.flatten() =~= pax + zeros(member_padding(pax.len() as u64)));
        } else {
            seq![pax].lemma_flatten_singleton();
            assert(member_padding(pax.len() as u64) == 0);
            assert(zeros(member_padding(pax.len() as u64)) =~= Seq::<u8>::empty());
            assert(pc.flatten() =~= pax + zeros(member_padding(pax.len() as u64)));
        }
        assert(chunks == seq![ph] + pc + seq![h]);
        assert(pax_block(pax) =~= ph + pc.flatten());
        assert((seq![ph] + pc).flatten() =~= ph + pc.flatten());
    } else {
        assert(chunks =~= seq![h]);
        assert(pax_block(pax) + h =~= h);
    }
}

/// An item's ustar header walks back under the overrides its pax
/// records set: the entry is reported with the item's path, size and
/// kind, the overrides are consumed, and the walker expects the
/// member's bytes or the next header.
#[verifier::rlimit(60)]
proof fn lemma_item_ustar_walks(w: TarWalkerModel, it: TarItem)
    requires
        readable_item(it),
        w.state == TarState::Header,
        w.block.len() == 0,
        w.overrides == canonical_overrides(no_overrides(), it.path, it.link, item_size(it)),
        w.offset + BLOCK <= u64::MAX,
    ensures
        tar_walk(w, item_ustar(it)) matches Ok((w2, events)) && {
            &&& w2 == (TarWalkerModel {
                state: if it.typeflag == 48 && it.data.len() > 0 {
                    TarState::Data { remaining: item_size(it), padding: member_padding(item_size(it)) as usize }
                } else {
                    TarState::Header
                },
                overrides: no_overrides(),
                offset: (w.offset + BLOCK) as u64,
                saw_entry: true,
                ..w
            })
            &&& events.len() == BLOCK
            &&& events.subrange(0, BLOCK - 1) == quiet_events((BLOCK - 1) as nat)
            &&& events[BLOCK - 1] matches TarEventModel::Entry(entry) && entry.path == it.path && entry.size
                == item_size(it) && entry.kind == item_kind(it)
        },
{
    reveal_with_fuel(octal_room, 12);
    let size = item_size(it);
    let header = item_ustar(it);
    lemma_header_round_trip(it.path, header_size(size), it.mode, it.typeflag, it.link);
    let prefix = header.drop_last();
    lemma_walk_collects(w, prefix);
    let w1 = TarWalkerModel { block: w.block + prefix, offset: (w.offset + prefix.len()) as u64, ..w };
    assert(w1.block.push(header.last()) =~= header);
    assert(!all_zero(header)) by {
        assert(header[156] == it.typeflag);
    }
    let events = tar_walk(w, header)->Ok_0.1;
    assert(events.subrange(0, BLOCK - 1) =~= quiet_events((BLOCK - 1) as nat));
}


/// A record set within the walker's bound fits the size field.
proof fn lemma_override_max_fits()
    ensures
        OVERRIDE_MAX < octal_room(11),
        MEMBER_MODE < octal_room(7),
        DIRECTORY_MODE < octal_room(7),
{
    reveal_with_fuel(octal_room, 12);
}

/// With no records, the item sets no overrides.
proof fn lemma_no_pax_no_overrides(it: TarItem)
    requires
        item_pax(it).len() == 0,
    ensures
        canonical_overrides(no_overrides(), it.path, it.link, item_size(it)) == no_overrides(),
{
    let size = item_size(it);
    if it.path.len() > 100 || it.link.len() > 100 || size_overflows(size) {
        assert(item_pax(it).len() > 0);
    }
}

/// A pax payload and its padding, whichever the padding.
proof fn lemma_pax_payload_walks(w: TarWalkerModel, pax: Seq<u8>, target: OverridesModel)
    requires
        w.state == (TarState::OverrideData {
            remaining: pax.len() as u64,
            padding: member_padding(pax.len() as u64) as usize,
            kind: OverrideKind::PaxNext,
        }),
        0 < pax.len() <= OVERRIDE_MAX,
        w.overrides.buffer.len() == 0,
        w.offset + pax.len() + BLOCK <= u64::MAX,
        apply_pax_spec(w.overrides, pax, (w.offset + pax.len() + member_padding(pax.len() as u64) - 1) as u64)
            == Ok::<OverridesModel, OpaqueReason>(target),
    ensures
        tar_walk(w, pax + zeros(member_padding(pax.len() as u64))) == Ok::<(TarWalkerModel, Seq<TarEventModel>), OpaqueReason>((
            TarWalkerModel {
                state: TarState::Header,
                overrides: target,
                offset: (w.offset + pax.len() + member_padding(pax.len() as u64)) as u64,
                ..w
            },
            quiet_events(pax.len() + member_padding(pax.len() as u64)),
        )),
{
    let pad = member_padding(pax.len() as u64);
    if pad == 0 {
        lemma_walk_pax_aligned(w, pax, target);
        assert(pax + zeros(pad) =~= pax);
    } else {
        lemma_walk_pax_padded(w, pax, pad, target);
    }
}

/// A non-empty pax block walks quietly and leaves the overrides its
/// records set.
#[verifier::rlimit(60)]
proof fn lemma_pax_block_walks_records(w: TarWalkerModel, pax: Seq<u8>, target: OverridesModel)
    requires
        0 < pax.len() <= OVERRIDE_MAX,
        w.state == TarState::Header,
        w.block.len() == 0,
        w.overrides == no_overrides(),
        w.offset + pax_block(pax).len() + BLOCK <= u64::MAX,
        apply_pax_spec(
            no_overrides(),
            pax,
            (w.offset + BLOCK + pax.len() + member_padding(pax.len() as u64) - 1) as u64,
        ) == Ok::<OverridesModel, OpaqueReason>(target),
    ensures
        tar_walk(w, pax_block(pax)) == Ok::<(TarWalkerModel, Seq<TarEventModel>), OpaqueReason>((
            TarWalkerModel { overrides: target, offset: (w.offset + pax_block(pax).len()) as u64, ..w },
            quiet_events(pax_block(pax).len()),
        )),
{
    let n = pax.len();
    let pad = member_padding(n as u64);
    lemma_override_max_fits();
    let ph = header_spec(PAX_HEADER_NAME.spec_bytes(), n as u64, MEMBER_MODE, 120, Seq::empty());
    let payload = pax + zeros(pad);
    assert(pax_block(pax) == ph + payload);
    lemma_header_round_trip(PAX_HEADER_NAME.spec_bytes(), n as u64, MEMBER_MODE, 120, Seq::empty());
    assert(ph.len() == BLOCK);
    lemma_pax_header_walks(w, n as u64);
    let wa = TarWalkerModel {
        state: TarState::OverrideData { remaining: n as u64, padding: pad as usize, kind: OverrideKind::PaxNext },
        overrides: OverridesModel { buffer: Seq::empty(), ..w.overrides },
        offset: (w.offset + BLOCK) as u64,
        ..w
    };
    assert(wa.overrides == no_overrides());
    lemma_pax_payload_walks(wa, pax, target);
    let wb = TarWalkerModel { state: TarState::Header, overrides: target, offset: (wa.offset + n + pad) as u64, ..wa };
    lemma_tar_walk_split(w, ph, payload);
    assert(quiet_events(BLOCK as nat) + quiet_events(n + pad) =~= quiet_events(pax_block(pax).len()));
    assert(wb == TarWalkerModel { overrides: target, offset: (w.offset + pax_block(pax).len()) as u64, ..w });
}

/// An item's pax block walks quietly and leaves the overrides its
/// records set.
proof fn lemma_pax_block_walks(w: TarWalkerModel, it: TarItem)
    requires
        readable_item(it),
        w.state == TarState::Header,
        w.block.len() == 0,
        w.overrides == no_overrides(),
        w.offset + pax_block(item_pax(it)).len() + BLOCK <= u64::MAX,
    ensures
        tar_walk(w, pax_block(item_pax(it))) == Ok::<(TarWalkerModel, Seq<TarEventModel>), OpaqueReason>((
            TarWalkerModel {
                overrides: canonical_overrides(no_overrides(), it.path, it.link, item_size(it)),
                offset: (w.offset + pax_block(item_pax(it)).len()) as u64,
                ..w
            },
            quiet_events(pax_block(item_pax(it)).len()),
        )),
{
    if item_pax(it).len() == 0 {
        lemma_no_pax_no_overrides(it);
        assert(pax_block(item_pax(it)) =~= Seq::<u8>::empty());
        assert(quiet_events(0) =~= Seq::<TarEventModel>::empty());
        assert(tar_walk(w, Seq::<u8>::empty()) == Ok::<(TarWalkerModel, Seq<TarEventModel>), OpaqueReason>((w, Seq::empty())));
        assert(TarWalkerModel { overrides: no_overrides(), offset: (w.offset + 0) as u64, ..w } == w);
    } else {
        let pax = item_pax(it);
        lemma_pax_records_read(
            no_overrides(),
            it.path,
            it.link,
            item_size(it),
            (w.offset + BLOCK + pax.len() + member_padding(pax.len() as u64) - 1) as u64,
        );
        lemma_pax_block_walks_records(w, pax, canonical_overrides(no_overrides(), it.path, it.link, item_size(it)));
    }
}

/// The walker's events over one item's bytes report that item: quiet
/// headers but for the ustar header's last byte, which reports the
/// entry with the item's path, size and kind; one data event per
/// member byte; quiet padding.
pub open spec fn item_reported(events: Seq<TarEventModel>, it: TarItem) -> bool {
    let h = pax_block(item_pax(it)).len();
    let n = it.data.len();
    &&& events.len() == h + BLOCK + n + member_padding(item_size(it))
    &&& events.subrange(0, h + BLOCK - 1) == quiet_events((h + BLOCK - 1) as nat)
    &&& events[h + BLOCK - 1] matches TarEventModel::Entry(entry) && entry.path == it.path && entry.size
        == item_size(it) && entry.kind == item_kind(it)
    &&& events.subrange(h + BLOCK, h + BLOCK + n) == data_events(n)
    &&& events.subrange(h + BLOCK + n, events.len() as int) == quiet_events(member_padding(item_size(it)))
}

/// One item walks back from a header boundary with nothing pending.
#[verifier::rlimit(60)]
proof fn lemma_item_walks(w: TarWalkerModel, it: TarItem)
    requires
        readable_item(it),
        w.state == TarState::Header,
        w.block.len() == 0,
        w.overrides == no_overrides(),
        w.offset + item_bytes(it).len() + BLOCK <= u64::MAX,
    ensures
        tar_walk(w, item_bytes(it)) matches Ok((w2, events)) && {
            &&& w2 == (TarWalkerModel { offset: (w.offset + item_bytes(it).len()) as u64, saw_entry: true, ..w })
            &&& events.len() == item_bytes(it).len()
            &&& item_reported(events, it)
        },
{
    reveal_with_fuel(octal_room, 12);
    let size = item_size(it);
    let pb = pax_block(item_pax(it));
    let ustar = item_ustar(it);
    let body = it.data + zeros(member_padding(size));
    lemma_item_header_bytes(it);
    lemma_header_round_trip(it.path, header_size(size), it.mode, it.typeflag, it.link);
    assert(item_bytes(it) =~= pb + ustar + body);
    lemma_pax_block_walks(w, it);
    let w1 = TarWalkerModel {
        overrides: canonical_overrides(no_overrides(), it.path, it.link, size),
        offset: (w.offset + pb.len()) as u64,
        ..w
    };
    let e1 = quiet_events(pb.len());
    lemma_item_ustar_walks(w1, it);
    let (w2, e2) = tar_walk(w1, ustar)->Ok_0;
    lemma_walk_body(w2, it.data);
    let (w3, e3) = tar_walk(w2, body)->Ok_0;
    lemma_tar_walk_split(w, pb, ustar);
    lemma_tar_walk_split(w, pb + ustar, body);
    let events = e1 + e2 + e3;
    assert(tar_walk(w, item_bytes(it)) == Ok::<(TarWalkerModel, Seq<TarEventModel>), OpaqueReason>((w3, events)));
    let h = pb.len();
    let n = it.data.len();
    assert(events.subrange(0, h + BLOCK - 1) =~= quiet_events((h + BLOCK - 1) as nat)) by {
        assert forall|i: int| 0 <= i < h + BLOCK - 1 implies events[i] == TarEventModel::Quiet by {
            if i < h {
                assert(events[i] == e1[i]);
            } else {
                assert(events[i] == e2[i - h]);
                assert(e2.subrange(0, BLOCK - 1)[i - h] == e2[i - h]);
            }
        }
    }
    assert(events[h + BLOCK - 1] == e2[BLOCK - 1]);
    assert(events.subrange(h + BLOCK, h + BLOCK + n) =~= data_events(n));
    assert(events.subrange(h + BLOCK + n, events.len() as int) =~= quiet_events(member_padding(size)));
}


/// Every byte the writer emits for `items`, in order, before the end
/// marker.
pub open spec fn items_bytes(items: Seq<TarItem>) -> Seq<u8>
    decreases items.len(),
{
    if items.len() == 0 {
        Seq::empty()
    } else {
        items_bytes(items.drop_last()) + item_bytes(items.last())
    }
}

/// The walker's events over the items' bytes report each item, in
/// order.
pub open spec fn items_reported(events: Seq<TarEventModel>, items: Seq<TarItem>) -> bool
    decreases items.len(),
{
    if items.len() == 0 {
        events.len() == 0
    } else {
        let k = events.len() - item_bytes(items.last()).len();
        &&& k >= 0
        &&& items_reported(events.subrange(0, k), items.drop_last())
        &&& item_reported(events.subrange(k, events.len() as int), items.last())
    }
}

/// Walking nothing changes nothing.
proof fn lemma_tar_walk_empty(w: TarWalkerModel)
    ensures
        tar_walk(w, Seq::<u8>::empty()) == Ok::<(TarWalkerModel, Seq<TarEventModel>), OpaqueReason>((w, Seq::empty())),
{
}

/// Items walk back, each reported in order, leaving the walker at a
/// header boundary with nothing pending.
#[verifier::rlimit(40)]
proof fn lemma_items_walk_back(w: TarWalkerModel, items: Seq<TarItem>)
    requires
        forall|i: int| 0 <= i < items.len() ==> readable_item(#[trigger] items[i]),
        w.state == TarState::Header,
        w.block.len() == 0,
        w.overrides == no_overrides(),
        w.offset + items_bytes(items).len() + BLOCK <= u64::MAX,
    ensures
        tar_walk(w, items_bytes(items)) matches Ok((w2, events)) && {
            &&& w2 == (TarWalkerModel {
                offset: (w.offset + items_bytes(items).len()) as u64,
                saw_entry: w.saw_entry || items.len() > 0,
                ..w
            })
            &&& events.len() == items_bytes(items).len()
            &&& items_reported(events, items)
        },
    decreases items.len(),
{
    if items.len() == 0 {
        assert(items_bytes(items) == Seq::<u8>::empty());
        lemma_tar_walk_empty(w);
    } else {
        lemma_items_walk_back_step(w, items);
    }
}

/// The inductive step: the items but the last, then the last.
#[verifier::rlimit(40)]
proof fn lemma_items_walk_back_step(w: TarWalkerModel, items: Seq<TarItem>)
    requires
        items.len() > 0,
        forall|i: int| 0 <= i < items.len() ==> readable_item(#[trigger] items[i]),
        w.state == TarState::Header,
        w.block.len() == 0,
        w.overrides == no_overrides(),
        w.offset + items_bytes(items).len() + BLOCK <= u64::MAX,
    ensures
        tar_walk(w, items_bytes(items)) matches Ok((w2, events)) && {
            &&& w2 == (TarWalkerModel {
                offset: (w.offset + items_bytes(items).len()) as u64,
                saw_entry: true,
                ..w
            })
            &&& events.len() == items_bytes(items).len()
            &&& items_reported(events, items)
        },
    decreases items.len(), 0nat,
{
    let init = items.drop_last();
    let last = items.last();
    assert forall|i: int| 0 <= i < init.len() implies readable_item(#[trigger] init[i]) by {
        assert(init[i] == items[i]);
    }
    assert(readable_item(last)) by {
        assert(last == items[items.len() - 1]);
    }
    let before = items_bytes(init);
    let bytes = item_bytes(last);
    assert(items_bytes(items) == before + bytes);
    lemma_items_walk_back(w, init);
    let (w1, e1) = tar_walk(w, before)->Ok_0;
    lemma_item_walks(w1, last);
    let (w2, e2) = tar_walk(w1, bytes)->Ok_0;
    lemma_tar_walk_split(w, before, bytes);
    let events = e1 + e2;
    assert(tar_walk(w, items_bytes(items)) == Ok::<(TarWalkerModel, Seq<TarEventModel>), OpaqueReason>((w2, events)));
    assert(events.subrange(0, e1.len() as int) =~= e1);
    assert(events.subrange(e1.len() as int, events.len() as int) =~= e2);
    assert(items_reported(events, items));
}

/// A canonical TAR archive walks back. The writer's bytes for a
/// sequence of items — members with their bytes (long paths and
/// sizes too large for the size field carried by pax records), and
/// directory, link and device entries — followed by the end marker
/// are accepted by the walker, which reports every item in order
/// with its path, its size and its kind, a data event for exactly
/// each byte of each member, and then the end of the archive.
pub proof fn lemma_canonical_archive_walks_back(items: Seq<TarItem>)
    requires
        forall|i: int| 0 <= i < items.len() ==> readable_item(#[trigger] items[i]),
        items_bytes(items).len() + 3 * BLOCK <= u64::MAX,
    ensures
        tar_walk(tar_initial(), items_bytes(items) + zeros(512) + zeros(512)) matches Ok((w, events)) && {
            let n = items_bytes(items).len();
            &&& tar_finish_spec(w) == Ok::<(), OpaqueReason>(())
            &&& events.len() == n + 2 * BLOCK
            &&& items_reported(events.subrange(0, n as int), items)
            &&& events.subrange(n as int, events.len() as int) == quiet_events(1023).push(TarEventModel::End)
        },
{
    let w0 = tar_initial();
    assert(w0.overrides == no_overrides());
    let body = items_bytes(items);
    let marker = zeros(512) + zeros(512);
    lemma_items_walk_back(w0, items);
    let (w1, e1) = tar_walk(w0, body)->Ok_0;
    lemma_walk_end_marker(w1);
    let (w2, e2) = tar_walk(w1, marker)->Ok_0;
    lemma_tar_walk_split(w0, body, marker);
    assert(body + zeros(512) + zeros(512) =~= body + marker);
    let events = e1 + e2;
    assert(events.subrange(0, body.len() as int) =~= e1);
    assert(events.subrange(body.len() as int, events.len() as int) =~= e2);
}

/// The chunks the writer emits for a member — `begin_member`'s
/// headers, the bytes `member_bytes` was given, `end_member`'s
/// padding — hold exactly its item's bytes.
pub proof fn lemma_member_item_chunks(path: Seq<u8>, data: Seq<u8>)
    requires
        data.len() <= u64::MAX,
    ensures
        (header_chunks(path, data.len() as u64, MEMBER_MODE, 48, Seq::empty()) + seq![data] + (if data.len() % 512
            != 0 {
            seq![zeros((512 - data.len() % 512) as nat)]
        } else {
            Seq::empty()
        })).flatten() == item_bytes(member_item(path, data)),
{
    let h = header_chunks(path, data.len() as u64, MEMBER_MODE, 48, Seq::empty());
    let pad = if data.len() % 512 != 0 { seq![zeros((512 - data.len() % 512) as nat)] } else { Seq::<Seq<u8>>::empty() };
    vstd::seq_lib::lemma_flatten_concat(h + seq![data], pad);
    vstd::seq_lib::lemma_flatten_concat(h, seq![data]);
    seq![data].lemma_flatten_singleton();
    if data.len() % 512 != 0 {
        seq![zeros((512 - data.len() % 512) as nat)].lemma_flatten_singleton();
    } else {
        assert(pad.flatten() =~= Seq::<u8>::empty());
        assert(zeros(member_padding(data.len() as u64)) =~= Seq::<u8>::empty());
    }
    assert(item_bytes(member_item(path, data)) =~= h.flatten() + data + pad.flatten());
}

} // verus!
