//! The per-level reader vocabulary of the decomposition driver: the
//! events a container reader hands the driver, the queue it fills
//! per pushed byte, the TAR reader (the walker plus member framing),
//! and the path rule every member must pass.

use vstd::prelude::*;

use super::fault::{DecomposeError, OpaqueReason};
use super::sink::{ContainerKind, EntryKind, MemberMeta};
use super::tar::{
    tar_finish_spec, tar_initial, tar_push_spec, tar_walker_wf, TarEntryModel, TarEvent, TarEventModel, TarKind,
    TarKindModel, TarWalker, TarWalkerModel,
};

verus! {

/// Deepest container nesting the adapter follows.
pub const MAX_DEPTH: usize = 8;

/// Most members (and entries) across the whole walk.
pub const MAX_TOTAL_MEMBERS: u64 = 1_000_000;

/// Longest member path accepted.
pub const PATH_MAX: usize = 4096;

/// The detail of a TAR archive that ends while a member's data is
/// still owed.
pub const TAR_ENDS_IN_MEMBER: &'static str = "tar archive ends inside a member";

/// A non-member entry kind, as a mathematical value.
pub enum EntryKindModel {
    /// An explicit directory entry.
    Directory,
    /// A symbolic link and its target bytes.
    Symlink { target: Seq<u8> },
    /// A hard link and its target bytes.
    Hardlink { target: Seq<u8> },
    /// A metadata-only entry and its type tag.
    Other { tag: u8 },
}

/// The model of an entry kind.
pub open spec fn entry_kind_view(kind: EntryKind) -> EntryKindModel {
    match kind {
        EntryKind::Directory => EntryKindModel::Directory,
        EntryKind::Symlink { target } => EntryKindModel::Symlink { target: target@ },
        EntryKind::Hardlink { target } => EntryKindModel::Hardlink { target: target@ },
        EntryKind::Other { tag } => EntryKindModel::Other { tag },
    }
}

/// Member metadata, as a mathematical value.
pub struct MetaModel {
    /// The path bytes.
    pub path: Seq<u8>,
    /// The position in container order.
    pub ordinal: u64,
    /// The declared size.
    pub size: Option<u64>,
    /// The mode bits.
    pub mode: Option<u32>,
    /// The modification time.
    pub mtime: Option<u64>,
}

/// The model of member metadata.
pub open spec fn meta_view(meta: MemberMeta) -> MetaModel {
    MetaModel { path: meta.path@, ordinal: meta.ordinal, size: meta.size, mode: meta.mode, mtime: meta.mtime }
}

/// One reader event, as a mathematical value.
pub enum ReaderEventModel {
    /// The level's container kind.
    Announce(ContainerKind),
    /// A non-member entry.
    Entry(EntryKindModel, MetaModel),
    /// A regular member begins.
    MemberStart(MetaModel),
    /// Decompressed member bytes.
    Bytes(Seq<u8>),
    /// The member ended with this decompressed length.
    MemberEnd(u64),
}

/// One event a reader hands the driver.
pub enum ReaderEvent {
    /// Announce the level's container kind.
    Announce(ContainerKind),
    /// A non-member entry.
    Entry(EntryKind, MemberMeta),
    /// A regular member begins.
    MemberStart(MemberMeta),
    /// Decompressed member bytes.
    Bytes(Vec<u8>),
    /// The member ended with this decompressed length.
    MemberEnd(u64),
}

impl View for ReaderEvent {
    type V = ReaderEventModel;

    open spec fn view(&self) -> ReaderEventModel {
        match self {
            ReaderEvent::Announce(kind) => ReaderEventModel::Announce(*kind),
            ReaderEvent::Entry(kind, meta) => ReaderEventModel::Entry(entry_kind_view(*kind), meta_view(*meta)),
            ReaderEvent::MemberStart(meta) => ReaderEventModel::MemberStart(meta_view(*meta)),
            ReaderEvent::Bytes(bytes) => ReaderEventModel::Bytes(bytes@),
            ReaderEvent::MemberEnd(len) => ReaderEventModel::MemberEnd(*len),
        }
    }
}

/// `bytes` appended to the queue: coalesced into a trailing bytes
/// event, else a new one; nothing for no bytes.
pub open spec fn append_bytes(events: Seq<ReaderEventModel>, bytes: Seq<u8>) -> Seq<ReaderEventModel> {
    if bytes.len() == 0 {
        events
    } else if events.len() > 0 && events.last() is Bytes {
        events.drop_last().push(ReaderEventModel::Bytes(events.last()->Bytes_0 + bytes))
    } else {
        events.push(ReaderEventModel::Bytes(bytes))
    }
}

/// The bounded event queue a reader fills per pushed byte; the
/// driver drains it after every byte.
pub struct ReaderOut {
    /// The queued events, oldest first.
    pub events: Vec<ReaderEvent>,
}

impl View for ReaderOut {
    type V = Seq<ReaderEventModel>;

    open spec fn view(&self) -> Seq<ReaderEventModel> {
        self.events@.map_values(|event: ReaderEvent| event@)
    }
}

/// Append `bytes` to `out`.
pub(crate) fn push_all(out: &mut Vec<u8>, bytes: &[u8])
    ensures
        final(out)@ == old(out)@ + bytes@,
{
    let mut i: usize = 0;
    while i < bytes.len()
        invariant
            i <= bytes@.len(),
            out@ == old(out)@ + bytes@.subrange(0, i as int),
        decreases bytes@.len() - i,
    {
        out.push(bytes[i]);
        assert(bytes@.subrange(0, i + 1) =~= bytes@.subrange(0, i as int).push(bytes@[i as int]));
        i = i + 1;
    }
    assert(bytes@.subrange(0, i as int) =~= bytes@);
}

impl ReaderOut {
    /// An empty queue.
    pub fn new() -> (out: Self)
        ensures
            out@ == Seq::<ReaderEventModel>::empty(),
    {
        let out = ReaderOut { events: Vec::new() };
        assert(out@ =~= Seq::<ReaderEventModel>::empty());
        out
    }

    /// Queue one event.
    pub fn push(&mut self, event: ReaderEvent)
        ensures
            final(self)@ == old(self)@.push(event@),
    {
        let ghost model = event@;
        self.events.push(event);
        assert(self@ =~= old(self)@.push(model));
    }

    /// Append bytes, coalescing into a trailing bytes event.
    pub fn push_bytes(&mut self, bytes: &[u8])
        ensures
            final(self)@ == append_bytes(old(self)@, bytes@),
    {
        if bytes.len() == 0 {
            return;
        }
        let n = self.events.len();
        if n > 0 && matches!(self.events[n - 1], ReaderEvent::Bytes(_)) {
            let last = self.events.pop();
            match last {
                Some(ReaderEvent::Bytes(mut pending)) => {
                    let ghost before = pending@;
                    push_all(&mut pending, bytes);
                    self.events.push(ReaderEvent::Bytes(pending));
                    assert(self@ =~= old(self)@.drop_last().push(ReaderEventModel::Bytes(before + bytes@)));
                },
                _ => {},
            }
        } else {
            let mut fresh: Vec<u8> = Vec::new();
            push_all(&mut fresh, bytes);
            self.events.push(ReaderEvent::Bytes(fresh));
            assert(self@ =~= old(self)@.push(ReaderEventModel::Bytes(bytes@)));
        }
    }
}

/// The TAR reader, as a mathematical value.
pub struct TarReaderModel {
    /// The walker.
    pub walker: TarWalkerModel,
    /// Data bytes the open member still owes.
    pub remaining: Option<u64>,
    /// The open member's size.
    pub size: u64,
    /// The next entry's ordinal.
    pub ordinal: u64,
}

/// A reader at the start of an archive.
pub open spec fn tar_reader_initial() -> TarReaderModel {
    TarReaderModel { walker: tar_initial(), remaining: None, size: 0, ordinal: 0 }
}

/// The reader's invariant: a bounded walker, fewer entries than
/// bytes walked, and an open member that still owes bytes.
pub open spec fn tar_reader_wf(m: TarReaderModel) -> bool {
    &&& tar_walker_wf(m.walker)
    &&& m.ordinal <= m.walker.offset
    &&& m.remaining matches Some(r) ==> r > 0
}

/// A walked entry's metadata at `ordinal`.
pub open spec fn meta_of(entry: TarEntryModel, ordinal: u64) -> MetaModel {
    MetaModel { path: entry.path, ordinal, size: Some(entry.size), mode: entry.mode, mtime: entry.mtime }
}

/// The event kind of a walked entry (`None` for a regular member).
pub open spec fn entry_kind_of(kind: TarKindModel) -> Option<EntryKindModel> {
    match kind {
        TarKindModel::Regular => None,
        TarKindModel::Directory => Some(EntryKindModel::Directory),
        TarKindModel::Symlink { target } => Some(EntryKindModel::Symlink { target }),
        TarKindModel::Hardlink { target } => Some(EntryKindModel::Hardlink { target }),
        TarKindModel::Other { tag } => Some(EntryKindModel::Other { tag }),
    }
}

/// One pushed byte: the walker's event becomes reader events — an
/// entry or a member start (with its end at once when it is empty),
/// member data coalesced into the queue, and the member's end when
/// its last byte arrives.
pub open spec fn tar_reader_push(m: TarReaderModel, byte: u8, events: Seq<ReaderEventModel>) -> Result<
    (TarReaderModel, Seq<ReaderEventModel>),
    OpaqueReason,
> {
    match tar_push_spec(m.walker, byte) {
        Err(e) => Err(e),
        Ok((w, event)) => match event {
            TarEventModel::Quiet => Ok((TarReaderModel { walker: w, ..m }, events)),
            TarEventModel::End => Ok((TarReaderModel { walker: w, ..m }, events)),
            TarEventModel::Entry(entry) => {
                let meta = meta_of(entry, m.ordinal);
                let m2 = TarReaderModel { walker: w, ordinal: (m.ordinal + 1) as u64, ..m };
                match entry_kind_of(entry.kind) {
                    Some(kind) => Ok((m2, events.push(ReaderEventModel::Entry(kind, meta)))),
                    None => if entry.size == 0 {
                        Ok((m2, events.push(ReaderEventModel::MemberStart(meta)).push(ReaderEventModel::MemberEnd(0))))
                    } else {
                        Ok((
                            TarReaderModel { remaining: Some(entry.size), size: entry.size, ..m2 },
                            events.push(ReaderEventModel::MemberStart(meta)),
                        ))
                    },
                }
            },
            TarEventModel::Data(_) => {
                let events2 = append_bytes(events, seq![byte]);
                match m.remaining {
                    Some(r) => if r == 1 {
                        Ok((TarReaderModel { walker: w, remaining: None, ..m }, events2.push(ReaderEventModel::MemberEnd(m.size))))
                    } else {
                        Ok((TarReaderModel { walker: w, remaining: Some((r - 1) as u64), ..m }, events2))
                    },
                    None => Ok((TarReaderModel { walker: w, ..m }, events2)),
                }
            },
        },
    }
}

/// The input ended: the walker must accept the end, and no member
/// may still owe bytes.
pub open spec fn tar_reader_finish(m: TarReaderModel) -> Result<(), OpaqueReason> {
    match tar_finish_spec(m.walker) {
        Err(e) => Err(e),
        Ok(()) => if m.remaining is Some {
            Err(OpaqueReason::Malformed { detail: TAR_ENDS_IN_MEMBER, offset: 0 })
        } else {
            Ok(())
        },
    }
}

/// The TAR reader: the walker plus member framing.
pub struct TarReader {
    walker: TarWalker,
    remaining: Option<u64>,
    size: u64,
    ordinal: u64,
}

impl View for TarReader {
    type V = TarReaderModel;

    closed spec fn view(&self) -> TarReaderModel {
        TarReaderModel { walker: self.walker@, remaining: self.remaining, size: self.size, ordinal: self.ordinal }
    }
}

impl TarReader {
    /// A reader at the start of an archive.
    pub fn new() -> (reader: Self)
        ensures
            reader@ == tar_reader_initial(),
            tar_reader_wf(reader@),
    {
        TarReader { walker: TarWalker::new(), remaining: None, size: 0, ordinal: 0 }
    }

    /// Push one byte; the events it produces are queued on `out`. On
    /// a rejection nothing is queued.
    pub fn push(&mut self, byte: u8, out: &mut ReaderOut) -> (result: Result<(), OpaqueReason>)
        requires
            tar_reader_wf(old(self)@),
            old(self)@.walker.offset < u64::MAX,
        ensures
            match tar_reader_push(old(self)@, byte, old(out)@) {
                Ok((m, events)) => result is Ok && final(self)@ == m && final(out)@ == events && tar_reader_wf(m),
                Err(e) => result == Err::<(), OpaqueReason>(e) && final(out)@ == old(out)@,
            },
    {
        let event = match self.walker.push(byte) {
            Err(e) => return Err(e),
            Ok(event) => event,
        };
        match event {
            TarEvent::Quiet => Ok(()),
            TarEvent::End => Ok(()),
            TarEvent::Entry(entry) => {
                let kind = entry.kind.to_entry_kind();
                let size = entry.size;
                let meta = MemberMeta {
                    path: entry.path,
                    ordinal: self.ordinal,
                    size: Some(size),
                    mode: entry.mode,
                    mtime: entry.mtime,
                };
                self.ordinal = self.ordinal + 1;
                match kind {
                    Some(kind) => out.push(ReaderEvent::Entry(kind, meta)),
                    None => {
                        out.push(ReaderEvent::MemberStart(meta));
                        if size == 0 {
                            out.push(ReaderEvent::MemberEnd(0));
                        } else {
                            self.remaining = Some(size);
                            self.size = size;
                        }
                    },
                }
                Ok(())
            },
            TarEvent::Data(_) => {
                let one: [u8; 1] = [byte];
                assert(one@ =~= seq![byte]);
                out.push_bytes(&one);
                match self.remaining {
                    Some(remaining) => {
                        if remaining == 1 {
                            self.remaining = None;
                            out.push(ReaderEvent::MemberEnd(self.size));
                        } else {
                            self.remaining = Some(remaining - 1);
                        }
                    },
                    None => {},
                }
                Ok(())
            },
        }
    }

    /// The input ended.
    pub fn finish(&mut self, out: &mut ReaderOut) -> (result: Result<(), OpaqueReason>)
        ensures
            result == tar_reader_finish(old(self)@),
            final(self)@ == old(self)@,
            final(out)@ == old(out)@,
    {
        match self.walker.finish() {
            Err(e) => return Err(e),
            Ok(()) => {},
        }
        if self.remaining.is_some() {
            return Err(OpaqueReason::Malformed { detail: TAR_ENDS_IN_MEMBER, offset: 0 });
        }
        Ok(())
    }
}

/// A `..` component spans `path[i..i + 2]`.
pub open spec fn dotdot_at(path: Seq<u8>, i: int) -> bool {
    &&& 0 <= i && i + 2 <= path.len()
    &&& path[i] == 46 && path[i + 1] == 46
    &&& i == 0 || path[i - 1] == 47
    &&& i + 2 == path.len() || path[i + 2] == 47
}

/// The path rule: not over the length bound, not absolute, and no
/// `..` component. An empty path passes (a bare gzip member has no
/// name).
pub open spec fn check_path_spec(path: Seq<u8>) -> Result<(), DecomposeError> {
    if path.len() > PATH_MAX {
        Err(DecomposeError::Opaque(OpaqueReason::MetadataOverBound))
    } else if path.len() > 0 && (path[0] == 47 || path[0] == 92) {
        Err(DecomposeError::Opaque(OpaqueReason::UnsafePath))
    } else if exists|i: int| #[trigger] dotdot_at(path, i) {
        Err(DecomposeError::Opaque(OpaqueReason::UnsafePath))
    } else {
        Ok(())
    }
}

/// Reject absolute paths and `..` components.
pub fn check_path(path: &[u8]) -> (result: Result<(), DecomposeError>)
    ensures
        result == check_path_spec(path@),
{
    if path.len() > PATH_MAX {
        return Err(DecomposeError::Opaque(OpaqueReason::MetadataOverBound));
    }
    if path.len() > 0 && (path[0] == 47 || path[0] == 92) {
        return Err(DecomposeError::Opaque(OpaqueReason::UnsafePath));
    }
    let mut i: usize = 0;
    while i + 2 <= path.len()
        invariant
            path@.len() <= PATH_MAX,
            i <= path@.len(),
            forall|j: int| 0 <= j < i ==> !#[trigger] dotdot_at(path@, j),
        decreases path@.len() - i,
    {
        if path[i] == 46 && path[i + 1] == 46 && (i == 0 || path[i - 1] == 47) && (i + 2 == path.len()
            || path[i + 2] == 47) {
            assert(dotdot_at(path@, i as int));
            return Err(DecomposeError::Opaque(OpaqueReason::UnsafePath));
        }
        i = i + 1;
    }
    assert forall|j: int| #[trigger] dotdot_at(path@, j) implies false by {
        if j >= i {
            assert(j + 2 <= path@.len());
        }
    }
    Ok(())
}

} // verus!
