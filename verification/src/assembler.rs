//! [`BoundaryAssembler`] — turns a byte stream with structural
//! boundary signals into chunks.
//!
//! Structural boundaries close the open chunk once it holds at least
//! the unit minimum, so small units attach backward to the chunk
//! before them; a large unit is realigned to begin a chunk of its
//! own; inside a unit the gear hash places content-defined cuts from
//! the envelope minimum, and the envelope maximum forces a cut. The
//! hash state is always the hash of the open chunk's bytes, so every
//! cut decision depends on the chunk's own content alone.

use vstd::prelude::*;

use crate::constants::{
    GENERIC_CDC_CHUNK_MAX_BYTES, GENERIC_CDC_CHUNK_MIN_BYTES, GENERIC_CDC_CHUNK_TARGET_BYTES,
    UNIT_RELAXED_MASK, UNIT_STRICT_MASK,
};
use crate::gear::{gear_fold, gear_step, GearHash};

verus! {

broadcast use {vstd::seq_lib::group_seq_properties, Seq::group_seq_flatten};

/// The assembler as a mathematical value.
pub struct AsmModel {
    /// The gear table.
    pub table: Seq<u64>,
    /// The smallest chunk a structural boundary closes.
    pub unit_min: nat,
    /// The open chunk's bytes.
    pub buffer: Seq<u8>,
}

/// The content-cut mask for an open chunk of `len` bytes.
pub open spec fn unit_mask(len: nat) -> u64 {
    if len < GENERIC_CDC_CHUNK_TARGET_BYTES { UNIT_STRICT_MASK } else { UNIT_RELAXED_MASK }
}

/// The open chunk emptied.
pub open spec fn asm_emptied(m: AsmModel) -> AsmModel {
    AsmModel { buffer: Seq::empty(), ..m }
}

/// Whether a chunk of `chunk` bytes closes after its last byte.
pub open spec fn content_cut(table: Seq<u64>, chunk: Seq<u8>) -> bool {
    chunk.len() >= GENERIC_CDC_CHUNK_MAX_BYTES
        || (chunk.len() >= GENERIC_CDC_CHUNK_MIN_BYTES
            && gear_fold(table, 0, chunk) & unit_mask(chunk.len()) == 0)
}

/// Feed one byte: the new model and the chunks it completed.
pub open spec fn asm_push(m: AsmModel, byte: u8) -> (AsmModel, Seq<Seq<u8>>) {
    let buffer = m.buffer.push(byte);
    if content_cut(m.table, buffer) {
        (asm_emptied(m), seq![buffer])
    } else {
        (AsmModel { buffer, ..m }, Seq::empty())
    }
}

/// A structural boundary precedes the next byte.
pub open spec fn asm_boundary(m: AsmModel) -> (AsmModel, Seq<Seq<u8>>) {
    if m.buffer.len() > 0 && m.buffer.len() >= m.unit_min {
        (asm_emptied(m), seq![m.buffer])
    } else {
        (m, Seq::empty())
    }
}

/// The last `header_len` bytes began a large unit: it starts a chunk.
pub open spec fn asm_large(m: AsmModel, header_len: nat) -> (AsmModel, Seq<Seq<u8>>) {
    if header_len < m.buffer.len() {
        let cut = m.buffer.len() - header_len;
        (
            AsmModel { buffer: m.buffer.subrange(cut, m.buffer.len() as int), ..m },
            seq![m.buffer.subrange(0, cut)],
        )
    } else {
        (m, Seq::empty())
    }
}

/// The stream ended: flush the open chunk.
pub open spec fn asm_finish(m: AsmModel) -> (AsmModel, Seq<Seq<u8>>) {
    if m.buffer.len() > 0 {
        (asm_emptied(m), seq![m.buffer])
    } else {
        (m, Seq::empty())
    }
}

/// Every emitted chunk is non-empty and within the envelope maximum.
pub open spec fn chunks_bounded(chunks: Seq<Seq<u8>>) -> bool {
    forall|i: int| 0 <= i < chunks.len() ==> 0 < #[trigger] chunks[i].len() <= GENERIC_CDC_CHUNK_MAX_BYTES
}

/// The streaming assembler.
pub struct BoundaryAssembler {
    hash: GearHash,
    unit_min: usize,
    buffer: Vec<u8>,
}

impl View for BoundaryAssembler {
    type V = AsmModel;

    closed spec fn view(&self) -> AsmModel {
        AsmModel { table: self.hash.table(), unit_min: self.unit_min as nat, buffer: self.buffer@ }
    }
}

/// Emitting a chunk extends the deep view by it.
proof fn lemma_emit_push(old_emit: Seq<Vec<u8>>, chunk: Vec<u8>)
    ensures
        old_emit.push(chunk).map_values(|c: Vec<u8>| c@) =~= old_emit.map_values(|c: Vec<u8>| c@).push(chunk@),
{
}

/// The chunks appended to `emit`, as byte sequences.
pub open spec fn chunk_view(emit: Seq<Vec<u8>>) -> Seq<Seq<u8>> {
    emit.map_values(|c: Vec<u8>| c@)
}

impl BoundaryAssembler {
    /// The internal invariant: the hash is the open chunk's hash and
    /// the open chunk is below the maximum.
    pub closed spec fn wf(&self) -> bool {
        &&& self.inner_wf()
        &&& self.buffer@.len() < GENERIC_CDC_CHUNK_MAX_BYTES
    }

    closed spec fn inner_wf(&self) -> bool {
        &&& self.hash.wf()
        &&& self.unit_min >= 1
        &&& self.buffer@.len() <= GENERIC_CDC_CHUNK_MAX_BYTES
        &&& self.hash.value() == gear_fold(self.hash.table(), 0, self.buffer@)
    }

    /// An assembler over the table of `seed` whose structural
    /// boundaries close chunks from the envelope minimum.
    pub fn new(seed: u64) -> (made: Self)
        ensures
            made.wf(),
            made@.table == crate::gear::gear_table(seed),
            made@.unit_min == GENERIC_CDC_CHUNK_MIN_BYTES,
            made@.buffer == Seq::<u8>::empty(),
    {
        Self::with_unit_min(seed, GENERIC_CDC_CHUNK_MIN_BYTES)
    }

    /// An assembler over the table of `seed` whose structural
    /// boundaries close chunks from `unit_min` bytes.
    pub fn with_unit_min(seed: u64, unit_min: usize) -> (made: Self)
        requires
            unit_min >= 1,
        ensures
            made.wf(),
            made@.table == crate::gear::gear_table(seed),
            made@.unit_min == unit_min,
            made@.buffer == Seq::<u8>::empty(),
    {
        BoundaryAssembler { hash: GearHash::new(seed), unit_min, buffer: Vec::new() }
    }

    /// The open chunk's length.
    pub fn pending(&self) -> (len: usize)
        ensures
            len == self@.buffer.len(),
    {
        self.buffer.len()
    }

    fn flush(&mut self, emit: &mut Vec<Vec<u8>>)
        requires
            old(self).inner_wf(),
            old(self)@.buffer.len() > 0,
        ensures
            final(self).wf(),
            final(self)@ == asm_emptied(old(self)@),
            chunk_view(final(emit)@) == chunk_view(old(emit)@).push(old(self)@.buffer),
    {
        let mut chunk: Vec<u8> = Vec::new();
        std::mem::swap(&mut chunk, &mut self.buffer);
        proof {
            lemma_emit_push(emit@, chunk);
        }
        emit.push(chunk);
        self.hash.reset();
        assert(self.buffer@ =~= Seq::<u8>::empty());
    }

    /// Feed one byte.
    pub fn push(&mut self, byte: u8, emit: &mut Vec<Vec<u8>>)
        requires
            old(self).wf(),
        ensures
            final(self).wf(),
            final(self)@ == asm_push(old(self)@, byte).0,
            chunk_view(final(emit)@) == chunk_view(old(emit)@) + asm_push(old(self)@, byte).1,
    {
        let ghost old_buffer = self.buffer@;
        self.buffer.push(byte);
        self.hash.update(byte);
        assert(self.buffer@.drop_last() =~= old_buffer);
        let len = self.buffer.len();
        let mask = if len < GENERIC_CDC_CHUNK_TARGET_BYTES { UNIT_STRICT_MASK } else { UNIT_RELAXED_MASK };
        if len >= GENERIC_CDC_CHUNK_MAX_BYTES || (len >= GENERIC_CDC_CHUNK_MIN_BYTES && self.hash.cuts(mask)) {
            self.flush(emit);
            assert(chunk_view(emit@) =~= chunk_view(old(emit)@) + asm_push(old(self)@, byte).1);
        } else {
            assert(chunk_view(emit@) =~= chunk_view(old(emit)@) + asm_push(old(self)@, byte).1);
        }
    }

    /// A structural boundary precedes the next byte.
    pub fn boundary(&mut self, emit: &mut Vec<Vec<u8>>)
        requires
            old(self).wf(),
        ensures
            final(self).wf(),
            final(self)@ == asm_boundary(old(self)@).0,
            chunk_view(final(emit)@) == chunk_view(old(emit)@) + asm_boundary(old(self)@).1,
    {
        if self.buffer.len() > 0 && self.buffer.len() >= self.unit_min {
            self.flush(emit);
        }
        assert(chunk_view(emit@) =~= chunk_view(old(emit)@) + asm_boundary(old(self)@).1);
    }

    /// The last `header_len` pushed bytes began a large unit: close
    /// the bytes before them so the unit begins a chunk.
    pub fn large_unit_starts(&mut self, header_len: usize, emit: &mut Vec<Vec<u8>>)
        requires
            old(self).wf(),
        ensures
            final(self).wf(),
            final(self)@ == asm_large(old(self)@, header_len as nat).0,
            chunk_view(final(emit)@) == chunk_view(old(emit)@) + asm_large(old(self)@, header_len as nat).1,
    {
        let len = self.buffer.len();
        if header_len < len {
            let cut = len - header_len;
            let rest = self.buffer.split_off(cut);
            let mut head: Vec<u8> = Vec::new();
            std::mem::swap(&mut head, &mut self.buffer);
            proof {
                lemma_emit_push(emit@, head);
            }
            emit.push(head);
            self.buffer = rest;
            self.hash.reset();
            let mut i: usize = 0;
            while i < self.buffer.len()
                invariant
                    i <= self.buffer@.len(),
                    self.buffer@ == old(self)@.buffer.subrange(cut as int, len as int),
                    self.hash.wf(),
                    self.hash.table() == old(self)@.table,
                    self.hash.value() == gear_fold(self.hash.table(), 0, self.buffer@.subrange(0, i as int)),
                    self.unit_min == old(self)@.unit_min,
                    self.unit_min >= 1,
                    self.buffer@.len() < GENERIC_CDC_CHUNK_MAX_BYTES,
                decreases self.buffer@.len() - i,
            {
                let byte = self.buffer[i];
                self.hash.update(byte);
                assert(self.buffer@.subrange(0, i + 1).drop_last() =~= self.buffer@.subrange(0, i as int));
                i = i + 1;
            }
            assert(self.buffer@.subrange(0, i as int) =~= self.buffer@);
            assert(chunk_view(emit@) =~= chunk_view(old(emit)@) + asm_large(old(self)@, header_len as nat).1);
        } else {
            assert(chunk_view(emit@) =~= chunk_view(old(emit)@) + asm_large(old(self)@, header_len as nat).1);
        }
    }

    /// The stream ended: flush the open chunk.
    pub fn finish(&mut self, emit: &mut Vec<Vec<u8>>)
        requires
            old(self).wf(),
        ensures
            final(self).wf(),
            final(self)@ == asm_finish(old(self)@).0,
            chunk_view(final(emit)@) == chunk_view(old(emit)@) + asm_finish(old(self)@).1,
    {
        if self.buffer.len() > 0 {
            self.flush(emit);
        }
        assert(chunk_view(emit@) =~= chunk_view(old(emit)@) + asm_finish(old(self)@).1);
    }

    /// Drop the open chunk (the stream was rejected).
    pub fn clear(&mut self)
        requires
            old(self).wf(),
        ensures
            final(self).wf(),
            final(self)@ == asm_emptied(old(self)@),
    {
        self.buffer.clear();
        self.hash.reset();
        assert(self.buffer@ =~= Seq::<u8>::empty());
    }
}

/// Pushing a byte loses nothing: the completed chunks followed by the
/// open chunk are the old open chunk followed by the byte, and every
/// completed chunk is within the envelope.
pub proof fn lemma_push_conserves(m: AsmModel, byte: u8)
    requires
        m.buffer.len() < GENERIC_CDC_CHUNK_MAX_BYTES,
    ensures
        asm_push(m, byte).1.flatten() + asm_push(m, byte).0.buffer == m.buffer.push(byte),
        asm_push(m, byte).0.buffer.len() < GENERIC_CDC_CHUNK_MAX_BYTES,
        chunks_bounded(asm_push(m, byte).1),
{
    let (next, chunks) = asm_push(m, byte);
    if chunks.len() == 1 {
        assert(chunks.drop_first() =~= Seq::<Seq<u8>>::empty());
        assert(chunks.flatten() =~= m.buffer.push(byte));
    }
    assert(chunks.flatten() + next.buffer =~= m.buffer.push(byte));
}

/// A structural boundary loses nothing.
pub proof fn lemma_boundary_conserves(m: AsmModel)
    requires
        m.buffer.len() < GENERIC_CDC_CHUNK_MAX_BYTES,
    ensures
        asm_boundary(m).1.flatten() + asm_boundary(m).0.buffer == m.buffer,
        asm_boundary(m).0.buffer.len() < GENERIC_CDC_CHUNK_MAX_BYTES,
        chunks_bounded(asm_boundary(m).1),
{
    let (next, chunks) = asm_boundary(m);
    if chunks.len() == 1 {
        assert(chunks.drop_first() =~= Seq::<Seq<u8>>::empty());
        assert(chunks.flatten() =~= m.buffer);
    }
    assert(chunks.flatten() + next.buffer =~= m.buffer);
}

/// Realigning a large unit loses nothing.
pub proof fn lemma_large_conserves(m: AsmModel, header_len: nat)
    requires
        m.buffer.len() < GENERIC_CDC_CHUNK_MAX_BYTES,
    ensures
        asm_large(m, header_len).1.flatten() + asm_large(m, header_len).0.buffer == m.buffer,
        asm_large(m, header_len).0.buffer.len() < GENERIC_CDC_CHUNK_MAX_BYTES,
        chunks_bounded(asm_large(m, header_len).1),
{
    let (next, chunks) = asm_large(m, header_len);
    if chunks.len() == 1 {
        assert(chunks.drop_first() =~= Seq::<Seq<u8>>::empty());
        assert(chunks.flatten() =~= chunks[0]);
    }
    assert(chunks.flatten() + next.buffer =~= m.buffer);
}

/// Finishing loses nothing and leaves the open chunk empty.
pub proof fn lemma_finish_conserves(m: AsmModel)
    requires
        m.buffer.len() < GENERIC_CDC_CHUNK_MAX_BYTES,
    ensures
        asm_finish(m).1.flatten() == m.buffer,
        asm_finish(m).0.buffer.len() == 0,
        chunks_bounded(asm_finish(m).1),
{
    let (next, chunks) = asm_finish(m);
    if chunks.len() == 1 {
        assert(chunks.drop_first() =~= Seq::<Seq<u8>>::empty());
        assert(chunks.flatten() =~= m.buffer);
    } else {
        assert(m.buffer =~= Seq::<u8>::empty());
    }
}

} // verus!
