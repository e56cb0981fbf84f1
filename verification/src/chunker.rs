//! [`Chunker`] — the capability every chunking profile implements —
//! and the stream semantics the profiles share: a profile is a step
//! function from its state and one byte to its next state and the
//! chunks that byte completed, and a window is the fold of that step
//! over its bytes.

use vstd::prelude::*;

use crate::assembler::chunks_bounded;
use crate::error::ChunkError;

verus! {

broadcast use {vstd::seq_lib::group_seq_properties, Seq::group_seq_flatten};

/// A streaming boundary detector for one chunking profile.
///
/// Pure CPU — bytes in, boundaries out — holding at most one
/// maximum-size chunk of state. Boundaries are a pure function of
/// the profile and the bytes, never of how the bytes were windowed.
/// Emitted chunks concatenate to the input.
pub trait Chunker {
    /// The chunker's internal invariant.
    spec fn inv(&self) -> bool;

    /// Bytes of the current stream consumed so far.
    spec fn consumed(&self) -> nat;

    /// Feed one input window; every chunk completed within it is
    /// appended to `emit`.
    ///
    /// A structural profile returns
    /// [`ChunkError::MalformedProfileInput`] when the bytes stop
    /// parsing as the profile's structure; the stream is then
    /// rejected for good.
    fn push(&mut self, window: &[u8], emit: &mut Vec<Vec<u8>>) -> (result: Result<(), ChunkError>)
        requires
            old(self).inv(),
            old(self).consumed() + window@.len() <= u64::MAX,
        ensures
            final(self).inv(),
    ;

    /// End the stream: flush the trailing chunk (the only one that
    /// may fall below the minimum size) and reset to a fresh-stream
    /// state.
    ///
    /// A structural profile rejects a stream that ends inside an
    /// incomplete structure.
    fn finish(&mut self, emit: &mut Vec<Vec<u8>>) -> (result: Result<(), ChunkError>)
        requires
            old(self).inv(),
        ensures
            final(self).inv(),
    ;
}

/// What one byte does to a profile: the next state and the chunks
/// the byte completed, or the fault that rejects the stream.
pub type StepFn<M, E> = spec_fn(M, u8) -> Result<(M, Seq<Seq<u8>>), E>;

/// The fold of `step` over `bytes` from `m`: the state after them
/// with every chunk they completed, in order, or the first fault.
pub open spec fn feed<M, E>(step: StepFn<M, E>, m: M, bytes: Seq<u8>) -> Result<(M, Seq<Seq<u8>>), E>
    decreases bytes.len(),
{
    if bytes.len() == 0 {
        Ok((m, Seq::empty()))
    } else {
        match feed(step, m, bytes.drop_last()) {
            Err(e) => Err(e),
            Ok((m1, c1)) => match step(m1, bytes.last()) {
                Err(e) => Err(e),
                Ok((m2, c2)) => Ok((m2, c1 + c2)),
            },
        }
    }
}

/// Feeding `a` and then `b`: the second window continues from where
/// the first left off, its chunks following the first's.
pub open spec fn feed_then<M, E>(step: StepFn<M, E>, m: M, a: Seq<u8>, b: Seq<u8>) -> Result<(M, Seq<Seq<u8>>), E> {
    match feed(step, m, a) {
        Err(e) => Err(e),
        Ok((m1, c1)) => match feed(step, m1, b) {
            Err(e) => Err(e),
            Ok((m2, c2)) => Ok((m2, c1 + c2)),
        },
    }
}

/// Window independence: feeding `a` then `b` is feeding `a + b` —
/// the same state, the same chunks, the same first fault.
pub proof fn lemma_feed_split<M, E>(step: StepFn<M, E>, m: M, a: Seq<u8>, b: Seq<u8>)
    ensures
        feed(step, m, a + b) == feed_then(step, m, a, b),
    decreases b.len(),
{
    if b.len() == 0 {
        assert(a + b =~= a);
        match feed(step, m, a) {
            Err(_) => {},
            Ok((m1, c1)) => {
                assert(c1 + Seq::<Seq<u8>>::empty() =~= c1);
            },
        }
    } else {
        assert((a + b).drop_last() =~= a + b.drop_last());
        assert((a + b).last() == b.last());
        lemma_feed_split(step, m, a, b.drop_last());
        match feed(step, m, a) {
            Err(_) => {},
            Ok((m1, c1)) => match feed(step, m1, b.drop_last()) {
                Err(_) => {},
                Ok((m2, c2)) => match step(m2, b.last()) {
                    Err(_) => {},
                    Ok((m3, c3)) => {
                        assert(c1 + c2 + c3 =~= c1 + (c2 + c3));
                    },
                },
            },
        }
    }
}

/// A fault within a prefix is the fault of the whole window.
pub proof fn lemma_feed_prefix_err<M, E>(step: StepFn<M, E>, m: M, bytes: Seq<u8>, n: nat)
    requires
        n <= bytes.len(),
        feed(step, m, bytes.subrange(0, n as int)) is Err,
    ensures
        feed(step, m, bytes) == feed(step, m, bytes.subrange(0, n as int)),
    decreases bytes.len() - n,
{
    if n < bytes.len() {
        assert(bytes.subrange(0, n + 1 as int).drop_last() =~= bytes.subrange(0, n as int));
        lemma_feed_prefix_err(step, m, bytes, n + 1);
    } else {
        assert(bytes.subrange(0, n as int) =~= bytes);
    }
}

/// One more byte of a window whose prefix was accepted.
pub proof fn lemma_feed_extend<M, E>(step: StepFn<M, E>, m: M, bytes: Seq<u8>, i: int)
    requires
        0 <= i < bytes.len(),
    ensures
        feed(step, m, bytes.subrange(0, i + 1)) == (match feed(step, m, bytes.subrange(0, i)) {
            Err(e) => Err(e),
            Ok((m1, c1)) => match step(m1, bytes[i]) {
                Err(e) => Err(e),
                Ok((m2, c2)) => Ok((m2, c1 + c2)),
            },
        }),
{
    assert(bytes.subrange(0, i + 1).drop_last() =~= bytes.subrange(0, i));
}

/// The chunks a window emits before its first fault: those of the
/// bytes it accepted, then those the faulting byte emitted before it
/// was rejected (`partial` of the state it met). For a window without
/// a fault, the chunks it completed.
pub open spec fn feed_emitted<M, E>(
    step: StepFn<M, E>,
    partial: spec_fn(M, u8) -> Seq<Seq<u8>>,
    m: M,
    bytes: Seq<u8>,
) -> Seq<Seq<u8>>
    decreases bytes.len(),
{
    if bytes.len() == 0 {
        Seq::empty()
    } else {
        match feed(step, m, bytes.drop_last()) {
            Err(_) => feed_emitted(step, partial, m, bytes.drop_last()),
            Ok((m1, c1)) => match step(m1, bytes.last()) {
                Err(_) => c1 + partial(m1, bytes.last()),
                Ok((_, c2)) => c1 + c2,
            },
        }
    }
}

/// A fault at byte `i` fixes what the window emits: the chunks of the
/// accepted bytes before it, then the faulting byte's partial chunks.
pub proof fn lemma_feed_emitted_fault<M, E>(
    step: StepFn<M, E>,
    partial: spec_fn(M, u8) -> Seq<Seq<u8>>,
    m: M,
    bytes: Seq<u8>,
    i: int,
    n: int,
)
    requires
        0 <= i < n <= bytes.len(),
        feed(step, m, bytes.subrange(0, i)) is Ok,
        step(feed(step, m, bytes.subrange(0, i))->Ok_0.0, bytes[i]) is Err,
    ensures
        feed(step, m, bytes.subrange(0, n)) is Err,
        feed_emitted(step, partial, m, bytes.subrange(0, n)) == feed(step, m, bytes.subrange(0, i))->Ok_0.1 + partial(
            feed(step, m, bytes.subrange(0, i))->Ok_0.0,
            bytes[i],
        ),
    decreases n,
{
    let prefix = bytes.subrange(0, n);
    assert(prefix.drop_last() =~= bytes.subrange(0, n - 1));
    if n == i + 1 {
        assert(prefix.last() == bytes[i]);
    } else {
        lemma_feed_emitted_fault(step, partial, m, bytes, i, n - 1);
    }
}

/// The step never loses a byte: from a state within the invariant
/// and with room for one more byte, an accepted byte leads to a state
/// within the invariant with one byte less of room, the chunks it
/// completed followed by the new open chunk are the old open chunk
/// followed by the byte, and every completed chunk is non-empty and
/// within the envelope maximum.
pub open spec fn step_conserves<M, E>(
    step: StepFn<M, E>,
    inv: spec_fn(M) -> bool,
    open_chunk: spec_fn(M) -> Seq<u8>,
    room: spec_fn(M) -> int,
) -> bool {
    forall|m: M, byte: u8|
        inv(m) && room(m) >= 1 ==> (#[trigger] step(m, byte) matches Ok((m2, chunks)) ==> {
            &&& inv(m2)
            &&& room(m2) == room(m) - 1
            &&& chunks.flatten() + open_chunk(m2) == open_chunk(m).push(byte)
            &&& chunks_bounded(chunks)
        })
}

/// Conservation over a window: the chunks a window completes,
/// followed by the open chunk after it, are the open chunk before it
/// followed by the window, every chunk within the envelope.
pub proof fn lemma_feed_conserves<M, E>(
    step: StepFn<M, E>,
    inv: spec_fn(M) -> bool,
    open_chunk: spec_fn(M) -> Seq<u8>,
    room: spec_fn(M) -> int,
    m: M,
    bytes: Seq<u8>,
)
    requires
        step_conserves(step, inv, open_chunk, room),
        inv(m),
        room(m) >= bytes.len(),
    ensures
        feed(step, m, bytes) matches Ok((m2, chunks)) ==> {
            &&& inv(m2)
            &&& room(m2) == room(m) - bytes.len()
            &&& chunks.flatten() + open_chunk(m2) == open_chunk(m) + bytes
            &&& chunks_bounded(chunks)
        },
    decreases bytes.len(),
{
    if bytes.len() == 0 {
        assert(open_chunk(m) + bytes =~= open_chunk(m));
    } else {
        lemma_feed_conserves(step, inv, open_chunk, room, m, bytes.drop_last());
        match feed(step, m, bytes.drop_last()) {
            Err(_) => {},
            Ok((m1, c1)) => {
                let byte = bytes.last();
                match step(m1, byte) {
                    Err(_) => {},
                    Ok((m2, c2)) => {
                        vstd::seq_lib::lemma_flatten_concat(c1, c2);
                        assert(bytes =~= bytes.drop_last().push(byte));
                        assert((c1 + c2).flatten() + open_chunk(m2) =~= c1.flatten() + (c2.flatten() + open_chunk(m2)));
                        assert(c1.flatten() + open_chunk(m1).push(byte) =~= (c1.flatten() + open_chunk(m1)).push(byte));
                        assert((open_chunk(m) + bytes.drop_last()).push(byte) =~= open_chunk(m) + bytes);
                        assert forall|i: int| 0 <= i < (c1 + c2).len() implies
                            0 < #[trigger] (c1 + c2)[i].len() <= crate::constants::GENERIC_CDC_CHUNK_MAX_BYTES by {
                            if i >= c1.len() {
                                assert((c1 + c2)[i] == c2[i - c1.len()]);
                            }
                        }
                    },
                }
            },
        }
    }
}

} // verus!
