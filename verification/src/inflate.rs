//! The raw-deflate inflater the member decoder and the gzip reader
//! share: miniz_oxide's streaming `inflate`, one call at a time.

use miniz_oxide::inflate::stream::InflateState;
use miniz_oxide::{MZError, MZFlush, MZStatus};
use vstd::prelude::*;

verus! {

/// Inflate output window per call.
pub const OUT_BYTES: usize = 16384;

/// Window bits that select raw deflate (no zlib wrapper).
pub const RAW_WINDOW_BITS: i32 = -15;

/// The most inflate or deflate calls one loop makes. Deflate expands
/// at most 258 bytes per two bits, so one drain of a stage fills a
/// few hundred output windows; a loop still running after this many
/// calls is out of step.
pub const MAX_ROUNDS: u64 = 4096;

/// miniz_oxide's streaming inflate state.
#[verifier::external_type_specification]
#[verifier::external_body]
pub struct ExInflateState(InflateState);

/// How an inflate or deflate call treats the end of its input.
#[derive(Debug, Clone, Copy, PartialEq, Eq, Structural)]
pub enum DrainFlush {
    /// More input may follow.
    More,
    /// The input ends here; the stream must end too.
    Finish,
}

/// The status of one inflate call.
#[derive(Debug, Clone, Copy, PartialEq, Eq, Structural)]
pub enum RoundStatus {
    /// The deflate stream ended.
    StreamEnd,
    /// Success, the stream goes on.
    Progress,
    /// No progress could be made, or `Finish` could not finish.
    BufferError,
    /// The deflate data is corrupt.
    Failed,
}

/// One inflate call's outcome, as plain values.
pub struct InflateRound {
    /// Compressed bytes the call took.
    pub consumed: usize,
    /// Decompressed bytes the call wrote.
    pub written: Vec<u8>,
    /// How the call ended.
    pub status: RoundStatus,
}

/// One inflate call's outcome, as a mathematical value.
pub struct InflateOutcome {
    /// Compressed bytes the call took.
    pub consumed: usize,
    /// Decompressed bytes the call wrote.
    pub written: Seq<u8>,
    /// How the call ended.
    pub status: RoundStatus,
}

/// The inflater `InflateState::new_boxed_with_window_bits` makes for
/// `window_bits`.
pub uninterp spec fn inflater_with_window_bits(window_bits: i32) -> Box<InflateState>;

/// What one `inflate` call on `state` with `input`, an output window
/// of `out_len` bytes and `flush` gives: the inflater afterwards and
/// the call's outcome. The call is deterministic in these arguments.
pub uninterp spec fn inflate_call(
    state: Box<InflateState>,
    input: Seq<u8>,
    out_len: usize,
    flush: DrainFlush,
) -> (Box<InflateState>, InflateOutcome);

/// `InflateState::new_boxed_with_window_bits`: a fresh inflater; a
/// negative `window_bits` selects raw deflate.
#[verifier::external_body]
pub fn new_inflater(window_bits: i32) -> (state: Box<InflateState>)
    ensures
        state == inflater_with_window_bits(window_bits),
{
    InflateState::new_boxed_with_window_bits(window_bits)
}

/// `miniz_oxide::inflate::stream::inflate` on `input`, writing into a
/// fresh window of `OUT_BYTES` bytes: the inflater afterwards and the
/// outcome are the named call's, the call takes no more than `input`
/// and writes no more than the window.
#[verifier::external_body]
pub fn inflate_round(state: &mut Box<InflateState>, input: &[u8], flush: DrainFlush) -> (round: InflateRound)
    ensures
        (*final(state), InflateOutcome { consumed: round.consumed, written: round.written@, status: round.status })
            == inflate_call(*old(state), input@, OUT_BYTES, flush),
        round.consumed <= input@.len(),
        round.written@.len() <= OUT_BYTES,
{
    let mode = match flush {
        DrainFlush::More => MZFlush::None,
        DrainFlush::Finish => MZFlush::Finish,
    };
    let mut out = vec![0u8; OUT_BYTES];
    let result = miniz_oxide::inflate::stream::inflate(state, input, &mut out, mode);
    out.truncate(result.bytes_written);
    let status = match result.status {
        Ok(MZStatus::StreamEnd) => RoundStatus::StreamEnd,
        Ok(_) => RoundStatus::Progress,
        Err(MZError::Buf) => RoundStatus::BufferError,
        Err(_) => RoundStatus::Failed,
    };
    InflateRound { consumed: result.bytes_consumed, written: out, status }
}

} // verus!
