//! [`MemberDecoder`] — bounded streaming decode of one member's
//! bytes (stored passthrough or raw-deflate inflate), with CRC and
//! length accounting.

use miniz_oxide::inflate::stream::InflateState;
use vstd::prelude::*;
use vstd::slice::slice_subrange;

use crate::decompose::writer::zip::{crc32_of, crc_input};
use crate::inflate::{
    inflate_call, inflate_round, inflater_with_window_bits, new_inflater, DrainFlush, RoundStatus, MAX_ROUNDS,
    OUT_BYTES, RAW_WINDOW_BITS,
};
use crate::office::fault::OfficeFault;

verus! {

/// Compressed bytes staged before each bulk inflate call.
pub const STAGE_BYTES: usize = 4096;

/// The stored compression method.
pub const METHOD_STORED: u16 = 0;

/// The deflate compression method.
pub const METHOD_DEFLATE: u16 = 8;

/// What a drain does after one inflate call.
#[derive(Debug, Clone, Copy)]
pub enum RoundDecision {
    /// Call again.
    Continue,
    /// The deflate stream ended.
    Ended,
    /// The drain is over, successfully.
    Stop,
    /// The drain failed.
    Fail(OfficeFault),
}

/// What a drain does after an inflate call of `status`, when the
/// staged bytes are all taken (`input_done`) and the call took and
/// wrote nothing (`stalled`).
pub open spec fn drain_decision(status: RoundStatus, input_done: bool, stalled: bool, flush: DrainFlush) -> RoundDecision {
    match status {
        RoundStatus::StreamEnd => RoundDecision::Ended,
        RoundStatus::Progress => {
            if input_done && (flush == DrainFlush::More || stalled) {
                if flush == DrainFlush::Finish && stalled {
                    RoundDecision::Fail(OfficeFault::DeflateGeometry)
                } else {
                    RoundDecision::Stop
                }
            } else {
                RoundDecision::Continue
            }
        },
        RoundStatus::BufferError => {
            if flush == DrainFlush::Finish {
                RoundDecision::Fail(OfficeFault::DeflateGeometry)
            } else {
                RoundDecision::Stop
            }
        },
        RoundStatus::Failed => RoundDecision::Fail(OfficeFault::MalformedDeflate),
    }
}

/// The decision after one inflate call.
pub fn after_drain_round(status: RoundStatus, input_done: bool, stalled: bool, flush: DrainFlush) -> (d: RoundDecision)
    ensures
        d == drain_decision(status, input_done, stalled, flush),
{
    match status {
        RoundStatus::StreamEnd => RoundDecision::Ended,
        RoundStatus::Progress => {
            if input_done && (flush == DrainFlush::More || stalled) {
                if flush == DrainFlush::Finish && stalled {
                    RoundDecision::Fail(OfficeFault::DeflateGeometry)
                } else {
                    RoundDecision::Stop
                }
            } else {
                RoundDecision::Continue
            }
        },
        RoundStatus::BufferError => {
            if flush == DrainFlush::Finish {
                RoundDecision::Fail(OfficeFault::DeflateGeometry)
            } else {
                RoundDecision::Stop
            }
        },
        RoundStatus::Failed => RoundDecision::Fail(OfficeFault::MalformedDeflate),
    }
}

/// A drain from call `rounds` on: the inflater `state` has taken the
/// first `consumed` staged bytes, and `decoded` is every byte decoded
/// so far. Gives the inflater, the decoded bytes and the end flag
/// afterwards, and the drain's result.
pub open spec fn drain_from(
    state: Box<InflateState>,
    staged: Seq<u8>,
    consumed: int,
    decoded: Seq<u8>,
    done: bool,
    flush: DrainFlush,
    rounds: int,
) -> (Box<InflateState>, Seq<u8>, bool, Result<(), OfficeFault>)
    decreases MAX_ROUNDS - rounds,
{
    if done {
        (state, decoded, true, if consumed < staged.len() { Err(OfficeFault::DeflateGeometry) } else { Ok(()) })
    } else if rounds >= MAX_ROUNDS {
        (state, decoded, false, Err(OfficeFault::DeflateGeometry))
    } else {
        let call = inflate_call(state, staged.subrange(consumed, staged.len() as int), OUT_BYTES, flush);
        let next = call.0;
        let o = call.1;
        let taken = consumed + o.consumed;
        if o.written.len() > 0 && decoded.len() + o.written.len() > u64::MAX {
            (next, decoded, false, Err(OfficeFault::DeflateGeometry))
        } else {
            let grown = decoded + o.written;
            match drain_decision(o.status, taken >= staged.len(), o.consumed == 0 && o.written.len() == 0, flush) {
                RoundDecision::Ended => drain_from(next, staged, taken, grown, true, flush, rounds + 1),
                RoundDecision::Continue => drain_from(next, staged, taken, grown, false, flush, rounds + 1),
                RoundDecision::Stop => (next, grown, false, Ok(())),
                RoundDecision::Fail(f) => (next, grown, false, Err(f)),
            }
        }
    }
}

/// A decoder, as a mathematical value.
pub struct DecoderModel {
    /// The inflater of a deflated member (none for a stored one).
    pub inflater: Option<Box<InflateState>>,
    /// Compressed bytes staged for the next inflate call.
    pub staged: Seq<u8>,
    /// Whether the deflate stream has ended.
    pub done: bool,
    /// Every byte decoded so far, in order.
    pub decoded: Seq<u8>,
    /// The decoded bytes not yet taken.
    pub pending: Seq<u8>,
}

impl DecoderModel {
    /// Whether the member is deflated (else stored).
    pub open spec fn deflate(self) -> bool {
        self.inflater is Some
    }
}

/// A fresh decoder.
pub open spec fn decoder_initial(deflate: bool) -> DecoderModel {
    DecoderModel {
        inflater: if deflate { Some(inflater_with_window_bits(RAW_WINDOW_BITS)) } else { None },
        staged: Seq::empty(),
        done: false,
        decoded: Seq::empty(),
        pending: Seq::empty(),
    }
}

/// One drain of a deflated member's staged bytes: the decoder after
/// it (each newly decoded byte also pending; the stage emptied on
/// success) and the result.
pub open spec fn drain_model(m: DecoderModel, flush: DrainFlush) -> (DecoderModel, Result<(), OfficeFault>) {
    let run = drain_from(m.inflater.unwrap(), m.staged, 0, m.decoded, m.done, flush, 0);
    (
        DecoderModel {
            inflater: Some(run.0),
            staged: if run.3 is Ok { Seq::empty() } else { m.staged },
            done: run.2,
            decoded: run.1,
            pending: m.pending + run.1.subrange(m.decoded.len() as int, run.1.len() as int),
        },
        run.3,
    )
}

/// What closing a member gives: the CRC-32 and length of its decoded
/// bytes once the deflate stream has ended (a drain with `Finish`
/// first, unless it already had).
pub open spec fn close_model(m: DecoderModel) -> (DecoderModel, Result<(u32, u64), OfficeFault>) {
    if !m.deflate() || m.done {
        (m, Ok((crc32_of(m.decoded), m.decoded.len() as u64)))
    } else {
        let d = drain_model(m, DrainFlush::Finish);
        (
            d.0,
            match d.1 {
                Err(e) => Err(e),
                Ok(()) => if d.0.done {
                    Ok((crc32_of(d.0.decoded), d.0.decoded.len() as u64))
                } else {
                    Err(OfficeFault::DeflateGeometry)
                },
            },
        )
    }
}

/// Decodes one member; produced bytes are the member's canonical
/// bytes.
pub struct MemberDecoder {
    inflater: Option<Box<InflateState>>,
    staged: Vec<u8>,
    done: bool,
    crc: crc32fast::Hasher,
    pending: Vec<u8>,
    produced: u64,
}

impl View for MemberDecoder {
    type V = DecoderModel;

    closed spec fn view(&self) -> DecoderModel {
        DecoderModel {
            inflater: self.inflater,
            staged: self.staged@,
            done: self.done,
            decoded: crc_input(self.crc),
            pending: self.pending@,
        }
    }
}

/// The pending bytes are the tail of the decoded bytes.
pub open spec fn pending_is_tail(decoded: Seq<u8>, pending: Seq<u8>) -> bool {
    &&& pending.len() <= decoded.len()
    &&& decoded.subrange(decoded.len() - pending.len(), decoded.len() as int) == pending
}

impl MemberDecoder {
    /// The internal invariant: the length counter matches what the
    /// hasher took in, the pending bytes are the tail of it, and a
    /// stored member stages nothing.
    pub closed spec fn wf(&self) -> bool {
        &&& self.produced == crc_input(self.crc).len()
        &&& pending_is_tail(crc_input(self.crc), self.pending@)
        &&& self.inflater is None ==> self.staged@.len() == 0 && !self.done
    }

    /// A decoder for one member of `method`.
    pub fn new(method: u16) -> (r: Result<Self, OfficeFault>)
        ensures
            (method == METHOD_STORED || method == METHOD_DEFLATE) <==> r is Ok,
            r matches Ok(d) ==> d.wf() && d@ == decoder_initial(method == METHOD_DEFLATE),
            r matches Err(e) ==> e == OfficeFault::UnsupportedMethod,
    {
        let inflater = if method == METHOD_STORED {
            None
        } else if method == METHOD_DEFLATE {
            Some(new_inflater(RAW_WINDOW_BITS))
        } else {
            return Err(OfficeFault::UnsupportedMethod);
        };
        let d = MemberDecoder {
            inflater,
            staged: Vec::new(),
            done: false,
            crc: crc32fast::Hasher::new(),
            pending: Vec::new(),
            produced: 0,
        };
        assert(d@.staged =~= Seq::<u8>::empty());
        assert(d@.pending =~= Seq::<u8>::empty());
        assert(crc_input(d.crc).subrange(0, 0) =~= d.pending@);
        Ok(d)
    }

    /// Feed one stored/compressed byte.
    pub fn push(&mut self, byte: u8) -> (r: Result<(), OfficeFault>)
        requires
            old(self).wf(),
            !old(self)@.deflate() ==> old(self)@.decoded.len() < u64::MAX,
        ensures
            final(self).wf(),
            !old(self)@.deflate() ==> r is Ok && final(self)@ == (DecoderModel {
                decoded: old(self)@.decoded.push(byte),
                pending: old(self)@.pending.push(byte),
                ..old(self)@
            }),
            old(self)@.deflate() && old(self)@.staged.len() + 1 < STAGE_BYTES ==> r is Ok
                && final(self)@ == (DecoderModel { staged: old(self)@.staged.push(byte), ..old(self)@ }),
            old(self)@.deflate() && old(self)@.staged.len() + 1 >= STAGE_BYTES ==> (final(self)@, r) == drain_model(
                DecoderModel { staged: old(self)@.staged.push(byte), ..old(self)@ },
                DrainFlush::More,
            ),
    {
        if self.inflater.is_none() {
            let mut one: Vec<u8> = Vec::new();
            one.push(byte);
            assert(one@ =~= seq![byte]);
            self.crc.update(one.as_slice());
            assert(crc_input(self.crc) =~= old(self)@.decoded.push(byte));
            self.pending.push(byte);
            self.produced = self.produced + 1;
            proof {
                let d = crc_input(self.crc);
                assert(d.subrange(d.len() - self.pending@.len(), d.len() as int) =~= self.pending@);
            }
            return Ok(());
        }
        self.staged.push(byte);
        if self.staged.len() >= STAGE_BYTES {
            self.drain(DrainFlush::More)
        } else {
            Ok(())
        }
    }

    /// The member's compressed bytes ended: flush and return the
    /// decoded `(crc, length)`.
    pub fn close(&mut self) -> (r: Result<(u32, u64), OfficeFault>)
        requires
            old(self).wf(),
        ensures
            final(self).wf(),
            (final(self)@, r) == close_model(old(self)@),
    {
        if self.inflater.is_some() {
            if !self.done {
                match self.drain(DrainFlush::Finish) {
                    Ok(()) => {},
                    Err(e) => return Err(e),
                }
                if !self.done {
                    return Err(OfficeFault::DeflateGeometry);
                }
            }
        }
        let crc = self.crc.clone().finalize();
        Ok((crc, self.produced))
    }

    /// Canonical bytes produced since the last take.
    pub fn take_pending(&mut self) -> (bytes: Vec<u8>)
        requires
            old(self).wf(),
        ensures
            final(self).wf(),
            bytes@ == old(self)@.pending,
            final(self)@ == (DecoderModel { pending: Seq::empty(), ..old(self)@ }),
    {
        let mut bytes: Vec<u8> = Vec::new();
        std::mem::swap(&mut bytes, &mut self.pending);
        proof {
            let d = crc_input(self.crc);
            assert(d.subrange(d.len() - 0, d.len() as int) =~= self.pending@);
            assert(self@.pending =~= Seq::<u8>::empty());
        }
        bytes
    }

    /// Inflate the staged bytes.
    fn drain(&mut self, flush: DrainFlush) -> (r: Result<(), OfficeFault>)
        requires
            old(self).wf(),
            old(self)@.deflate(),
        ensures
            final(self).wf(),
            (final(self)@, r) == drain_model(old(self)@, flush),
    {
        let mut state = self.inflater.take().unwrap();
        let r = self.drain_with(&mut state, flush);
        self.inflater = Some(state);
        r
    }

    /// The inflate loop of a drain, with the inflater taken out.
    fn drain_with(&mut self, state: &mut Box<InflateState>, flush: DrainFlush) -> (r: Result<(), OfficeFault>)
        requires
            old(self).produced == crc_input(old(self).crc).len(),
            pending_is_tail(crc_input(old(self).crc), old(self).pending@),
        ensures
            final(self).inflater == old(self).inflater,
            final(self).produced == crc_input(final(self).crc).len(),
            pending_is_tail(crc_input(final(self).crc), final(self).pending@),
            ({
                let run = drain_from(*old(state), old(self).staged@, 0, crc_input(old(self).crc), old(self).done, flush, 0);
                &&& *final(state) == run.0
                &&& crc_input(final(self).crc) == run.1
                &&& final(self).done == run.2
                &&& r == run.3
                &&& final(self).staged@ == (if r is Ok { Seq::<u8>::empty() } else { old(self).staged@ })
                &&& final(self).pending@ == old(self).pending@ + run.1.subrange(
                    crc_input(old(self).crc).len() as int,
                    run.1.len() as int,
                )
            }),
    {
        let ghost before = self@;
        let ghost target = drain_from(*state, self.staged@, 0, crc_input(self.crc), self.done, flush, 0);
        proof {
            assert(before.decoded.subrange(0, before.decoded.len() as int) =~= before.decoded);
            assert(before.pending + before.decoded.subrange(
                before.decoded.len() as int,
                before.decoded.len() as int,
            ) =~= before.pending);
        }
        let mut consumed: usize = 0;
        let mut rounds: u64 = 0;
        let mut outcome: Result<(), OfficeFault> = Ok(());
        loop
            invariant_except_break
                outcome == Ok::<(), OfficeFault>(()),
                drain_from(*state, before.staged, consumed as int, crc_input(self.crc), self.done, flush, rounds as int)
                    == target,
            invariant
                self.inflater == old(self).inflater,
                self.staged@ == before.staged,
                consumed <= self.staged@.len(),
                rounds <= MAX_ROUNDS,
                self.produced == crc_input(self.crc).len(),
                pending_is_tail(crc_input(self.crc), self.pending@),
                before.decoded.len() <= crc_input(self.crc).len(),
                crc_input(self.crc).subrange(0, before.decoded.len() as int) == before.decoded,
                self.pending@ == before.pending + crc_input(self.crc).subrange(
                    before.decoded.len() as int,
                    crc_input(self.crc).len() as int,
                ),
            ensures
                *state == target.0,
                crc_input(self.crc) == target.1,
                self.done == target.2,
                outcome == target.3,
            decreases MAX_ROUNDS - rounds,
        {
            if self.done {
                if consumed < self.staged.len() {
                    outcome = Err(OfficeFault::DeflateGeometry);
                }
                break;
            }
            if rounds >= MAX_ROUNDS {
                outcome = Err(OfficeFault::DeflateGeometry);
                break;
            }
            let ghost prev_state = *state;
            let ghost prev_decoded = crc_input(self.crc);
            let ghost prev_consumed = consumed as int;
            let ghost prev_rounds = rounds as int;
            rounds = rounds + 1;
            let input = slice_subrange(self.staged.as_slice(), consumed, self.staged.len());
            let mut round = inflate_round(state, input, flush);
            consumed = consumed + round.consumed;
            let written = round.written.len();
            let stalled = round.consumed == 0 && written == 0;
            if written > 0 {
                if self.produced > u64::MAX - written as u64 {
                    outcome = Err(OfficeFault::DeflateGeometry);
                    break;
                }
                let ghost old_decoded = crc_input(self.crc);
                let ghost bytes = round.written@;
                self.crc.update(round.written.as_slice());
                self.pending.append(&mut round.written);
                self.produced = self.produced + written as u64;
                proof {
                    let d = crc_input(self.crc);
                    assert(d == old_decoded + bytes);
                    assert(d.subrange(d.len() - self.pending@.len(), d.len() as int) =~= self.pending@);
                    assert(d.subrange(0, before.decoded.len() as int) =~= before.decoded);
                    assert(self.pending@ =~= before.pending + d.subrange(
                        before.decoded.len() as int,
                        d.len() as int,
                    ));
                }
            } else {
                assert(prev_decoded + Seq::<u8>::empty() =~= prev_decoded);
            }
            let decision = after_drain_round(round.status, consumed >= self.staged.len(), stalled, flush);
            match decision {
                RoundDecision::Ended => {
                    self.done = true;
                },
                RoundDecision::Continue => {},
                RoundDecision::Stop => {
                    break;
                },
                RoundDecision::Fail(f) => {
                    outcome = Err(f);
                    break;
                },
            }
        }
        match outcome {
            Err(e) => {
                return Err(e);
            },
            Ok(()) => {},
        }
        self.staged.clear();
        assert(self@.staged =~= Seq::<u8>::empty());
        outcome
    }
}

} // verus!
