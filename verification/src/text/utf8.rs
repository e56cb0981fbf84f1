//! [`Utf8Scanner`] — incremental, allocation-free UTF-8 validation
//! that also reports scalar boundaries.

use vstd::prelude::*;
use vstd::utf8::{
    char_is_scalar, codepoint_width_2, codepoint_width_3, codepoint_width_4, decode_utf8, decode_utf8_encode_utf8,
    encode_scalar, encode_utf8, has_width_1_encoding, has_width_2_encoding, has_width_3_encoding, is_scalar,
    last_continuation_byte, leading_bits_width_1, leading_byte_width_1, leading_byte_width_2, leading_byte_width_3,
    leading_byte_width_4, pop_first_scalar, second_last_continuation_byte, third_last_continuation_byte,
    valid_first_scalar, valid_utf8,
};

verus! {

/// Why a byte was rejected.
#[derive(Debug, Clone, Copy, PartialEq, Eq)]
pub enum Utf8Fault {
    /// A byte that cannot begin a scalar (a stray continuation byte,
    /// or `C0`/`C1`/`F5..FF`).
    InvalidLeadByte,
    /// A byte inside a multi-byte scalar outside its permitted range
    /// (overlong form, surrogate, above `U+10FFFF`, or a non-
    /// continuation byte).
    InvalidContinuation,
}

/// The frozen diagnostic text of a fault.
pub open spec fn utf8_fault_detail(fault: Utf8Fault) -> &'static str {
    match fault {
        Utf8Fault::InvalidLeadByte => "invalid UTF-8 lead byte",
        Utf8Fault::InvalidContinuation => "invalid UTF-8 continuation byte",
    }
}

impl Utf8Fault {
    /// The frozen diagnostic text for the fault.
    pub fn detail(self) -> (text: &'static str)
        ensures
            text == utf8_fault_detail(self),
    {
        match self {
            Utf8Fault::InvalidLeadByte => "invalid UTF-8 lead byte",
            Utf8Fault::InvalidContinuation => "invalid UTF-8 continuation byte",
        }
    }
}

/// The scanner as a mathematical value.
pub struct Utf8State {
    /// Continuation bytes still expected for the current scalar.
    pub remaining: u8,
    /// Lowest admissible next byte (while `remaining > 0`).
    pub next_lo: u8,
    /// Highest admissible next byte (while `remaining > 0`).
    pub next_hi: u8,
}

/// A scanner between scalars, before any byte.
pub open spec fn utf8_initial() -> Utf8State {
    Utf8State { remaining: 0, next_lo: 0, next_hi: 0 }
}

/// A lead byte: the sequence length and the admissible range of the
/// second byte, per the well-formed byte-sequence table of Unicode
/// §3.9 (Table 3-7). `Ok(true)` for a one-byte scalar.
pub open spec fn utf8_begin_spec(s: Utf8State, lead: u8) -> Result<(Utf8State, bool), Utf8Fault> {
    if lead <= 0x7F {
        Ok((s, true))
    } else if 0xC2 <= lead <= 0xDF {
        Ok((Utf8State { remaining: 1, next_lo: 0x80, next_hi: 0xBF }, false))
    } else if lead == 0xE0 {
        Ok((Utf8State { remaining: 2, next_lo: 0xA0, next_hi: 0xBF }, false))
    } else if (0xE1 <= lead <= 0xEC) || (0xEE <= lead <= 0xEF) {
        Ok((Utf8State { remaining: 2, next_lo: 0x80, next_hi: 0xBF }, false))
    } else if lead == 0xED {
        Ok((Utf8State { remaining: 2, next_lo: 0x80, next_hi: 0x9F }, false))
    } else if lead == 0xF0 {
        Ok((Utf8State { remaining: 3, next_lo: 0x90, next_hi: 0xBF }, false))
    } else if 0xF1 <= lead <= 0xF3 {
        Ok((Utf8State { remaining: 3, next_lo: 0x80, next_hi: 0xBF }, false))
    } else if lead == 0xF4 {
        Ok((Utf8State { remaining: 3, next_lo: 0x80, next_hi: 0x8F }, false))
    } else {
        Err(Utf8Fault::InvalidLeadByte)
    }
}

/// One byte: `Ok(true)` when it completed a scalar, `Ok(false)` when
/// a multi-byte scalar is still open.
pub open spec fn utf8_push_spec(s: Utf8State, byte: u8) -> Result<(Utf8State, bool), Utf8Fault> {
    if s.remaining == 0 {
        utf8_begin_spec(s, byte)
    } else if byte < s.next_lo || byte > s.next_hi {
        Err(Utf8Fault::InvalidContinuation)
    } else {
        let remaining = (s.remaining - 1) as u8;
        Ok((Utf8State { remaining, next_lo: 0x80, next_hi: 0xBF }, remaining == 0))
    }
}

/// The scanner after `bytes`, or the first fault.
pub open spec fn utf8_run(s: Utf8State, bytes: Seq<u8>) -> Result<Utf8State, Utf8Fault>
    decreases bytes.len(),
{
    if bytes.len() == 0 {
        Ok(s)
    } else {
        match utf8_run(s, bytes.drop_last()) {
            Err(fault) => Err(fault),
            Ok(s1) => match utf8_push_spec(s1, bytes.last()) {
                Err(fault) => Err(fault),
                Ok((s2, _)) => Ok(s2),
            },
        }
    }
}

/// Two scanner states that treat every later byte alike: the same
/// expectation, and the same admissible range while inside a scalar.
pub open spec fn utf8_same(a: Utf8State, b: Utf8State) -> bool {
    a.remaining == b.remaining && (a.remaining > 0 ==> a.next_lo == b.next_lo && a.next_hi == b.next_hi)
}

/// `bytes` are whole UTF-8 scalars: well-formed, ending between
/// scalars.
pub open spec fn whole_scalars(bytes: Seq<u8>) -> bool {
    utf8_run(utf8_initial(), bytes) matches Ok(s) && s.remaining == 0
}

/// Alike states stay alike, byte by byte.
pub proof fn lemma_utf8_push_same(a: Utf8State, b: Utf8State, byte: u8)
    requires
        utf8_same(a, b),
    ensures
        utf8_push_spec(a, byte) is Ok <==> utf8_push_spec(b, byte) is Ok,
        utf8_push_spec(a, byte) is Ok ==> utf8_same(utf8_push_spec(a, byte)->Ok_0.0, utf8_push_spec(b, byte)->Ok_0.0)
            && utf8_push_spec(a, byte)->Ok_0.1 == utf8_push_spec(b, byte)->Ok_0.1,
        utf8_push_spec(a, byte) is Ok && utf8_push_spec(a, byte)->Ok_0.1 ==> utf8_push_spec(a, byte)->Ok_0.0.remaining == 0,
{
}

/// Alike states stay alike over any bytes.
pub proof fn lemma_utf8_run_same(a: Utf8State, b: Utf8State, bytes: Seq<u8>)
    requires
        utf8_same(a, b),
    ensures
        utf8_run(a, bytes) is Ok <==> utf8_run(b, bytes) is Ok,
        utf8_run(a, bytes) is Ok ==> utf8_same(utf8_run(a, bytes)->Ok_0, utf8_run(b, bytes)->Ok_0),
    decreases bytes.len(),
{
    if bytes.len() > 0 {
        lemma_utf8_run_same(a, b, bytes.drop_last());
        if utf8_run(a, bytes.drop_last()) is Ok {
            lemma_utf8_push_same(utf8_run(a, bytes.drop_last())->Ok_0, utf8_run(b, bytes.drop_last())->Ok_0, bytes.last());
        }
    }
}

/// Scanning `a + b` is scanning `b` after `a`.
pub proof fn lemma_utf8_run_split(s: Utf8State, a: Seq<u8>, b: Seq<u8>)
    ensures
        utf8_run(s, a + b) == (match utf8_run(s, a) {
            Err(fault) => Err(fault),
            Ok(s1) => utf8_run(s1, b),
        }),
    decreases b.len(),
{
    if b.len() == 0 {
        assert(a + b =~= a);
    } else {
        assert((a + b).drop_last() =~= a + b.drop_last());
        lemma_utf8_run_split(s, a, b.drop_last());
    }
}

/// The UTF-8 encoding of any Unicode scalar value runs through the
/// scanner from between scalars and ends between scalars: every
/// well-formed byte sequence of Unicode Table 3-7 is admitted.
pub proof fn lemma_utf8_accepts_scalar(s: Utf8State, v: u32)
    requires
        s.remaining == 0,
        is_scalar(v),
    ensures
        utf8_run(s, encode_scalar(v)) matches Ok(s2) && s2.remaining == 0,
{
    reveal_with_fuel(utf8_run, 5);
    let bytes = encode_scalar(v);
    if has_width_1_encoding(v) {
        assert(leading_byte_width_1(v) <= 0x7F) by (bit_vector)
            requires
                v <= 0x7F,
        ;
        assert(bytes.drop_last() =~= Seq::<u8>::empty());
    } else if has_width_2_encoding(v) {
        assert(0xC2 <= leading_byte_width_2(v) <= 0xDF && 0x80 <= last_continuation_byte(v) <= 0xBF) by (bit_vector)
            requires
                0x80 <= v <= 0x7FF,
        ;
        assert(bytes.drop_last() =~= seq![leading_byte_width_2(v)]);
        assert(bytes.drop_last().drop_last() =~= Seq::<u8>::empty());
    } else if has_width_3_encoding(v) {
        assert({
            let b1 = leading_byte_width_3(v);
            let b2 = second_last_continuation_byte(v);
            &&& 0xE0 <= b1 <= 0xEF
            &&& 0x80 <= b2 <= 0xBF
            &&& (b1 == 0xE0 ==> 0xA0 <= b2)
            &&& (b1 == 0xED ==> b2 <= 0x9F)
            &&& 0x80 <= last_continuation_byte(v) <= 0xBF
        }) by (bit_vector)
            requires
                0x800 <= v <= 0xFFFF,
                !(0xD800 <= v <= 0xDFFF),
        ;
        assert(bytes.drop_last() =~= seq![leading_byte_width_3(v), second_last_continuation_byte(v)]);
        assert(bytes.drop_last().drop_last() =~= seq![leading_byte_width_3(v)]);
        assert(bytes.drop_last().drop_last().drop_last() =~= Seq::<u8>::empty());
    } else {
        assert({
            let b1 = leading_byte_width_4(v);
            let b2 = third_last_continuation_byte(v);
            &&& 0xF0 <= b1 <= 0xF4
            &&& 0x80 <= b2 <= 0xBF
            &&& (b1 == 0xF0 ==> 0x90 <= b2)
            &&& (b1 == 0xF4 ==> b2 <= 0x8F)
            &&& 0x80 <= second_last_continuation_byte(v) <= 0xBF
            &&& 0x80 <= last_continuation_byte(v) <= 0xBF
        }) by (bit_vector)
            requires
                0x10000 <= v <= 0x10FFFF,
        ;
        assert(bytes.drop_last() =~= seq![
            leading_byte_width_4(v),
            third_last_continuation_byte(v),
            second_last_continuation_byte(v),
        ]);
        assert(bytes.drop_last().drop_last() =~= seq![leading_byte_width_4(v), third_last_continuation_byte(v)]);
        assert(bytes.drop_last().drop_last().drop_last() =~= seq![leading_byte_width_4(v)]);
        assert(bytes.drop_last().drop_last().drop_last().drop_last() =~= Seq::<u8>::empty());
    }
}

/// The UTF-8 encoding of any text, read from between scalars, is
/// whole scalars to the scanner: it runs through without a fault and
/// ends between scalars.
pub proof fn lemma_utf8_accepts_text(s: Utf8State, chars: Seq<char>)
    requires
        s.remaining == 0,
    ensures
        utf8_run(s, encode_utf8(chars)) matches Ok(s2) && s2.remaining == 0,
        whole_scalars(encode_utf8(chars)),
    decreases chars.len(),
{
    if chars.len() > 0 {
        char_is_scalar(chars[0]);
        let first = encode_scalar(chars[0] as u32);
        let rest = encode_utf8(chars.drop_first());
        lemma_utf8_accepts_scalar(s, chars[0] as u32);
        lemma_utf8_run_split(s, first, rest);
        lemma_utf8_accepts_text(utf8_run(s, first)->Ok_0, chars.drop_first());
        lemma_utf8_accepts_scalar(utf8_initial(), chars[0] as u32);
        lemma_utf8_run_split(utf8_initial(), first, rest);
        lemma_utf8_accepts_text(utf8_run(utf8_initial(), first)->Ok_0, chars.drop_first());
    }
}

/// Reading `bytes` is reading the first byte, then the rest.
pub proof fn lemma_utf8_run_first(s: Utf8State, bytes: Seq<u8>)
    requires
        bytes.len() > 0,
    ensures
        utf8_run(s, bytes) == (match utf8_push_spec(s, bytes[0]) {
            Err(fault) => Err(fault),
            Ok((s1, _)) => utf8_run(s1, bytes.drop_first()),
        }),
{
    let first = bytes.subrange(0, 1);
    assert(first + bytes.drop_first() =~= bytes);
    lemma_utf8_run_split(s, first, bytes.drop_first());
    reveal_with_fuel(utf8_run, 2);
    assert(first.drop_last() =~= Seq::<u8>::empty());
}

/// From between scalars, bytes that the scanner reads to a stop
/// between scalars begin with one well-formed scalar (Unicode Table
/// 3-7); after it the scanner is between scalars again, with the rest
/// still to read.
proof fn lemma_utf8_first_scalar(s: Utf8State, bytes: Seq<u8>) -> (after: Utf8State)
    requires
        s.remaining == 0,
        bytes.len() > 0,
        utf8_run(s, bytes) matches Ok(s2) && s2.remaining == 0,
    ensures
        valid_first_scalar(bytes),
        after.remaining == 0,
        utf8_run(after, pop_first_scalar(bytes)) == utf8_run(s, bytes),
{
    let b = bytes;
    let n = b.len() as int;
    let b0 = b[0];
    lemma_utf8_run_first(s, b);
    let s1 = utf8_push_spec(s, b0)->Ok_0.0;
    let rest1 = b.drop_first();
    if s1.remaining == 0 {
        assert(leading_bits_width_1(b0) <= 0x7F) by (bit_vector);
        assert(rest1 =~= b.subrange(1, n));
        s1
    } else {
        if n == 1 {
            assert(rest1.len() == 0);
            assert(utf8_run(s1, rest1) == Ok::<Utf8State, Utf8Fault>(s1));
        }
        lemma_utf8_run_first(s1, rest1);
        let b1 = b[1];
        assert(rest1[0] == b1);
        let s2 = utf8_push_spec(s1, b1)->Ok_0.0;
        let rest2 = rest1.drop_first();
        if s2.remaining == 0 {
            assert(0x80 <= codepoint_width_2(b0, b1) <= 0x7FF) by (bit_vector)
                requires
                    0xC2 <= b0 <= 0xDF,
                    0x80 <= b1 <= 0xBF,
            ;
            assert(rest2 =~= b.subrange(2, n));
            s2
        } else {
            if n == 2 {
                assert(rest2.len() == 0);
                assert(utf8_run(s2, rest2) == Ok::<Utf8State, Utf8Fault>(s2));
            }
            lemma_utf8_run_first(s2, rest2);
            let b2 = b[2];
            assert(rest2[0] == b2);
            let s3 = utf8_push_spec(s2, b2)->Ok_0.0;
            let rest3 = rest2.drop_first();
            if s3.remaining == 0 {
                assert({
                    let cp = codepoint_width_3(b0, b1, b2);
                    0x800 <= cp <= 0xFFFF && !(0xD800 <= cp <= 0xDFFF)
                }) by (bit_vector)
                    requires
                        0xE0 <= b0 <= 0xEF,
                        0x80 <= b1 <= 0xBF,
                        0x80 <= b2 <= 0xBF,
                        b0 == 0xE0 ==> 0xA0 <= b1,
                        b0 == 0xED ==> b1 <= 0x9F,
                ;
                assert(rest3 =~= b.subrange(3, n));
                s3
            } else {
                if n == 3 {
                    assert(rest3.len() == 0);
                    assert(utf8_run(s3, rest3) == Ok::<Utf8State, Utf8Fault>(s3));
                }
                lemma_utf8_run_first(s3, rest3);
                let b3 = b[3];
                assert(rest3[0] == b3);
                let s4 = utf8_push_spec(s3, b3)->Ok_0.0;
                assert(0x10000 <= codepoint_width_4(b0, b1, b2, b3) <= 0x10FFFF) by (bit_vector)
                    requires
                        0xF0 <= b0 <= 0xF4,
                        0x80 <= b1 <= 0xBF,
                        0x80 <= b2 <= 0xBF,
                        0x80 <= b3 <= 0xBF,
                        b0 == 0xF0 ==> 0x90 <= b1,
                        b0 == 0xF4 ==> b1 <= 0x8F,
                ;
                assert(rest3.drop_first() =~= b.subrange(4, n));
                s4
            }
        }
    }
}

/// Bytes that the scanner reads from between scalars to a stop
/// between scalars are well-formed UTF-8.
pub proof fn lemma_utf8_run_valid(s: Utf8State, bytes: Seq<u8>)
    requires
        s.remaining == 0,
        utf8_run(s, bytes) matches Ok(s2) && s2.remaining == 0,
    ensures
        valid_utf8(bytes),
    decreases bytes.len(),
{
    if bytes.len() > 0 {
        let after = lemma_utf8_first_scalar(s, bytes);
        lemma_utf8_run_valid(after, pop_first_scalar(bytes));
    }
}

/// The scanner admits exactly the well-formed UTF-8 byte strings:
/// bytes run through it without a fault and end between scalars if
/// and only if they are valid UTF-8 (what `str::from_utf8` accepts).
pub proof fn lemma_whole_scalars_iff_valid_utf8(bytes: Seq<u8>)
    ensures
        whole_scalars(bytes) <==> valid_utf8(bytes),
{
    if whole_scalars(bytes) {
        lemma_utf8_run_valid(utf8_initial(), bytes);
    }
    if valid_utf8(bytes) {
        decode_utf8_encode_utf8(bytes);
        lemma_utf8_accepts_text(utf8_initial(), decode_utf8(bytes));
    }
}

/// Byte-at-a-time UTF-8 validator. Holds three bytes of state.
#[derive(Debug, Clone, Copy)]
pub struct Utf8Scanner {
    remaining: u8,
    next_lo: u8,
    next_hi: u8,
}

impl View for Utf8Scanner {
    type V = Utf8State;

    closed spec fn view(&self) -> Utf8State {
        Utf8State { remaining: self.remaining, next_lo: self.next_lo, next_hi: self.next_hi }
    }
}

impl Utf8Scanner {
    /// A scanner between scalars.
    pub fn new() -> (scanner: Self)
        ensures
            scanner@ == utf8_initial(),
    {
        Utf8Scanner { remaining: 0, next_lo: 0, next_hi: 0 }
    }

    /// Consume one byte. `Ok(true)` when it completed a scalar,
    /// `Ok(false)` when a multi-byte scalar is still open.
    pub fn push(&mut self, byte: u8) -> (result: Result<bool, Utf8Fault>)
        ensures
            match utf8_push_spec(old(self)@, byte) {
                Ok((s, completed)) => result == Ok::<bool, Utf8Fault>(completed) && final(self)@ == s,
                Err(fault) => result == Err::<bool, Utf8Fault>(fault),
            },
    {
        if self.remaining == 0 {
            return self.begin(byte);
        }
        if byte < self.next_lo || byte > self.next_hi {
            return Err(Utf8Fault::InvalidContinuation);
        }
        self.remaining = self.remaining - 1;
        self.next_lo = 0x80;
        self.next_hi = 0xBF;
        Ok(self.remaining == 0)
    }

    /// Whether the scanner sits between scalars.
    pub fn at_boundary(&self) -> (at: bool)
        ensures
            at == (self@.remaining == 0),
    {
        self.remaining == 0
    }

    fn begin(&mut self, lead: u8) -> (result: Result<bool, Utf8Fault>)
        ensures
            match utf8_begin_spec(old(self)@, lead) {
                Ok((s, completed)) => result == Ok::<bool, Utf8Fault>(completed) && final(self)@ == s,
                Err(fault) => result == Err::<bool, Utf8Fault>(fault),
            },
    {
        let (remaining, lo, hi): (u8, u8, u8) = if lead <= 0x7F {
            return Ok(true);
        } else if 0xC2 <= lead && lead <= 0xDF {
            (1, 0x80, 0xBF)
        } else if lead == 0xE0 {
            (2, 0xA0, 0xBF)
        } else if (0xE1 <= lead && lead <= 0xEC) || (0xEE <= lead && lead <= 0xEF) {
            (2, 0x80, 0xBF)
        } else if lead == 0xED {
            (2, 0x80, 0x9F)
        } else if lead == 0xF0 {
            (3, 0x90, 0xBF)
        } else if 0xF1 <= lead && lead <= 0xF3 {
            (3, 0x80, 0xBF)
        } else if lead == 0xF4 {
            (3, 0x80, 0x8F)
        } else {
            return Err(Utf8Fault::InvalidLeadByte);
        };
        self.remaining = remaining;
        self.next_lo = lo;
        self.next_hi = hi;
        Ok(false)
    }
}

} // verus!
