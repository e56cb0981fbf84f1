//! [`ObjectScanner`] — the bounded lexical context inside an
//! indirect object or a trailer dictionary.
//!
//! It tracks exactly enough of the PDF syntax (COS strings, hex
//! strings, comments, dictionary nesting, bare tokens) to recognise
//! the keywords `stream` and `endobj` outside string data and to
//! capture a direct `/Length` value, and nothing more. Content is
//! never decoded.

use vstd::prelude::*;
use vstd::string::StringSliceAdditionalSpecFns;

verus! {

/// Longest bare token the scanner retains (`startxref` is 9).
pub const TOKEN_MAX: usize = 10;

/// The dictionary key whose direct value is the stream length.
pub const LENGTH_KEY: &'static str = "Length";
/// The keyword that begins a stream payload.
pub const STREAM_KEYWORD: &'static str = "stream";
/// The keyword that ends an indirect object.
pub const ENDOBJ_KEYWORD: &'static str = "endobj";
/// The indirect-reference operator.
pub const REFERENCE_KEYWORD: &'static str = "R";

/// What a completed byte means to the caller.
#[derive(Debug, Clone, Copy, PartialEq, Eq, Structural)]
pub enum ObjectSignal {
    /// Nothing of interest.
    Quiet,
    /// The `stream` keyword completed; the byte that completed it is
    /// the delimiter after the keyword (already consumed).
    StreamBegins,
    /// The `endobj` keyword completed.
    ObjectEnds,
    /// The trailer dictionary closed (dictionary depth returned to
    /// zero after having been positive).
    DictClosed,
}

/// The `/Length` capture state.
#[derive(Debug, Clone, Copy, PartialEq, Eq, Structural)]
pub enum LengthCapture {
    /// No `/Length` pending.
    Idle,
    /// `/Length` was seen at depth one; the next integer is the
    /// tentative value.
    WantValue,
    /// A tentative direct value; a following `integer R` pair turns
    /// it into an indirect reference and discards it.
    Have { value: u64, ints_after: u8 },
}

/// The scanner as a mathematical value.
pub struct ScanModel {
    /// The bare token being accumulated.
    pub token: Seq<u8>,
    /// The token is oversized.
    pub token_dead: bool,
    /// The token began with `/` (it is a name).
    pub token_is_name: bool,
    /// Literal-string nesting (0 = outside).
    pub string_depth: u64,
    /// The previous string byte was a backslash.
    pub string_escape: bool,
    /// Inside `<...>` hex string.
    pub in_hex: bool,
    /// Inside a `%` comment.
    pub in_comment: bool,
    /// `<<`/`>>` nesting.
    pub dict_depth: u64,
    /// A dictionary was ever opened.
    pub dict_was_open: bool,
    /// A `<` or `>` awaiting its pair.
    pub pending_angle: Option<u8>,
    /// The `/Length` capture.
    pub length: LengthCapture,
}

/// PDF white-space characters.
pub open spec fn pdf_whitespace(byte: u8) -> bool {
    byte == 0 || byte == 9 || byte == 10 || byte == 12 || byte == 13 || byte == 32
}

/// PDF delimiter characters.
pub open spec fn pdf_delimiter(byte: u8) -> bool {
    byte == 40 || byte == 41 || byte == 60 || byte == 62 || byte == 91 || byte == 93 || byte == 123
        || byte == 125 || byte == 47 || byte == 37
}

/// An ASCII decimal digit.
pub open spec fn is_digit(byte: u8) -> bool {
    48 <= byte <= 57
}

/// Every byte is a decimal digit.
pub open spec fn all_digits(bytes: Seq<u8>) -> bool {
    forall|i: int| 0 <= i < bytes.len() ==> is_digit(#[trigger] bytes[i])
}

/// The value of a string of decimal digits.
pub open spec fn decimal_value(bytes: Seq<u8>) -> nat
    decreases bytes.len(),
{
    if bytes.len() == 0 {
        0
    } else {
        decimal_value(bytes.drop_last()) * 10 + (bytes.last() - 48) as nat
    }
}

/// An unsigned ASCII integer token, when it is one and fits in 64
/// bits.
pub open spec fn parse_int_spec(token: Seq<u8>) -> Option<u64> {
    if token.len() == 0 || !all_digits(token) || decimal_value(token) > u64::MAX {
        None
    } else {
        Some(decimal_value(token) as u64)
    }
}

/// A fresh scanner.
pub open spec fn scanner_initial() -> ScanModel {
    ScanModel {
        token: Seq::empty(),
        token_dead: false,
        token_is_name: false,
        string_depth: 0,
        string_escape: false,
        in_hex: false,
        in_comment: false,
        dict_depth: 0,
        dict_was_open: false,
        pending_angle: None,
        length: LengthCapture::Idle,
    }
}

/// The `/Length` capture after a token that is (or is not) an
/// integer.
pub open spec fn length_token_spec(length: LengthCapture, number: Option<u64>) -> LengthCapture {
    match length {
        LengthCapture::WantValue => match number {
            Some(value) => LengthCapture::Have { value, ints_after: 0 },
            None => LengthCapture::Idle,
        },
        LengthCapture::Have { value, ints_after } => match number {
            Some(_) => LengthCapture::Have { value, ints_after: if ints_after == 255 { 255 } else { (ints_after + 1) as u8 } },
            None => length,
        },
        LengthCapture::Idle => length,
    }
}

/// The `/Length` capture after an `R` operator: `/Length n g R` is an
/// indirect reference, not a value.
pub open spec fn length_r_spec(length: LengthCapture) -> LengthCapture {
    match length {
        LengthCapture::Have { ints_after, .. } => if ints_after == 1 { LengthCapture::Idle } else { length },
        _ => length,
    }
}

/// The token just ended (a delimiter or white space followed it).
pub open spec fn close_token_spec(s: ScanModel) -> (ScanModel, ObjectSignal) {
    if s.token.len() == 0 {
        (s, ObjectSignal::Quiet)
    } else {
        let token = s.token;
        let s0 = ScanModel { token: Seq::empty(), token_dead: false, token_is_name: false, ..s };
        if s.token_dead {
            (ScanModel { length: length_token_spec(s0.length, None), ..s0 }, ObjectSignal::Quiet)
        } else if s.token_is_name {
            if token == LENGTH_KEY.spec_bytes() && s0.dict_depth == 1 {
                (ScanModel { length: LengthCapture::WantValue, ..s0 }, ObjectSignal::Quiet)
            } else {
                (ScanModel { length: length_token_spec(s0.length, None), ..s0 }, ObjectSignal::Quiet)
            }
        } else if token == STREAM_KEYWORD.spec_bytes() {
            (s0, ObjectSignal::StreamBegins)
        } else if token == ENDOBJ_KEYWORD.spec_bytes() {
            (s0, ObjectSignal::ObjectEnds)
        } else if token == REFERENCE_KEYWORD.spec_bytes() {
            (ScanModel { length: length_r_spec(s0.length), ..s0 }, ObjectSignal::Quiet)
        } else {
            (ScanModel { length: length_token_spec(s0.length, parse_int_spec(token)), ..s0 }, ObjectSignal::Quiet)
        }
    }
}

/// A byte of bare syntax (no string, comment, hex string or pending
/// angle open).
pub open spec fn bare_byte_spec(s: ScanModel, byte: u8) -> (ScanModel, ObjectSignal) {
    if pdf_whitespace(byte) || pdf_delimiter(byte) {
        let (s1, signal) = close_token_spec(s);
        if byte == 47 {
            (ScanModel { token: Seq::empty(), token_dead: false, token_is_name: true, ..s1 }, signal)
        } else {
            let s2 = if byte == 40 {
                ScanModel { string_depth: 1, ..s1 }
            } else if byte == 60 || byte == 62 {
                ScanModel { pending_angle: Some(byte), ..s1 }
            } else if byte == 37 {
                ScanModel { in_comment: true, ..s1 }
            } else {
                s1
            };
            (ScanModel { token_is_name: false, ..s2 }, signal)
        }
    } else if s.token.len() < TOKEN_MAX {
        (ScanModel { token: s.token.push(byte), ..s }, ObjectSignal::Quiet)
    } else {
        (ScanModel { token_dead: true, ..s }, ObjectSignal::Quiet)
    }
}

/// One byte of object-level syntax.
pub open spec fn scan_byte_spec(s: ScanModel, byte: u8) -> (ScanModel, ObjectSignal) {
    if s.in_comment {
        (if byte == 10 || byte == 13 { ScanModel { in_comment: false, ..s } } else { s }, ObjectSignal::Quiet)
    } else if s.string_depth > 0 {
        let s1 = if s.string_escape {
            ScanModel { string_escape: false, ..s }
        } else if byte == 92 {
            ScanModel { string_escape: true, ..s }
        } else if byte == 40 {
            ScanModel { string_depth: (s.string_depth + 1) as u64, ..s }
        } else if byte == 41 {
            ScanModel { string_depth: (s.string_depth - 1) as u64, ..s }
        } else {
            s
        };
        (s1, ObjectSignal::Quiet)
    } else if s.in_hex {
        (if byte == 62 { ScanModel { in_hex: false, ..s } } else { s }, ObjectSignal::Quiet)
    } else {
        let s1 = ScanModel { pending_angle: None, ..s };
        match s.pending_angle {
            Some(angle) => if angle == 60 {
                if byte == 60 {
                    (ScanModel { dict_depth: (s.dict_depth + 1) as u64, dict_was_open: true, ..s1 }, ObjectSignal::Quiet)
                } else {
                    (ScanModel { in_hex: byte != 62, ..s1 }, ObjectSignal::Quiet)
                }
            } else if angle == 62 && byte == 62 {
                let depth: u64 = if s.dict_depth == 0 { 0 } else { (s.dict_depth - 1) as u64 };
                (
                    ScanModel { dict_depth: depth, ..s1 },
                    if depth == 0 && s.dict_was_open { ObjectSignal::DictClosed } else { ObjectSignal::Quiet },
                )
            } else {
                bare_byte_spec(s1, byte)
            },
            None => bare_byte_spec(s, byte),
        }
    }
}

/// The scanner's invariant.
pub open spec fn scan_wf(s: ScanModel) -> bool {
    s.token.len() <= TOKEN_MAX
}

/// The captured direct `/Length`, if any.
pub open spec fn scan_length(s: ScanModel) -> Option<u64> {
    match s.length {
        LengthCapture::Have { value, .. } => Some(value),
        _ => None,
    }
}

/// A scanned byte keeps the scanner bounded and deepens each nesting
/// by at most one.
pub proof fn lemma_scan_byte_bounds(s: ScanModel, byte: u8)
    requires
        scan_wf(s),
    ensures
        scan_wf(scan_byte_spec(s, byte).0),
        scan_byte_spec(s, byte).0.string_depth <= s.string_depth + 1,
        scan_byte_spec(s, byte).0.dict_depth <= s.dict_depth + 1,
{
}

/// Whether a byte is PDF white space.
pub fn is_whitespace(byte: u8) -> (white: bool)
    ensures
        white == pdf_whitespace(byte),
{
    byte == 0 || byte == 9 || byte == 10 || byte == 12 || byte == 13 || byte == 32
}

/// Whether a byte is a PDF delimiter.
pub fn is_delimiter(byte: u8) -> (delimiter: bool)
    ensures
        delimiter == pdf_delimiter(byte),
{
    byte == 40 || byte == 41 || byte == 60 || byte == 62 || byte == 91 || byte == 93 || byte == 123 || byte == 125
        || byte == 47 || byte == 37
}

/// A prefix of a digit string is worth no more than the string.
pub proof fn lemma_decimal_prefix(bytes: Seq<u8>, i: int)
    requires
        0 <= i <= bytes.len(),
        all_digits(bytes),
    ensures
        decimal_value(bytes.subrange(0, i)) <= decimal_value(bytes),
    decreases bytes.len() - i,
{
    if i < bytes.len() {
        lemma_decimal_prefix(bytes, i + 1);
        assert(bytes.subrange(0, i + 1).drop_last() =~= bytes.subrange(0, i));
        assert(is_digit(bytes[i]));
    } else {
        assert(bytes.subrange(0, i) =~= bytes);
    }
}

/// Parse an unsigned ASCII integer token.
pub fn parse_int(token: &[u8]) -> (value: Option<u64>)
    ensures
        value == parse_int_spec(token@),
{
    if token.len() == 0 {
        return None;
    }
    let mut i: usize = 0;
    while i < token.len()
        invariant
            i <= token@.len(),
            all_digits(token@.subrange(0, i as int)),
        decreases token@.len() - i,
    {
        if token[i] < 48 || token[i] > 57 {
            assert(!is_digit(token@[i as int]));
            return None;
        }
        assert(token@.subrange(0, i + 1) =~= token@.subrange(0, i as int).push(token@[i as int]));
        i = i + 1;
    }
    assert(token@.subrange(0, i as int) =~= token@);
    let mut value: u64 = 0;
    let mut j: usize = 0;
    while j < token.len()
        invariant
            j <= token@.len(),
            all_digits(token@),
            value == decimal_value(token@.subrange(0, j as int)),
        decreases token@.len() - j,
    {
        assert(token@.subrange(0, j + 1).drop_last() =~= token@.subrange(0, j as int));
        assert(is_digit(token@[j as int]));
        proof {
            lemma_decimal_prefix(token@, j + 1);
        }
        let times = match value.checked_mul(10) {
            Some(times) => times,
            None => {
                return None;
            },
        };
        let next = match times.checked_add((token[j] - 48) as u64) {
            Some(next) => next,
            None => {
                return None;
            },
        };
        value = next;
        j = j + 1;
    }
    assert(token@.subrange(0, j as int) =~= token@);
    Some(value)
}

/// The scanner.
pub struct ObjectScanner {
    token: Vec<u8>,
    token_dead: bool,
    token_is_name: bool,
    string_depth: u64,
    string_escape: bool,
    in_hex: bool,
    in_comment: bool,
    dict_depth: u64,
    dict_was_open: bool,
    pending_angle: Option<u8>,
    length: LengthCapture,
}

impl View for ObjectScanner {
    type V = ScanModel;

    closed spec fn view(&self) -> ScanModel {
        ScanModel {
            token: self.token@,
            token_dead: self.token_dead,
            token_is_name: self.token_is_name,
            string_depth: self.string_depth,
            string_escape: self.string_escape,
            in_hex: self.in_hex,
            in_comment: self.in_comment,
            dict_depth: self.dict_depth,
            dict_was_open: self.dict_was_open,
            pending_angle: self.pending_angle,
            length: self.length,
        }
    }
}

/// Whether the token equals `word`.
fn token_is(token: &Vec<u8>, word: &'static str) -> (equal: bool)
    ensures
        equal == (token@ == word.spec_bytes()),
{
    crate::office::kind::bytes_equal(token.as_slice(), word.as_bytes())
}

impl ObjectScanner {
    /// A scanner at the start of an object body.
    pub fn new() -> (scanner: Self)
        ensures
            scanner@ == scanner_initial(),
    {
        let scanner = ObjectScanner {
            token: Vec::new(),
            token_dead: false,
            token_is_name: false,
            string_depth: 0,
            string_escape: false,
            in_hex: false,
            in_comment: false,
            dict_depth: 0,
            dict_was_open: false,
            pending_angle: None,
            length: LengthCapture::Idle,
        };
        assert(scanner@ =~= scanner_initial());
        scanner
    }

    /// The captured direct `/Length`, if any.
    pub fn length(&self) -> (length: Option<u64>)
        ensures
            length == scan_length(self@),
    {
        match self.length {
            LengthCapture::Have { value, .. } => Some(value),
            _ => None,
        }
    }

    /// Consume one byte of object-level syntax.
    pub fn consume(&mut self, byte: u8) -> (signal: ObjectSignal)
        requires
            scan_wf(old(self)@),
            old(self)@.string_depth < u64::MAX,
            old(self)@.dict_depth < u64::MAX,
        ensures
            (final(self)@, signal) == scan_byte_spec(old(self)@, byte),
    {
        if self.in_comment {
            if byte == 10 || byte == 13 {
                self.in_comment = false;
            }
            return ObjectSignal::Quiet;
        }
        if self.string_depth > 0 {
            if self.string_escape {
                self.string_escape = false;
            } else if byte == 92 {
                self.string_escape = true;
            } else if byte == 40 {
                self.string_depth = self.string_depth + 1;
            } else if byte == 41 {
                self.string_depth = self.string_depth - 1;
            }
            return ObjectSignal::Quiet;
        }
        if self.in_hex {
            if byte == 62 {
                self.in_hex = false;
            }
            return ObjectSignal::Quiet;
        }
        match self.pending_angle {
            Some(angle) => {
                self.pending_angle = None;
                if angle == 60 {
                    if byte == 60 {
                        self.dict_depth = self.dict_depth + 1;
                        self.dict_was_open = true;
                    } else {
                        self.in_hex = byte != 62;
                    }
                    return ObjectSignal::Quiet;
                }
                if angle == 62 && byte == 62 {
                    if self.dict_depth > 0 {
                        self.dict_depth = self.dict_depth - 1;
                    }
                    if self.dict_depth == 0 && self.dict_was_open {
                        return ObjectSignal::DictClosed;
                    }
                    return ObjectSignal::Quiet;
                }
            },
            None => {},
        }
        self.bare_byte(byte)
    }

    fn bare_byte(&mut self, byte: u8) -> (signal: ObjectSignal)
        requires
            scan_wf(old(self)@),
        ensures
            (final(self)@, signal) == bare_byte_spec(old(self)@, byte),
    {
        if is_whitespace(byte) || is_delimiter(byte) {
            let signal = self.close_token();
            if byte == 47 {
                self.token = Vec::new();
                self.token_dead = false;
                self.token_is_name = true;
                assert(self.token@ =~= Seq::<u8>::empty());
                return signal;
            }
            if byte == 40 {
                self.string_depth = 1;
            } else if byte == 60 || byte == 62 {
                self.pending_angle = Some(byte);
            } else if byte == 37 {
                self.in_comment = true;
            }
            self.token_is_name = false;
            return signal;
        }
        if self.token.len() < TOKEN_MAX {
            self.token.push(byte);
        } else {
            self.token_dead = true;
        }
        ObjectSignal::Quiet
    }

    /// The stream position is between tokens.
    pub fn close_token(&mut self) -> (signal: ObjectSignal)
        requires
            scan_wf(old(self)@),
        ensures
            (final(self)@, signal) == close_token_spec(old(self)@),
            scan_wf(final(self)@),
    {
        if self.token.len() == 0 {
            return ObjectSignal::Quiet;
        }
        let mut token: Vec<u8> = Vec::new();
        std::mem::swap(&mut token, &mut self.token);
        let is_name = self.token_is_name;
        let dead = self.token_dead;
        self.token_dead = false;
        self.token_is_name = false;
        assert(self.token@ =~= Seq::<u8>::empty());
        if dead {
            self.length_token(None);
            return ObjectSignal::Quiet;
        }
        if is_name {
            if token_is(&token, LENGTH_KEY) && self.dict_depth == 1 {
                self.length = LengthCapture::WantValue;
            } else {
                self.length_token(None);
            }
            return ObjectSignal::Quiet;
        }
        if token_is(&token, STREAM_KEYWORD) {
            ObjectSignal::StreamBegins
        } else if token_is(&token, ENDOBJ_KEYWORD) {
            ObjectSignal::ObjectEnds
        } else if token_is(&token, REFERENCE_KEYWORD) {
            self.length_r();
            ObjectSignal::Quiet
        } else {
            let value = parse_int(token.as_slice());
            self.length_token(value);
            ObjectSignal::Quiet
        }
    }

    fn length_token(&mut self, number: Option<u64>)
        ensures
            final(self)@ == (ScanModel { length: length_token_spec(old(self)@.length, number), ..old(self)@ }),
    {
        self.length = match self.length {
            LengthCapture::WantValue => match number {
                Some(value) => LengthCapture::Have { value, ints_after: 0 },
                None => LengthCapture::Idle,
            },
            LengthCapture::Have { value, ints_after } => match number {
                Some(_) => LengthCapture::Have { value, ints_after: if ints_after == 255 { 255 } else { ints_after + 1 } },
                None => LengthCapture::Have { value, ints_after },
            },
            LengthCapture::Idle => LengthCapture::Idle,
        };
    }

    fn length_r(&mut self)
        ensures
            final(self)@ == (ScanModel { length: length_r_spec(old(self)@.length), ..old(self)@ }),
    {
        match self.length {
            LengthCapture::Have { ints_after, .. } => {
                if ints_after == 1 {
                    self.length = LengthCapture::Idle;
                }
            },
            _ => {},
        }
    }
}

} // verus!
