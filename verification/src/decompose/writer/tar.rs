//! [`CanonicalTarWriter`] — deterministic ustar/pax reconstruction.
//!
//! Canonical form: ustar headers with zeroed uid/gid/uname/gname and
//! mtime, mode 0644 for members and 0755 for directories (the walked
//! mode and mtime live as graph facts, not in the canonical bytes),
//! a pax `x` record when a path or link target exceeds the ustar
//! fields or a size exceeds the octal size field, and the two-block
//! end marker.

use vstd::prelude::*;
use vstd::string::StringSliceAdditionalSpecFns;

use crate::assembler::chunk_view;
use crate::decompose::reader::push_all;
use crate::decompose::sink::EntryKind;
use crate::decompose::tar::{c_string_spec, checksum_spec, first_index, header_path, header_sum, octal_scan, parse_octal_spec};

verus! {

broadcast use vstd::seq_lib::group_seq_properties;

/// A TAR block.
pub const BLOCK: usize = 512;

/// `8^width`: the octal values a field of `width` digits holds.
pub open spec fn octal_room(width: nat) -> nat
    decreases width,
{
    if width == 0 { 1 } else { 8 * octal_room((width - 1) as nat) }
}

/// `value` as exactly `width` octal digits, most significant first.
pub open spec fn octal_digits(value: nat, width: nat) -> Seq<u8>
    decreases width,
{
    if width == 0 {
        Seq::empty()
    } else {
        octal_digits(value / 8, (width - 1) as nat).push((48 + value % 8) as u8)
    }
}

/// Push `value` as `width` octal digits.
fn push_octal_digits(out: &mut Vec<u8>, value: u64, width: usize)
    requires
        width <= 12,
        value < octal_room(width as nat),
    ensures
        final(out)@ == old(out)@ + octal_digits(value as nat, width as nat),
{
    let mut digits: Vec<u8> = Vec::new();
    let mut rest: u64 = value;
    let mut i: usize = 0;
    assert(octal_room(0) == 1);
    assert(value as nat / 1 == value);
    assert(digits@.reverse() =~= Seq::<u8>::empty());
    assert(octal_digits(value as nat, width as nat) + Seq::<u8>::empty() =~= octal_digits(value as nat, width as nat));
    while i < width
        invariant
            i <= width <= 12,
            digits@.len() == i,
            rest == value as nat / octal_room(i as nat),
            octal_digits(value as nat, width as nat)
                == octal_digits(rest as nat, (width - i) as nat) + digits@.reverse(),
        decreases width - i,
    {
        proof {
            lemma_octal_room_pos(i as nat);
            vstd::arithmetic::div_mod::lemma_div_denominator(value as int, octal_room(i as nat) as int, 8);
            assert(octal_room((i + 1) as nat) == octal_room(i as nat) * 8);
        }
        let digit = (48 + rest % 8) as u8;
        let ghost before = digits@;
        digits.push(digit);
        assert(digits@.reverse() =~= seq![digit] + before.reverse());
        assert(octal_digits(rest as nat, (width - i) as nat)
            == octal_digits(rest as nat / 8, (width - i - 1) as nat).push(digit));
        assert(octal_digits(rest as nat / 8, (width - i - 1) as nat).push(digit) + before.reverse()
            =~= octal_digits(rest as nat / 8, (width - i - 1) as nat) + digits@.reverse());
        rest = rest / 8;
        i = i + 1;
    }
    assert(octal_digits(rest as nat, 0) =~= Seq::<u8>::empty());
    let ghost start = out@;
    let mut j: usize = digits.len();
    while j > 0
        invariant
            j <= digits@.len(),
            out@ == start + digits@.reverse().subrange(0, digits@.len() - j),
        decreases j,
    {
        j = j - 1;
        out.push(digits[j]);
        assert(digits@.reverse().subrange(0, digits@.len() - j)
            =~= digits@.reverse().subrange(0, digits@.len() - j - 1).push(digits@[j as int]));
    }
    assert(digits@.reverse().subrange(0, digits@.len() as int) =~= digits@.reverse());
    assert(Seq::<u8>::empty() + digits@.reverse() =~= digits@.reverse());
}

/// The octal room is positive.
proof fn lemma_octal_room_pos(width: nat)
    ensures
        octal_room(width) >= 1,
    decreases width,
{
    if width > 0 {
        lemma_octal_room_pos((width - 1) as nat);
    }
}

/// The decimal digits of `n`, most significant first.
pub open spec fn decimal_digits(n: nat) -> Seq<u8>
    decreases n,
{
    if n < 10 {
        seq![(48 + n) as u8]
    } else {
        decimal_digits(n / 10).push((48 + n % 10) as u8)
    }
}

/// How many decimal digits `n` has.
pub open spec fn decimal_len(n: nat) -> nat {
    decimal_digits(n).len()
}

/// `10^m`.
pub open spec fn pow10(m: nat) -> nat
    decreases m,
{
    if m == 0 { 1 } else { 10 * pow10((m - 1) as nat) }
}

/// The digit count of `n` is the least `m` with `n < 10^m`.
proof fn lemma_decimal_len_bounds(n: nat)
    ensures
        decimal_len(n) >= 1,
        n < pow10(decimal_len(n)),
        decimal_len(n) > 1 ==> n >= pow10((decimal_len(n) - 1) as nat),
    decreases n,
{
    assert(pow10(1) == 10) by {
        assert(pow10(0) == 1);
    }
    if n >= 10 {
        lemma_decimal_len_bounds(n / 10);
        let l = decimal_len(n / 10);
        assert(decimal_len(n) == l + 1);
        assert(pow10(l + 1) == 10 * pow10(l));
        let q = n / 10;
        assert(n < 10 * pow10(l)) by (nonlinear_arith)
            requires
                q < pow10(l),
                q == n / 10,
        {
        }
        if l > 1 {
            assert(pow10(l) == 10 * pow10((l - 1) as nat));
            assert(n >= 10 * pow10((l - 1) as nat)) by (nonlinear_arith)
                requires
                    q >= pow10((l - 1) as nat),
                    q == n / 10,
            {
            }
        } else {
            assert(pow10(1) == 10);
        }
    }
}

/// Below `10^m`, at most `m` digits.
proof fn lemma_decimal_len_below(n: nat, m: nat)
    requires
        m >= 1,
        n < pow10(m),
    ensures
        decimal_len(n) <= m,
    decreases n,
{
    if n >= 10 {
        assert(m >= 2) by {
            if m == 1 {
                assert(pow10(0) == 1);
                assert(pow10(1) == 10);
            }
        }
        lemma_decimal_len_below(n / 10, (m - 1) as nat);
    }
}

/// More value, no fewer digits.
proof fn lemma_decimal_len_mono(a: nat, b: nat)
    requires
        a <= b,
    ensures
        decimal_len(a) <= decimal_len(b),
{
    lemma_decimal_len_bounds(a);
    lemma_decimal_len_bounds(b);
    if decimal_len(a) > decimal_len(b) {
        lemma_pow10_mono(decimal_len(b), (decimal_len(a) - 1) as nat);
    }
}

/// `10^m` grows with `m`.
proof fn lemma_pow10_mono(a: nat, b: nat)
    requires
        a <= b,
    ensures
        pow10(a) <= pow10(b),
    decreases b,
{
    if a < b {
        lemma_pow10_mono(a, (b - 1) as nat);
    }
}

/// `10^m` outgrows `m`.
proof fn lemma_pow10_large(m: nat)
    ensures
        pow10(m) >= m + 1,
    decreases m,
{
    if m > 0 {
        lemma_pow10_large((m - 1) as nat);
    }
}

/// The length of a pax record whose text after the length field is
/// `body` bytes: the least total whose decimal form, plus the body,
/// is that total.
pub open spec fn pax_record_len(body: nat) -> nat {
    let first = body + decimal_len(body);
    if decimal_len(first) == decimal_len(body) { first } else { first + 1 }
}

/// The pax length field counts the whole record, itself included,
/// and is the least length that does.
pub proof fn lemma_pax_record_len(body: nat)
    ensures
        pax_record_len(body) == body + decimal_len(pax_record_len(body)),
        forall|t: nat| t < pax_record_len(body) ==> t != body + #[trigger] decimal_len(t),
{
    let d = decimal_len(body);
    let first = body + d;
    lemma_decimal_len_bounds(body);
    lemma_decimal_len_mono(body, first);
    lemma_pow10_large(d);
    assert(pow10(d + 1) == 10 * pow10(d));
    lemma_decimal_len_below(first + 1, d + 1);
    lemma_decimal_len_mono(first, first + 1);
    assert forall|t: nat| t < pax_record_len(body) implies t != body + #[trigger] decimal_len(t) by {
        if t == body + decimal_len(t) {
            if t >= body {
                lemma_decimal_len_mono(body, t);
            }
            if t < first {
                assert(decimal_len(t) < d);
                lemma_decimal_len_mono(body, t);
            } else {
                assert(t == first);
                assert(decimal_len(first) == d);
            }
        }
    }
}

/// The decimal digits of `n`.
fn decimal_string(n: u64) -> (digits: Vec<u8>)
    ensures
        digits@ == decimal_digits(n as nat),
{
    let mut reversed: Vec<u8> = Vec::new();
    let mut rest: u64 = n;
    while rest >= 10
        invariant
            decimal_digits(n as nat) == decimal_digits(rest as nat) + reversed@.reverse(),
        decreases rest,
    {
        let ghost before = reversed@;
        let digit = (48 + rest % 10) as u8;
        reversed.push(digit);
        assert(reversed@.reverse() =~= seq![digit] + before.reverse());
        assert(decimal_digits(rest as nat) == decimal_digits(rest as nat / 10).push(digit));
        assert(decimal_digits(rest as nat / 10).push(digit) + before.reverse()
            =~= decimal_digits(rest as nat / 10) + reversed@.reverse());
        rest = rest / 10;
    }
    let ghost before = reversed@;
    reversed.push((48 + rest) as u8);
    assert(reversed@.reverse() =~= seq![(48 + rest) as u8] + before.reverse());
    let mut digits: Vec<u8> = Vec::new();
    let mut j: usize = reversed.len();
    while j > 0
        invariant
            j <= reversed@.len(),
            digits@ == reversed@.reverse().subrange(0, reversed@.len() - j),
        decreases j,
    {
        j = j - 1;
        digits.push(reversed[j]);
        assert(reversed@.reverse().subrange(0, reversed@.len() - j)
            =~= reversed@.reverse().subrange(0, reversed@.len() - j - 1).push(reversed@[j as int]));
    }
    assert(reversed@.reverse().subrange(0, reversed@.len() as int) =~= reversed@.reverse());
    digits
}

/// `n` zero bytes.
pub open spec fn zeros(n: nat) -> Seq<u8> {
    Seq::new(n, |i: int| 0u8)
}

/// The first `n` bytes of `bytes`, zero-padded to `n`.
pub open spec fn padded(bytes: Seq<u8>, n: nat) -> Seq<u8> {
    if bytes.len() >= n { bytes.subrange(0, n as int) } else { bytes + zeros((n - bytes.len()) as nat) }
}

/// A NUL-terminated octal field of `width` digits.
pub open spec fn octal_field(value: nat, width: nat) -> Seq<u8> {
    octal_digits(value, width).push(0u8)
}

/// The header with its checksum field still spaces.
pub open spec fn header_fields(path: Seq<u8>, size: u64, mode: u32, typeflag: u8, link: Seq<u8>) -> Seq<u8> {
    padded(path, 100) + octal_field(mode as nat, 7) + octal_field(0, 7) + octal_field(0, 7) + octal_field(size as nat, 11)
        + octal_field(0, 11) + Seq::new(8, |i: int| 32u8) + seq![typeflag] + padded(link, 100)
        + seq![117u8, 115u8, 116u8, 97u8, 114u8] + seq![0u8] + seq![48u8, 48u8] + zeros(247)
}

/// A canonical ustar header block: zeroed uid, gid, mtime and names,
/// the `ustar` magic and version `00`, and the checksum over the
/// block (its own field read as spaces) as six octal digits, a NUL
/// and a space.
pub open spec fn header_spec(path: Seq<u8>, size: u64, mode: u32, typeflag: u8, link: Seq<u8>) -> Seq<u8> {
    let fields = header_fields(path, size, mode, typeflag, link);
    fields.subrange(0, 148) + octal_digits(header_sum(fields, 512), 6) + seq![0u8, 32u8] + fields.subrange(156, 512)
}

/// Push the first `n` bytes of `bytes`, zero-padded to `n`.
fn push_padded(out: &mut Vec<u8>, bytes: &[u8], n: usize)
    ensures
        final(out)@ == old(out)@ + padded(bytes@, n as nat),
{
    let take = if bytes.len() < n { bytes.len() } else { n };
    let mut i: usize = 0;
    while i < take
        invariant
            i <= take <= bytes@.len(),
            take <= n,
            out@ == old(out)@ + bytes@.subrange(0, i as int),
        decreases take - i,
    {
        out.push(bytes[i]);
        assert(bytes@.subrange(0, i + 1) =~= bytes@.subrange(0, i as int).push(bytes@[i as int]));
        i = i + 1;
    }
    let mut k: usize = take;
    while k < n
        invariant
            take <= k <= n,
            take <= bytes@.len(),
            out@ == old(out)@ + bytes@.subrange(0, take as int) + zeros((k - take) as nat),
        decreases n - k,
    {
        out.push(0);
        assert(zeros((k + 1 - take) as nat) =~= zeros((k - take) as nat).push(0u8));
        k = k + 1;
    }
    assert(padded(bytes@, n as nat) =~= bytes@.subrange(0, take as int) + zeros((n - take) as nat));
}

/// Push a NUL-terminated octal field.
fn push_octal_field(out: &mut Vec<u8>, value: u64, width: usize)
    requires
        width <= 12,
        value < octal_room(width as nat),
    ensures
        final(out)@ == old(out)@ + octal_field(value as nat, width as nat),
{
    push_octal_digits(out, value, width);
    out.push(0);
}

/// A field of `width` octal digits is `width` bytes.
proof fn lemma_octal_digits_len(value: nat, width: nat)
    ensures
        octal_digits(value, width).len() == width,
    decreases width,
{
    if width > 0 {
        lemma_octal_digits_len(value / 8, (width - 1) as nat);
    }
}

/// A header's fields fill one block.
proof fn lemma_header_fields_len(path: Seq<u8>, size: u64, mode: u32, typeflag: u8, link: Seq<u8>)
    ensures
        header_fields(path, size, mode, typeflag, link).len() == BLOCK,
{
    lemma_octal_digits_len(mode as nat, 7);
    lemma_octal_digits_len(0, 7);
    lemma_octal_digits_len(size as nat, 11);
    lemma_octal_digits_len(0, 11);
}

/// A header's byte sum is at most 255 per byte.
proof fn lemma_header_sum_bound(block: Seq<u8>, n: int)
    requires
        0 <= n <= block.len(),
    ensures
        header_sum(block, n) <= 255 * n,
    decreases n,
{
    if n > 0 {
        lemma_header_sum_bound(block, n - 1);
    }
}

/// A ustar header block for `path` with `size`, `mode`, `typeflag`,
/// and `link` target.
fn header_block(path: &[u8], size: u64, mode: u32, typeflag: u8, link: &[u8]) -> (block: Vec<u8>)
    requires
        size < octal_room(11),
        mode < octal_room(7),
    ensures
        block@ == header_spec(path@, size, mode, typeflag, link@),
        block@.len() == BLOCK,
{
    let mut fields: Vec<u8> = Vec::new();
    push_padded(&mut fields, path, 100);
    proof {
        assert(octal_room(0) == 1);
    }
    push_octal_field(&mut fields, mode as u64, 7);
    push_octal_field(&mut fields, 0, 7);
    push_octal_field(&mut fields, 0, 7);
    push_octal_field(&mut fields, size, 11);
    push_octal_field(&mut fields, 0, 11);
    let mut k: usize = 0;
    let ghost before_spaces = fields@;
    while k < 8
        invariant
            k <= 8,
            fields@ == before_spaces + Seq::new(k as nat, |i: int| 32u8),
        decreases 8 - k,
    {
        fields.push(32);
        assert(Seq::new((k + 1) as nat, |i: int| 32u8) =~= Seq::new(k as nat, |i: int| 32u8).push(32u8));
        k = k + 1;
    }
    fields.push(typeflag);
    push_padded(&mut fields, link, 100);
    fields.push(117);
    fields.push(115);
    fields.push(116);
    fields.push(97);
    fields.push(114);
    fields.push(0);
    fields.push(48);
    fields.push(48);
    let ghost before_tail = fields@;
    let mut z: usize = 0;
    while z < 247
        invariant
            z <= 247,
            fields@ == before_tail + zeros(z as nat),
        decreases 247 - z,
    {
        fields.push(0);
        assert(zeros((z + 1) as nat) =~= zeros(z as nat).push(0u8));
        z = z + 1;
    }
    let ghost spec_fields = header_fields(path@, size, mode, typeflag, link@);
    assert(fields@ =~= spec_fields);
    proof {
        lemma_header_fields_len(path@, size, mode, typeflag, link@);
        lemma_octal_digits_len(header_sum(spec_fields, 512), 6);
    }
    let mut sum: u64 = 0;
    let mut i: usize = 0;
    while i < BLOCK
        invariant
            i <= BLOCK,
            fields@ == spec_fields,
            fields@.len() == BLOCK,
            sum == header_sum(fields@, i as int),
            sum <= 255 * i,
        decreases BLOCK - i,
    {
        let add: u64 = if 148 <= i && i < 156 { 32 } else { fields[i] as u64 };
        sum = sum + add;
        i = i + 1;
    }
    let mut block: Vec<u8> = Vec::new();
    let mut c: usize = 0;
    while c < 148
        invariant
            c <= 148,
            fields@ == spec_fields,
            fields@.len() == BLOCK,
            block@ == fields@.subrange(0, c as int),
        decreases 148 - c,
    {
        block.push(fields[c]);
        assert(fields@.subrange(0, c + 1) =~= fields@.subrange(0, c as int).push(fields@[c as int]));
        c = c + 1;
    }
    proof {
        reveal_with_fuel(octal_room, 7);
        assert(octal_room(6) == 262144);
        lemma_header_sum_bound(fields@, 512);
    }
    push_octal_digits(&mut block, sum, 6);
    block.push(0);
    block.push(32);
    let ghost before_rest = block@;
    let mut r: usize = 156;
    while r < BLOCK
        invariant
            156 <= r <= BLOCK,
            fields@ == spec_fields,
            fields@.len() == BLOCK,
            block@ == before_rest + fields@.subrange(156, r as int),
        decreases BLOCK - r,
    {
        block.push(fields[r]);
        assert(fields@.subrange(156, r + 1) =~= fields@.subrange(156, r as int).push(fields@[r as int]));
        r = r + 1;
    }
    assert(block@ =~= header_spec(path@, size, mode, typeflag, link@));
    block
}

/// The name of a pax extended header.
pub const PAX_HEADER_NAME: &'static str = "@PaxHeader";
/// The pax key for a long path.
pub const PAX_PATH_KEY: &'static str = "path";
/// The pax key for a long link target.
pub const PAX_LINKPATH_KEY: &'static str = "linkpath";

/// The pax key of a member size too large for the octal size field.
pub const PAX_SIZE_KEY: &'static str = "size";
/// Mode bits of a canonical member.
pub const MEMBER_MODE: u32 = 0o644;
/// Mode bits of a canonical directory.
pub const DIRECTORY_MODE: u32 = 0o755;
/// The longest path or link target the writer accepts.
pub const NAME_LIMIT: usize = 0x7FFF_FFFF;

/// One pax record: its length field (counting the whole record),
/// a space, `key=value`, a newline.
pub open spec fn pax_record_spec(key: Seq<u8>, value: Seq<u8>) -> Seq<u8> {
    let body = 1 + key.len() + 1 + value.len() + 1;
    decimal_digits(pax_record_len(body)) + seq![32u8] + key + seq![61u8] + value + seq![10u8]
}

/// Whether a size exceeds the eleven octal digits of the size field.
pub open spec fn size_overflows(size: u64) -> bool {
    size >= octal_room(11)
}

/// The size the ustar size field carries: the size itself, or zero
/// when a pax record carries it.
pub open spec fn header_size(size: u64) -> u64 {
    if size_overflows(size) { 0 } else { size }
}

/// The pax record set for over-long paths or link targets, and for a
/// size too large for the size field.
pub open spec fn pax_records_spec(path: Seq<u8>, link: Seq<u8>, size: u64) -> Seq<u8> {
    (if path.len() > 100 { pax_record_spec(PAX_PATH_KEY.spec_bytes(), path) } else { Seq::empty() })
        + (if link.len() > 100 { pax_record_spec(PAX_LINKPATH_KEY.spec_bytes(), link) } else { Seq::empty() })
        + (if size_overflows(size) { pax_record_spec(PAX_SIZE_KEY.spec_bytes(), decimal_digits(size as nat)) } else {
        Seq::empty()
    })
}

/// Bytes followed by the zeros that pad them to a block boundary.
pub open spec fn padded_chunks(bytes: Seq<u8>) -> Seq<Seq<u8>> {
    if bytes.len() % 512 != 0 {
        seq![bytes, zeros((512 - bytes.len() % 512) as nat)]
    } else {
        seq![bytes]
    }
}

/// The chunks of one canonical header: a pax header and its records
/// when a name is over-long or the size too large, then the ustar
/// header.
pub open spec fn header_chunks(path: Seq<u8>, size: u64, mode: u32, typeflag: u8, link: Seq<u8>) -> Seq<Seq<u8>> {
    let pax = pax_records_spec(path, link, size);
    (if pax.len() > 0 {
        seq![header_spec(PAX_HEADER_NAME.spec_bytes(), pax.len() as u64, MEMBER_MODE, 120, Seq::empty())] + padded_chunks(pax)
    } else {
        Seq::empty()
    }) + seq![header_spec(path, header_size(size), mode, typeflag, link)]
}

/// The pax keys as bytes.
pub proof fn lemma_pax_keys()
    ensures
        PAX_PATH_KEY.spec_bytes().len() == 4,
        PAX_LINKPATH_KEY.spec_bytes().len() == 8,
        PAX_SIZE_KEY.spec_bytes().len() == 4,
{
    reveal_strlit("path");
    reveal_strlit("linkpath");
    reveal_strlit("size");
    vstd::string::is_ascii_spec_bytes(PAX_PATH_KEY);
    vstd::string::is_ascii_spec_bytes(PAX_LINKPATH_KEY);
    vstd::string::is_ascii_spec_bytes(PAX_SIZE_KEY);
    assert(vstd::string::is_ascii(PAX_PATH_KEY));
    assert(vstd::string::is_ascii(PAX_LINKPATH_KEY));
    assert(vstd::string::is_ascii(PAX_SIZE_KEY));
}

/// `10^20`, more than any `u64`.
proof fn lemma_pow10_twenty()
    ensures
        pow10(20) == 100_000_000_000_000_000_000,
{
    reveal_with_fuel(pow10, 21);
}

/// `10^12`.
proof fn lemma_pow10_twelve()
    ensures
        pow10(12) == 1_000_000_000_000,
{
    reveal_with_fuel(pow10, 13);
}

/// One pax record for `key` and `value`.
fn pax_record(key: &[u8], value: &[u8]) -> (record: Vec<u8>)
    requires
        key@.len() <= 16,
        value@.len() <= NAME_LIMIT,
    ensures
        record@ == pax_record_spec(key@, value@),
{
    let body: u64 = 1 + key.len() as u64 + 1 + value.len() as u64 + 1;
    let ghost b = body as nat;
    let ghost d = decimal_len(b);
    proof {
        lemma_decimal_len_bounds(b);
        lemma_decimal_len_mono(b, b + d);
        lemma_pow10_large(d);
        assert(pow10(d + 1) == 10 * pow10(d));
        lemma_decimal_len_below(b + d + 1, d + 1);
        lemma_decimal_len_mono(b + d, b + d + 1);
        lemma_pow10_twelve();
        lemma_decimal_len_below(b, 12);
    }
    let mut total: u64 = body;
    let mut digits: u64 = decimal_string(total).len() as u64;
    while digits + body != total
        invariant
            body as nat == b,
            d == decimal_len(b),
            b <= NAME_LIMIT + 19,
            d <= 12,
            digits == decimal_len(total as nat),
            decimal_len(b + d) == d || decimal_len(b + d) == d + 1,
            decimal_len(b + d + 1) <= d + 1,
            decimal_len(b + d) <= decimal_len(b + d + 1),
            total == b || total == b + d || (total == b + d + 1 && decimal_len(b + d) == d + 1),
        decreases b + d + 2 - total,
    {
        total = digits + body;
        digits = decimal_string(total).len() as u64;
    }
    let mut record = decimal_string(total);
    record.push(32);
    push_all(&mut record, key);
    record.push(61);
    push_all(&mut record, value);
    record.push(10);
    record
}

/// The pax record set for over-long paths or link targets, and for a
/// size too large for the size field.
fn pax_records(path: &[u8], link: &[u8], size: u64) -> (records: Vec<u8>)
    requires
        path@.len() <= NAME_LIMIT,
        link@.len() <= NAME_LIMIT,
    ensures
        records@ == pax_records_spec(path@, link@, size),
{
    proof {
        lemma_pax_keys();
    }
    let mut records: Vec<u8> = Vec::new();
    if path.len() > 100 {
        let record = pax_record(PAX_PATH_KEY.as_bytes(), path);
        push_all(&mut records, record.as_slice());
    }
    let ghost first = records@;
    if link.len() > 100 {
        let record = pax_record(PAX_LINKPATH_KEY.as_bytes(), link);
        push_all(&mut records, record.as_slice());
    }
    let ghost second = records@;
    proof {
        reveal_with_fuel(octal_room, 12);
        lemma_pow10_twenty();
        lemma_decimal_len_below(size as nat, 20);
    }
    if size >= 8589934592 {
        let digits = decimal_string(size);
        let record = pax_record(PAX_SIZE_KEY.as_bytes(), digits.as_slice());
        push_all(&mut records, record.as_slice());
    }
    assert(records@ =~= pax_records_spec(path@, link@, size));
    records
}

/// A pax record set's length stays within the size field.
proof fn lemma_pax_records_len(path: Seq<u8>, link: Seq<u8>, size: u64)
    requires
        path.len() <= NAME_LIMIT,
        link.len() <= NAME_LIMIT,
    ensures
        pax_records_spec(path, link, size).len() < octal_room(11),
{
    reveal_with_fuel(octal_room, 12);
    assert(octal_room(11) == 8589934592);
    lemma_pax_keys();
    lemma_pow10_twelve();
    let path_body = 1 + PAX_PATH_KEY.spec_bytes().len() + 1 + path.len() + 1;
    let link_body = 1 + PAX_LINKPATH_KEY.spec_bytes().len() + 1 + link.len() + 1;
    lemma_pow10_twenty();
    lemma_decimal_len_below(size as nat, 20);
    let size_body = 1 + PAX_SIZE_KEY.spec_bytes().len() + 1 + decimal_len(size as nat) + 1;
    lemma_pax_record_len(size_body);
    lemma_decimal_len_bounds(size_body);
    lemma_decimal_len_below(size_body, 12);
    lemma_decimal_len_below(pax_record_len(size_body), 12);
    lemma_pax_record_len(path_body);
    lemma_pax_record_len(link_body);
    lemma_decimal_len_bounds(path_body);
    lemma_decimal_len_bounds(link_body);
    lemma_decimal_len_below(path_body, 12);
    lemma_decimal_len_below(link_body, 12);
    lemma_decimal_len_below(pax_record_len(path_body), 12);
    lemma_decimal_len_below(pax_record_len(link_body), 12);
}

/// Emit `bytes`, then zeros to the block boundary.
fn emit_padded(bytes: Vec<u8>, emit: &mut Vec<Vec<u8>>)
    ensures
        chunk_view(final(emit)@) == chunk_view(old(emit)@) + padded_chunks(bytes@),
{
    let rem = bytes.len() % BLOCK;
    let ghost content = bytes@;
    let ghost before = emit@;
    emit.push(bytes);
    assert(chunk_view(emit@) =~= chunk_view(before).push(content));
    if rem != 0 {
        let mut pad: Vec<u8> = Vec::new();
        let mut k: usize = 0;
        while k < BLOCK - rem
            invariant
                k <= BLOCK - rem,
                pad@ == zeros(k as nat),
            decreases BLOCK - rem - k,
        {
            pad.push(0);
            assert(zeros((k + 1) as nat) =~= zeros(k as nat).push(0u8));
            k = k + 1;
        }
        let ghost mid = emit@;
        emit.push(pad);
        assert(chunk_view(emit@) =~= chunk_view(mid).push(zeros((512 - content.len() % 512) as nat)));
    }
    assert(chunk_view(emit@) =~= chunk_view(before) + padded_chunks(content));
}

/// Emit one canonical header (with its pax prelude when a name is
/// over-long).
fn emit_header(path: &[u8], size: u64, mode: u32, typeflag: u8, link: &[u8], emit: &mut Vec<Vec<u8>>)
    requires
        path@.len() <= NAME_LIMIT,
        link@.len() <= NAME_LIMIT,
        mode < octal_room(7),
    ensures
        chunk_view(final(emit)@) == chunk_view(old(emit)@) + header_chunks(path@, size, mode, typeflag, link@),
{
    let ghost before = chunk_view(emit@);
    let pax = pax_records(path, link, size);
    let ghost pax_view = pax@;
    proof {
        lemma_pax_records_len(path@, link@, size);
        reveal_with_fuel(octal_room, 12);
    }
    if pax.len() > 0 {
        let empty: Vec<u8> = Vec::new();
        let pax_header = header_block(PAX_HEADER_NAME.as_bytes(), pax.len() as u64, MEMBER_MODE, 120, empty.as_slice());
        let ghost header_view = pax_header@;
        let ghost mid = emit@;
        emit.push(pax_header);
        assert(chunk_view(emit@) =~= chunk_view(mid).push(header_view));
        emit_padded(pax, emit);
    }
    let field_size: u64 = if size >= 8589934592 { 0 } else { size };
    let block = header_block(path, field_size, mode, typeflag, link);
    let ghost block_view = block@;
    let ghost mid = emit@;
    emit.push(block);
    assert(chunk_view(emit@) =~= chunk_view(mid).push(block_view));
    assert(chunk_view(emit@) =~= before + header_chunks(path@, size, mode, typeflag, link@));
}

/// The header of a non-member entry.
pub open spec fn entry_chunks(kind: EntryKind, path: Seq<u8>) -> Seq<Seq<u8>> {
    match kind {
        EntryKind::Directory => header_chunks(path, 0, DIRECTORY_MODE, 53, Seq::empty()),
        EntryKind::Symlink { target } => header_chunks(path, 0, MEMBER_MODE, 50, target@),
        EntryKind::Hardlink { target } => header_chunks(path, 0, MEMBER_MODE, 49, target@),
        EntryKind::Other { tag } => header_chunks(path, 0, MEMBER_MODE, tag, Seq::empty()),
    }
}

/// The link target an entry carries, if any.
pub open spec fn entry_target_len(kind: EntryKind) -> nat {
    match kind {
        EntryKind::Symlink { target } => target@.len(),
        EntryKind::Hardlink { target } => target@.len(),
        _ => 0,
    }
}

/// Streaming deterministic TAR writer. Members must be announced
/// with their exact byte length (TAR headers carry the size before
/// the data).
pub struct CanonicalTarWriter {
    open: Option<(u64, u64)>,
}

impl View for CanonicalTarWriter {
    type V = Option<(u64, u64)>;

    closed spec fn view(&self) -> Option<(u64, u64)> {
        self.open
    }
}

impl CanonicalTarWriter {
    /// A fresh writer.
    pub fn new() -> (writer: Self)
        ensures
            writer@ is None,
    {
        CanonicalTarWriter { open: None }
    }

    /// Write a non-member entry (directory, link, device).
    pub fn entry(&mut self, kind: &EntryKind, path: &[u8], emit: &mut Vec<Vec<u8>>)
        requires
            old(self)@ is None,
            path@.len() <= NAME_LIMIT,
            entry_target_len(*kind) <= NAME_LIMIT,
        ensures
            final(self)@ is None,
            chunk_view(final(emit)@) == chunk_view(old(emit)@) + entry_chunks(*kind, path@),
    {
        proof {
            reveal_with_fuel(octal_room, 8);
            reveal_with_fuel(octal_room, 12);
        }
        let empty: Vec<u8> = Vec::new();
        match kind {
            EntryKind::Directory => emit_header(path, 0, DIRECTORY_MODE, 53, empty.as_slice(), emit),
            EntryKind::Symlink { target } => emit_header(path, 0, MEMBER_MODE, 50, target.as_slice(), emit),
            EntryKind::Hardlink { target } => emit_header(path, 0, MEMBER_MODE, 49, target.as_slice(), emit),
            EntryKind::Other { tag } => emit_header(path, 0, MEMBER_MODE, *tag, empty.as_slice(), emit),
        }
    }

    /// Begin a member of exactly `size` bytes.
    pub fn begin_member(&mut self, path: &[u8], size: u64, emit: &mut Vec<Vec<u8>>)
        requires
            old(self)@ is None,
            path@.len() <= NAME_LIMIT,
        ensures
            final(self)@ == Some((size, 0u64)),
            chunk_view(final(emit)@) == chunk_view(old(emit)@) + header_chunks(path@, size, MEMBER_MODE, 48, Seq::empty()),
    {
        proof {
            reveal_with_fuel(octal_room, 8);
        }
        let empty: Vec<u8> = Vec::new();
        emit_header(path, size, MEMBER_MODE, 48, empty.as_slice(), emit);
        self.open = Some((size, 0));
    }

    /// Write member bytes.
    pub fn member_bytes(&mut self, bytes: &[u8], emit: &mut Vec<Vec<u8>>)
        requires
            old(self)@ matches Some((size, written)) && written + bytes@.len() <= size,
        ensures
            old(self)@ matches Some((size, written)) ==> final(self)@ == Some((size, (written + bytes@.len()) as u64)),
            chunk_view(final(emit)@) == chunk_view(old(emit)@).push(bytes@),
    {
        let (size, written) = match self.open {
            Some(open) => open,
            None => (0, 0),
        };
        self.open = Some((size, written + bytes.len() as u64));
        let mut copy: Vec<u8> = Vec::new();
        push_all(&mut copy, bytes);
        let ghost before = emit@;
        emit.push(copy);
        assert(chunk_view(emit@) =~= chunk_view(before).push(bytes@));
    }

    /// Close the member (pads to the block boundary).
    pub fn end_member(&mut self, emit: &mut Vec<Vec<u8>>)
        requires
            old(self)@ matches Some((size, written)) && written == size,
        ensures
            final(self)@ is None,
            old(self)@ matches Some((size, _)) ==> chunk_view(final(emit)@) == chunk_view(old(emit)@) + (if size % 512 != 0 {
                seq![zeros((512 - size % 512) as nat)]
            } else {
                Seq::empty()
            }),
    {
        let (size, _) = match self.open {
            Some(open) => open,
            None => (0, 0),
        };
        self.open = None;
        let remainder = (size % 512) as usize;
        let ghost before = emit@;
        if remainder != 0 {
            let mut pad: Vec<u8> = Vec::new();
            let mut k: usize = 0;
            while k < BLOCK - remainder
                invariant
                    k <= BLOCK - remainder,
                    pad@ == zeros(k as nat),
                decreases BLOCK - remainder - k,
            {
                pad.push(0);
                assert(zeros((k + 1) as nat) =~= zeros(k as nat).push(0u8));
                k = k + 1;
            }
            emit.push(pad);
        }
        assert(chunk_view(emit@) =~= chunk_view(before) + (if size % 512 != 0 {
            seq![zeros((512 - size % 512) as nat)]
        } else {
            Seq::empty()
        }));
    }

    /// Finish the archive: the two-block end marker.
    pub fn finish(self, emit: &mut Vec<Vec<u8>>)
        requires
            self@ is None,
        ensures
            chunk_view(final(emit)@) == chunk_view(old(emit)@) + seq![zeros(512), zeros(512)],
    {
        let ghost before = emit@;
        let mut k: usize = 0;
        let mut block: Vec<u8> = Vec::new();
        while k < BLOCK
            invariant
                k <= BLOCK,
                block@ == zeros(k as nat),
            decreases BLOCK - k,
        {
            block.push(0);
            assert(zeros((k + 1) as nat) =~= zeros(k as nat).push(0u8));
            k = k + 1;
        }
        let second = block.clone();
        emit.push(block);
        emit.push(second);
        assert(chunk_view(emit@) =~= chunk_view(before) + seq![zeros(512), zeros(512)]);
    }
}

/// Octal digits scan back to their value.
proof fn lemma_octal_scan_digits(value: nat, width: nat)
    requires
        width <= 12,
        value < octal_room(width),
    ensures
        octal_scan(octal_digits(value, width)) == Some((value as u64, width > 0, false)),
    decreases width,
{
    if width > 0 {
        let w1 = (width - 1) as nat;
        assert(value / 8 < octal_room(w1)) by (nonlinear_arith)
            requires
                value < 8 * octal_room(w1),
        {
        }
        lemma_octal_scan_digits(value / 8, w1);
        assert(octal_digits(value, width).drop_last() == octal_digits(value / 8, w1));
        assert((value / 8) * 8 + value % 8 == value) by (nonlinear_arith);
        assert(value <= u64::MAX) by {
            lemma_octal_room_mono(width, 12);
            reveal_with_fuel(octal_room, 13);
        }
    }
}

/// Wider fields hold more.
proof fn lemma_octal_room_mono(a: nat, b: nat)
    requires
        a <= b,
    ensures
        octal_room(a) <= octal_room(b),
    decreases b,
{
    if a < b {
        lemma_octal_room_mono(a, (b - 1) as nat);
    }
}

/// A NUL-terminated octal field parses back to its value; so does
/// one followed by anything.
proof fn lemma_parse_octal_field(value: nat, width: nat, tail: Seq<u8>)
    requires
        1 <= width <= 12,
        value < octal_room(width),
        tail.len() > 0,
        tail[0] == 0,
    ensures
        parse_octal_spec(octal_digits(value, width) + tail) == Some(value as u64),
    decreases tail.len(),
{
    lemma_octal_scan_digits(value, width);
    let digits = octal_digits(value, width);
    if tail.len() == 1 {
        assert((digits + tail).drop_last() =~= digits);
    } else {
        lemma_parse_octal_field_stopped(digits, tail);
    }
}

/// After the terminating NUL, further bytes leave the scan stopped.
proof fn lemma_parse_octal_field_stopped(digits: Seq<u8>, tail: Seq<u8>)
    requires
        tail.len() > 0,
        tail[0] == 0,
        octal_scan(digits) matches Some((_, _, stopped)) && !stopped,
    ensures
        octal_scan(digits + tail) matches Some((v, seen, stopped)) && stopped
            && octal_scan(digits)->Some_0.0 == v && octal_scan(digits)->Some_0.1 == seen,
    decreases tail.len(),
{
    if tail.len() == 1 {
        assert((digits + tail).drop_last() =~= digits);
    } else {
        lemma_parse_octal_field_stopped(digits, tail.drop_last());
        assert((digits + tail).drop_last() =~= digits + tail.drop_last());
    }
}

/// Sums over blocks that differ only in the checksum field agree.
proof fn lemma_header_sum_ignores_field(a: Seq<u8>, b: Seq<u8>, n: int)
    requires
        0 <= n <= a.len(),
        n <= b.len(),
        forall|i: int| 0 <= i < n && !(148 <= i < 156) ==> a[i] == b[i],
    ensures
        header_sum(a, n) == header_sum(b, n),
    decreases n,
{
    if n > 0 {
        lemma_header_sum_ignores_field(a, b, n - 1);
    }
}

/// The checksum field alone adds 256 to any header's sum.
proof fn lemma_header_sum_floor(block: Seq<u8>, n: int)
    requires
        156 <= n <= block.len(),
    ensures
        header_sum(block, n) >= 256,
    decreases n,
{
    if n > 156 {
        lemma_header_sum_floor(block, n - 1);
    } else {
        reveal_with_fuel(header_sum, 9);
    }
}

/// A NUL-free name padded with zeros reads back as itself.
pub proof fn lemma_c_string_padded(name: Seq<u8>, n: nat)
    requires
        name.len() <= n,
        forall|i: int| 0 <= i < name.len() ==> name[i] != 0,
    ensures
        c_string_spec(padded(name, n)) == name,
{
    let field = padded(name, n);
    crate::decompose::tar::lemma_first_index(field, 0);
    if name.len() < n {
        assert(field[name.len() as int] == 0);
        assert(first_index(field, 0) <= name.len()) by {
            if first_index(field, 0) > name.len() {
                assert(field[name.len() as int] != 0);
            }
        }
        assert(first_index(field, 0) >= name.len()) by {
            if first_index(field, 0) < name.len() {
                assert(field[first_index(field, 0) as int] == 0);
                assert(field[first_index(field, 0) as int] == name[first_index(field, 0) as int]);
            }
        }
    } else {
        assert(field =~= name);
        if first_index(field, 0) < name.len() {
            assert(field[first_index(field, 0) as int] == 0);
        }
    }
    assert(field.subrange(0, first_index(field, 0) as int) =~= name);
}

/// The canonical header reads back: its checksum holds, and the
/// walker's size, type and (for a short NUL-free path) path fields
/// are the written ones.
pub proof fn lemma_header_round_trip(path: Seq<u8>, size: u64, mode: u32, typeflag: u8, link: Seq<u8>)
    requires
        size < octal_room(11),
        mode < octal_room(7),
    ensures
        header_spec(path, size, mode, typeflag, link).len() == BLOCK,
        checksum_spec(header_spec(path, size, mode, typeflag, link)),
        parse_octal_spec(header_spec(path, size, mode, typeflag, link).subrange(124, 136)) == Some(size),
        header_spec(path, size, mode, typeflag, link)[156] == typeflag,
        path.len() <= 100 && (forall|i: int| 0 <= i < path.len() ==> path[i] != 0)
            ==> header_path(header_spec(path, size, mode, typeflag, link)) == path,
        link.len() <= 100 && (forall|i: int| 0 <= i < link.len() ==> link[i] != 0)
            ==> c_string_spec(header_spec(path, size, mode, typeflag, link).subrange(157, 257)) == link,
{
    let fields = header_fields(path, size, mode, typeflag, link);
    let block = header_spec(path, size, mode, typeflag, link);
    lemma_header_fields_len(path, size, mode, typeflag, link);
    lemma_octal_digits_len(mode as nat, 7);
    lemma_octal_digits_len(0, 7);
    lemma_octal_digits_len(size as nat, 11);
    lemma_octal_digits_len(0, 11);
    let sum = header_sum(fields, 512);
    lemma_header_sum_bound(fields, 512);
    reveal_with_fuel(octal_room, 12);
    assert(octal_room(6) == 262144);
    lemma_octal_digits_len(sum, 6);
    assert(block.len() == 512);
    assert forall|i: int| 0 <= i < 512 && !(148 <= i < 156) implies block[i] == fields[i] by {
        if i < 148 {
            assert(block[i] == fields.subrange(0, 148)[i]);
        } else {
            assert(block[i] == fields.subrange(156, 512)[i - 156]);
        }
    }
    lemma_header_sum_ignores_field(block, fields, 512);
    lemma_header_sum_floor(fields, 512);
    assert(block.subrange(148, 156) =~= octal_digits(sum, 6) + seq![0u8, 32u8]);
    lemma_parse_octal_field(sum, 6, seq![0u8, 32u8]);
    assert(fields.subrange(124, 136) =~= octal_digits(size as nat, 11) + seq![0u8]);
    assert(block.subrange(124, 136) =~= fields.subrange(124, 136));
    lemma_parse_octal_field(size as nat, 11, seq![0u8]);
    assert(block[156] == fields[156]);
    if path.len() <= 100 && (forall|i: int| 0 <= i < path.len() ==> path[i] != 0) {
        assert(block.subrange(0, 100) =~= padded(path, 100));
        lemma_c_string_padded(path, 100);
        assert(block.subrange(345, 500) =~= zeros(155));
        crate::decompose::tar::lemma_first_index(zeros(155), 0);
        assert(zeros(155)[0] == 0);
        assert(c_string_spec(block.subrange(345, 500)).len() == 0);
    }
    if link.len() <= 100 && (forall|i: int| 0 <= i < link.len() ==> link[i] != 0) {
        assert(block.subrange(157, 257) =~= padded(link, 100));
        lemma_c_string_padded(link, 100);
    }
}

} // verus!
