//! The canonical pax records read back: the TAR walker's pax parser,
//! given the record set the writer emits for an over-long path or
//! link target or a too-large size, sets exactly those overrides.

use vstd::prelude::*;
use vstd::string::StringSliceAdditionalSpecFns;

use super::tar::{
    decimal_digits, decimal_len, lemma_pax_keys, lemma_pax_record_len, pax_record_len, pax_record_spec,
    pax_records_spec, size_overflows, PAX_LINKPATH_KEY, PAX_PATH_KEY, PAX_SIZE_KEY,
};
use crate::decompose::fault::OpaqueReason;
use crate::decompose::tar::{
    apply_pax_spec, decimal_text, first_index, lemma_first_index_at, OverridesModel, PAX_LINKPATH, PAX_PATH,
    PAX_SIZE,
};
use crate::pdf::object::{all_digits, decimal_value};

verus! {

broadcast use vstd::seq_lib::group_seq_properties;

/// Decimal digits read back: they are digits, start with one, and
/// their value is the number.
pub proof fn lemma_decimal_digits_read(n: nat)
    ensures
        decimal_digits(n).len() > 0,
        all_digits(decimal_digits(n)),
        decimal_value(decimal_digits(n)) == n,
    decreases n,
{
    if n >= 10 {
        lemma_decimal_digits_read(n / 10);
        let d = decimal_digits(n / 10);
        let c = (48 + n % 10) as u8;
        assert(decimal_digits(n) == d.push(c));
        assert(decimal_digits(n).drop_last() =~= d);
        assert(decimal_digits(n).last() == c);
        assert(decimal_value(decimal_digits(n)) == decimal_value(d) * 10 + (c - 48) as nat);
        assert(n / 10 * 10 + n % 10 == n);
        assert(all_digits(decimal_digits(n))) by {
            assert forall|i: int| 0 <= i < decimal_digits(n).len() implies crate::pdf::object::is_digit(
                #[trigger] decimal_digits(n)[i],
            ) by {
                if i < d.len() {
                    assert(decimal_digits(n)[i] == d[i]);
                }
            }
        }
    } else {
        assert(decimal_digits(n).drop_last() =~= Seq::<u8>::empty());
        assert(decimal_value(decimal_digits(n)) == decimal_value(Seq::<u8>::empty()) * 10 + n);
    }
}

/// A number's decimal text parses back to it.
pub proof fn lemma_decimal_text_read(n: nat, max: nat)
    requires
        n <= max,
    ensures
        decimal_text(decimal_digits(n), max) == Some(n),
{
    lemma_decimal_digits_read(n);
    assert(crate::pdf::object::is_digit(decimal_digits(n)[0]));
}

/// The pax keys, byte by byte, as the writer and the walker spell
/// them.
pub proof fn lemma_pax_key_bytes()
    ensures
        PAX_PATH_KEY.spec_bytes() == seq![112u8, 97u8, 116u8, 104u8],
        PAX_LINKPATH_KEY.spec_bytes() == seq![108u8, 105u8, 110u8, 107u8, 112u8, 97u8, 116u8, 104u8],
        PAX_SIZE_KEY.spec_bytes() == seq![115u8, 105u8, 122u8, 101u8],
        PAX_PATH.spec_bytes() == PAX_PATH_KEY.spec_bytes(),
        PAX_LINKPATH.spec_bytes() == PAX_LINKPATH_KEY.spec_bytes(),
        PAX_SIZE.spec_bytes() == PAX_SIZE_KEY.spec_bytes(),
{
    lemma_pax_keys();
    reveal_strlit("path");
    reveal_strlit("linkpath");
    reveal_strlit("size");
    assert(vstd::string::is_ascii(PAX_PATH_KEY));
    assert(vstd::string::is_ascii(PAX_LINKPATH_KEY));
    assert(vstd::string::is_ascii(PAX_SIZE_KEY));
    assert(vstd::string::is_ascii(PAX_PATH));
    assert(vstd::string::is_ascii(PAX_LINKPATH));
    assert(vstd::string::is_ascii(PAX_SIZE));
    vstd::string::is_ascii_spec_bytes(PAX_PATH_KEY);
    vstd::string::is_ascii_spec_bytes(PAX_LINKPATH_KEY);
    vstd::string::is_ascii_spec_bytes(PAX_SIZE_KEY);
    vstd::string::is_ascii_spec_bytes(PAX_PATH);
    vstd::string::is_ascii_spec_bytes(PAX_LINKPATH);
    vstd::string::is_ascii_spec_bytes(PAX_SIZE);
    assert(PAX_PATH_KEY.spec_bytes() =~= seq![112u8, 97u8, 116u8, 104u8]);
    assert(PAX_LINKPATH_KEY.spec_bytes() =~= seq![108u8, 105u8, 110u8, 107u8, 112u8, 97u8, 116u8, 104u8]);
    assert(PAX_SIZE_KEY.spec_bytes() =~= seq![115u8, 105u8, 122u8, 101u8]);
    assert(PAX_PATH.spec_bytes() =~= PAX_PATH_KEY.spec_bytes());
    assert(PAX_LINKPATH.spec_bytes() =~= PAX_LINKPATH_KEY.spec_bytes());
    assert(PAX_SIZE.spec_bytes() =~= PAX_SIZE_KEY.spec_bytes());
}

/// The overrides one canonical record sets.
pub open spec fn record_applied(ov: OverridesModel, key: Seq<u8>, value: Seq<u8>) -> OverridesModel {
    if key == PAX_PATH_KEY.spec_bytes() {
        OverridesModel { path: Some(value), ..ov }
    } else if key == PAX_LINKPATH_KEY.spec_bytes() {
        OverridesModel { link: Some(value), ..ov }
    } else {
        OverridesModel { size: Some(decimal_value(value) as u64), ..ov }
    }
}

/// How a canonical pax record, followed by more, splits as the walker
/// reads it: its length field up to the first space, the length, the
/// key up to the first `=`, the value, and what follows.
proof fn lemma_pax_record_shape(key: Seq<u8>, value: Seq<u8>, tail: Seq<u8>)
    requires
        forall|j: int| 0 <= j < key.len() ==> key[j] != 61u8,
        key.len() > 0,
        pax_record_spec(key, value).len() <= usize::MAX,
    ensures
        ({
            let rest = pax_record_spec(key, value) + tail;
            let total = pax_record_spec(key, value).len();
            let space = first_index(rest, 32);
            &&& space < rest.len()
            &&& decimal_text(rest.subrange(0, space as int), usize::MAX as nat) == Some(total)
            &&& space + 1 < total <= rest.len()
            &&& rest.subrange(space + 1 as int, total as int).last() == 10u8
            &&& first_index(rest.subrange(space + 1 as int, total as int).drop_last(), 61) == key.len()
            &&& key.len() < rest.subrange(space + 1 as int, total as int).drop_last().len()
            &&& rest.subrange(space + 1 as int, total as int).drop_last().subrange(0, key.len() as int) == key
            &&& rest.subrange(space + 1 as int, total as int).drop_last().subrange(
                key.len() + 1 as int,
                rest.subrange(space + 1 as int, total as int).drop_last().len() as int,
            ) == value
            &&& rest.subrange(total as int, rest.len() as int) == tail
        }),
{
    let body = 1 + key.len() + 1 + value.len() + 1;
    let total = pax_record_len(body);
    lemma_pax_record_len(body);
    let digits = decimal_digits(total);
    lemma_decimal_digits_read(total);
    let record = pax_record_spec(key, value);
    let rest = record + tail;
    assert(record == digits + seq![32u8] + key + seq![61u8] + value + seq![10u8]);
    assert(record.len() == total);
    let space = digits.len();
    assert forall|j: int| 0 <= j < space implies rest[j] != 32u8 by {
        assert(rest[j] == digits[j]);
        assert(crate::pdf::object::is_digit(digits[j]));
    }
    assert(rest[space as int] == 32u8);
    lemma_first_index_at(rest, 32u8, space as int);
    assert(rest.subrange(0, space as int) =~= digits);
    assert(crate::pdf::object::is_digit(digits[0]));
    let rec = rest.subrange(space + 1 as int, total as int);
    assert(rec =~= key + seq![61u8] + value + seq![10u8]);
    let b = rec.drop_last();
    assert(b =~= key + seq![61u8] + value);
    assert forall|j: int| 0 <= j < key.len() implies b[j] != 61u8 by {
        assert(b[j] == key[j]);
    }
    assert(b[key.len() as int] == 61u8);
    lemma_first_index_at(b, 61u8, key.len() as int);
    assert(b.subrange(0, key.len() as int) =~= key);
    assert(b.subrange(key.len() + 1 as int, b.len() as int) =~= value);
    assert(rest.subrange(total as int, rest.len() as int) =~= tail);
}

/// One canonical pax record, followed by more, is parsed: the walker
/// reads its length, its key and its value, applies it, and goes on
/// after it.
#[verifier::rlimit(40)]
pub proof fn lemma_pax_record_read(ov: OverridesModel, key: Seq<u8>, value: Seq<u8>, tail: Seq<u8>, offset: u64)
    requires
        key == PAX_PATH_KEY.spec_bytes() || key == PAX_LINKPATH_KEY.spec_bytes() || (key == PAX_SIZE_KEY.spec_bytes()
            && value.len() > 0 && all_digits(value) && value[0] != 43 && decimal_value(value) <= u64::MAX),
        pax_record_spec(key, value).len() <= usize::MAX,
    ensures
        apply_pax_spec(ov, pax_record_spec(key, value) + tail, offset) == apply_pax_spec(
            record_applied(ov, key, value),
            tail,
            offset,
        ),
{
    lemma_pax_key_bytes();
    assert(forall|j: int| 0 <= j < key.len() ==> key[j] != 61u8);
    lemma_pax_record_shape(key, value, tail);
    if key == PAX_SIZE_KEY.spec_bytes() {
        assert(key != PAX_PATH.spec_bytes()) by {
            assert(key[0] != PAX_PATH.spec_bytes()[0]);
        }
        assert(key != PAX_LINKPATH.spec_bytes());
        assert(key != PAX_PATH_KEY.spec_bytes());
        assert(key != PAX_LINKPATH_KEY.spec_bytes());
        assert(decimal_text(value, u64::MAX as nat) == Some(decimal_value(value)));
    } else if key == PAX_LINKPATH_KEY.spec_bytes() {
        assert(key != PAX_PATH.spec_bytes());
        assert(key != PAX_PATH_KEY.spec_bytes());
    }
}

/// The overrides the canonical record set for `path`, `link` and
/// `size` sets.
pub open spec fn canonical_overrides(ov: OverridesModel, path: Seq<u8>, link: Seq<u8>, size: u64) -> OverridesModel {
    OverridesModel {
        path: if path.len() > 100 { Some(path) } else { ov.path },
        link: if link.len() > 100 { Some(link) } else { ov.link },
        size: if size_overflows(size) { Some(size) } else { ov.size },
        ..ov
    }
}

/// The canonical pax record set reads back: it sets the long path,
/// the long link target and the large size, and nothing else.
pub proof fn lemma_pax_records_read(ov: OverridesModel, path: Seq<u8>, link: Seq<u8>, size: u64, offset: u64)
    requires
        pax_records_spec(path, link, size).len() <= 16384,
    ensures
        apply_pax_spec(ov, pax_records_spec(path, link, size), offset) == Ok::<OverridesModel, OpaqueReason>(
            canonical_overrides(ov, path, link, size),
        ),
{
    lemma_pax_key_bytes();
    let p = if path.len() > 100 { pax_record_spec(PAX_PATH_KEY.spec_bytes(), path) } else { Seq::empty() };
    let l = if link.len() > 100 { pax_record_spec(PAX_LINKPATH_KEY.spec_bytes(), link) } else { Seq::empty() };
    let digits = decimal_digits(size as nat);
    let s = if size_overflows(size) { pax_record_spec(PAX_SIZE_KEY.spec_bytes(), digits) } else { Seq::empty() };
    assert(pax_records_spec(path, link, size) == p + l + s);
    let ov1 = if path.len() > 100 { OverridesModel { path: Some(path), ..ov } } else { ov };
    let ov2 = if link.len() > 100 { OverridesModel { link: Some(link), ..ov1 } } else { ov1 };
    let ov3 = if size_overflows(size) { OverridesModel { size: Some(size), ..ov2 } } else { ov2 };
    // The size record, last.
    if size_overflows(size) {
        lemma_decimal_digits_read(size as nat);
        assert(crate::pdf::object::is_digit(digits[0]));
        lemma_pax_record_read(ov2, PAX_SIZE_KEY.spec_bytes(), digits, Seq::empty(), offset);
        assert(s + Seq::<u8>::empty() =~= s);
    } else {
        assert(s =~= Seq::<u8>::empty());
    }
    assert(apply_pax_spec(ov2, s, offset) == Ok::<OverridesModel, OpaqueReason>(ov3));
    // The link record.
    if link.len() > 100 {
        lemma_pax_record_read(ov1, PAX_LINKPATH_KEY.spec_bytes(), link, s, offset);
    } else {
        assert(l + s =~= s);
    }
    assert(apply_pax_spec(ov1, l + s, offset) == Ok::<OverridesModel, OpaqueReason>(ov3));
    // The path record.
    if path.len() > 100 {
        lemma_pax_record_read(ov, PAX_PATH_KEY.spec_bytes(), path, l + s, offset);
    } else {
        assert(p + (l + s) =~= l + s);
    }
    assert(p + l + s =~= p + (l + s));
    assert(ov3 == canonical_overrides(ov, path, link, size));
}

} // verus!
