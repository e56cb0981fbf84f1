//! Member naming and container rules: the final extension of a
//! member name, the frozen extension → media-type table, the
//! wrapped-tar names, and the byte prefixes that positively identify
//! a container.

use vstd::prelude::*;
use vstd::string::StringSliceAdditionalSpecFns;

use super::sink::ContainerKind;
use super::tar::{checksum_matches, checksum_spec, header_sum, BLOCK};
use crate::office::kind::bytes_equal;
use crate::text::utf8::whole_scalars;

verus! {

broadcast use vstd::seq_lib::group_seq_properties;

/// Longest extension the name table knows.
pub const EXTENSION_MAX: usize = 8;

/// ASCII lower-casing of one byte.
pub open spec fn ascii_lower(byte: u8) -> u8 {
    if 65 <= byte <= 90 { (byte + 32) as u8 } else { byte }
}

/// ASCII lower-casing of bytes.
pub open spec fn ascii_lower_all(bytes: Seq<u8>) -> Seq<u8> {
    bytes.map_values(|byte: u8| ascii_lower(byte))
}

/// The position just after the last `byte` in `bytes` (0 when there
/// is none).
pub open spec fn after_last(bytes: Seq<u8>, byte: u8) -> nat
    decreases bytes.len(),
{
    if bytes.len() == 0 {
        0
    } else if bytes.last() == byte {
        bytes.len()
    } else {
        after_last(bytes.drop_last(), byte)
    }
}

/// The final extension of `path` (bytes after the last `.` of the
/// last component), ASCII-lowercased; none without a dot, for an
/// empty or over-long extension, or one that is not UTF-8.
pub open spec fn extension_spec(path: Seq<u8>) -> Option<Seq<u8>> {
    let name = path.subrange(after_last(path, 47) as int, path.len() as int);
    let dot_end = after_last(name, 46);
    if dot_end == 0 {
        None
    } else {
        let ext = name.subrange(dot_end as int, name.len() as int);
        if ext.len() == 0 || ext.len() > EXTENSION_MAX || !whole_scalars(ext) {
            None
        } else {
            Some(ascii_lower_all(ext))
        }
    }
}

/// Whether `bytes` ends with `suffix`.
pub open spec fn ends_with(bytes: Seq<u8>, suffix: Seq<u8>) -> bool {
    suffix.len() <= bytes.len() && bytes.subrange(bytes.len() - suffix.len(), bytes.len() as int) == suffix
}

/// Whether `bytes` begins with `prefix`.
pub open spec fn begins_with(bytes: Seq<u8>, prefix: Seq<u8>) -> bool {
    prefix.len() <= bytes.len() && bytes.subrange(0, prefix.len() as int) == prefix
}

/// Whether `path` names a wrapped tar (`.tar.gz` or `.tgz`, any
/// case).
pub open spec fn is_wrapped_tar_name_spec(path: Seq<u8>) -> bool {
    ends_with(ascii_lower_all(path), seq![46u8, 116u8, 97u8, 114u8, 46u8, 103u8, 122u8])
        || ends_with(ascii_lower_all(path), seq![46u8, 116u8, 103u8, 122u8])
}

/// Whether `prefix` begins with a plausible TAR header: the `ustar`
/// magic, or (for pre-POSIX writers) a verified header checksum.
pub open spec fn is_tar_prefix_spec(prefix: Seq<u8>) -> bool {
    prefix.len() >= BLOCK && (prefix.subrange(257, 262) == seq![117u8, 115u8, 116u8, 97u8, 114u8]
        || checksum_spec(prefix.subrange(0, 512)))
}

/// The container kind a byte prefix positively identifies, if any.
pub open spec fn container_by_prefix_spec(prefix: Seq<u8>) -> Option<ContainerKind> {
    if begins_with(prefix, seq![0x1Fu8, 0x8Bu8]) {
        Some(ContainerKind::Gzip)
    } else if begins_with(prefix, seq![0x50u8, 0x4Bu8, 0x03u8, 0x04u8])
        || begins_with(prefix, seq![0x50u8, 0x4Bu8, 0x05u8, 0x06u8]) {
        Some(ContainerKind::Zip)
    } else if is_tar_prefix_spec(prefix) {
        Some(ContainerKind::Tar)
    } else {
        None
    }
}

/// The position after the last occurrence lies within the bytes.
proof fn lemma_after_last_bound(bytes: Seq<u8>, byte: u8)
    ensures
        after_last(bytes, byte) <= bytes.len(),
    decreases bytes.len(),
{
    if bytes.len() > 0 {
        lemma_after_last_bound(bytes.drop_last(), byte);
    }
}

/// The last `byte` at or before `end`, searched from the back.
fn after_last_of(bytes: &[u8], end: usize, byte: u8) -> (position: usize)
    requires
        end <= bytes@.len(),
    ensures
        position == after_last(bytes@.subrange(0, end as int), byte),
        position <= end,
{
    proof {
        lemma_after_last_bound(bytes@.subrange(0, end as int), byte);
    }
    let mut i: usize = end;
    while i > 0
        invariant
            i <= end <= bytes@.len(),
            after_last(bytes@.subrange(0, end as int), byte) == after_last(bytes@.subrange(0, i as int), byte),
        decreases i,
    {
        assert(bytes@.subrange(0, i as int).drop_last() =~= bytes@.subrange(0, i - 1));
        if bytes[i - 1] == byte {
            return i;
        }
        i = i - 1;
    }
    0
}

/// The final extension of `path`, ASCII-lowercased.
pub fn extension(path: &[u8]) -> (ext: Option<Vec<u8>>)
    ensures
        match extension_spec(path@) {
            Some(e) => ext matches Some(v) && v@ == e,
            None => ext is None,
        },
{
    let slash = after_last_of(path, path.len(), 47);
    assert(path@.subrange(0, path@.len() as int) =~= path@);
    let name = copy_range_of(path, slash, path.len());
    let dot_end = after_last_of(name.as_slice(), name.len(), 46);
    assert(name@.subrange(0, name@.len() as int) =~= name@);
    if dot_end == 0 {
        return None;
    }
    let ext_len = name.len() - dot_end;
    if ext_len == 0 || ext_len > EXTENSION_MAX {
        return None;
    }
    let raw = copy_range_of(name.as_slice(), dot_end, name.len());
    if !is_utf8(raw.as_slice()) {
        return None;
    }
    let mut lower: Vec<u8> = Vec::new();
    let mut i: usize = 0;
    while i < raw.len()
        invariant
            i <= raw@.len(),
            lower@ == ascii_lower_all(raw@.subrange(0, i as int)),
        decreases raw@.len() - i,
    {
        let byte = raw[i];
        lower.push(if 65 <= byte && byte <= 90 { byte + 32 } else { byte });
        assert(ascii_lower_all(raw@.subrange(0, i + 1)) =~= ascii_lower_all(raw@.subrange(0, i as int)).push(ascii_lower(byte)));
        i = i + 1;
    }
    assert(raw@.subrange(0, i as int) =~= raw@);
    Some(lower)
}

/// The frozen extension table: the media-type essence of a
/// lower-cased extension. Membership is a format decision: moving an
/// entry is an explicit cutover.
pub open spec fn essence_of_extension(ext: Seq<u8>) -> Option<&'static str> {
    if ext == "pdf".spec_bytes() {
        Some("application/pdf")
    } else if ext == "docx".spec_bytes() {
        Some("application/vnd.openxmlformats-officedocument.wordprocessingml.document")
    } else if ext == "xlsx".spec_bytes() {
        Some("application/vnd.openxmlformats-officedocument.spreadsheetml.sheet")
    } else if ext == "pptx".spec_bytes() {
        Some("application/vnd.openxmlformats-officedocument.presentationml.presentation")
    } else if ext == "odt".spec_bytes() {
        Some("application/vnd.oasis.opendocument.text")
    } else if ext == "ods".spec_bytes() {
        Some("application/vnd.oasis.opendocument.spreadsheet")
    } else if ext == "odp".spec_bytes() {
        Some("application/vnd.oasis.opendocument.presentation")
    } else if ext == "txt".spec_bytes() {
        Some("text/plain")
    } else if ext == "md".spec_bytes() {
        Some("text/markdown")
    } else if ext == "html".spec_bytes() {
        Some("text/html")
    } else if ext == "htm".spec_bytes() {
        Some("text/html")
    } else if ext == "css".spec_bytes() {
        Some("text/css")
    } else if ext == "csv".spec_bytes() {
        Some("text/csv")
    } else if ext == "tsv".spec_bytes() {
        Some("text/tab-separated-values")
    } else if ext == "xml".spec_bytes() {
        Some("application/xml")
    } else if ext == "json".spec_bytes() {
        Some("application/json")
    } else if ext == "yaml".spec_bytes() {
        Some("application/yaml")
    } else if ext == "yml".spec_bytes() {
        Some("application/yaml")
    } else if ext == "toml".spec_bytes() {
        Some("application/toml")
    } else if ext == "js".spec_bytes() {
        Some("text/javascript")
    } else if ext == "svg".spec_bytes() {
        Some("image/svg+xml")
    } else if ext == "ttl".spec_bytes() {
        Some("text/turtle")
    } else if ext == "n3".spec_bytes() {
        Some("text/n3")
    } else if ext == "nt".spec_bytes() {
        Some("application/n-triples")
    } else if ext == "nq".spec_bytes() {
        Some("application/n-quads")
    } else if ext == "trig".spec_bytes() {
        Some("application/trig")
    } else if ext == "png".spec_bytes() {
        Some("image/png")
    } else if ext == "jpg".spec_bytes() {
        Some("image/jpeg")
    } else if ext == "jpeg".spec_bytes() {
        Some("image/jpeg")
    } else if ext == "gif".spec_bytes() {
        Some("image/gif")
    } else if ext == "webp".spec_bytes() {
        Some("image/webp")
    } else if ext == "heic".spec_bytes() {
        Some("image/heic")
    } else if ext == "heif".spec_bytes() {
        Some("image/heif")
    } else if ext == "avif".spec_bytes() {
        Some("image/avif")
    } else if ext == "mp3".spec_bytes() {
        Some("audio/mpeg")
    } else if ext == "aac".spec_bytes() {
        Some("audio/aac")
    } else if ext == "flac".spec_bytes() {
        Some("audio/flac")
    } else if ext == "mp4".spec_bytes() {
        Some("video/mp4")
    } else if ext == "m4a".spec_bytes() {
        Some("audio/mp4")
    } else if ext == "mov".spec_bytes() {
        Some("video/quicktime")
    } else if ext == "mkv".spec_bytes() {
        Some("video/x-matroska")
    } else if ext == "webm".spec_bytes() {
        Some("video/webm")
    } else if ext == "ts".spec_bytes() {
        Some("video/mp2t")
    } else if ext == "zip".spec_bytes() {
        Some("application/zip")
    } else if ext == "jar".spec_bytes() {
        Some("application/java-archive")
    } else if ext == "epub".spec_bytes() {
        Some("application/epub+zip")
    } else if ext == "tar".spec_bytes() {
        Some("application/x-tar")
    } else if ext == "gz".spec_bytes() {
        Some("application/gzip")
    } else if ext == "tgz".spec_bytes() {
        Some("application/gzip")
    } else {
        None
    }
}

/// The frozen table's essence for a lower-cased extension.
fn essence_for(ext: &[u8]) -> (essence: Option<&'static str>)
    ensures
        essence == essence_of_extension(ext@),
{
    if bytes_equal(ext, "pdf".as_bytes()) {
        Some("application/pdf")
    } else if bytes_equal(ext, "docx".as_bytes()) {
        Some("application/vnd.openxmlformats-officedocument.wordprocessingml.document")
    } else if bytes_equal(ext, "xlsx".as_bytes()) {
        Some("application/vnd.openxmlformats-officedocument.spreadsheetml.sheet")
    } else if bytes_equal(ext, "pptx".as_bytes()) {
        Some("application/vnd.openxmlformats-officedocument.presentationml.presentation")
    } else if bytes_equal(ext, "odt".as_bytes()) {
        Some("application/vnd.oasis.opendocument.text")
    } else if bytes_equal(ext, "ods".as_bytes()) {
        Some("application/vnd.oasis.opendocument.spreadsheet")
    } else if bytes_equal(ext, "odp".as_bytes()) {
        Some("application/vnd.oasis.opendocument.presentation")
    } else if bytes_equal(ext, "txt".as_bytes()) {
        Some("text/plain")
    } else if bytes_equal(ext, "md".as_bytes()) {
        Some("text/markdown")
    } else if bytes_equal(ext, "html".as_bytes()) {
        Some("text/html")
    } else if bytes_equal(ext, "htm".as_bytes()) {
        Some("text/html")
    } else if bytes_equal(ext, "css".as_bytes()) {
        Some("text/css")
    } else if bytes_equal(ext, "csv".as_bytes()) {
        Some("text/csv")
    } else if bytes_equal(ext, "tsv".as_bytes()) {
        Some("text/tab-separated-values")
    } else if bytes_equal(ext, "xml".as_bytes()) {
        Some("application/xml")
    } else if bytes_equal(ext, "json".as_bytes()) {
        Some("application/json")
    } else if bytes_equal(ext, "yaml".as_bytes()) {
        Some("application/yaml")
    } else if bytes_equal(ext, "yml".as_bytes()) {
        Some("application/yaml")
    } else if bytes_equal(ext, "toml".as_bytes()) {
        Some("application/toml")
    } else if bytes_equal(ext, "js".as_bytes()) {
        Some("text/javascript")
    } else if bytes_equal(ext, "svg".as_bytes()) {
        Some("image/svg+xml")
    } else if bytes_equal(ext, "ttl".as_bytes()) {
        Some("text/turtle")
    } else if bytes_equal(ext, "n3".as_bytes()) {
        Some("text/n3")
    } else if bytes_equal(ext, "nt".as_bytes()) {
        Some("application/n-triples")
    } else if bytes_equal(ext, "nq".as_bytes()) {
        Some("application/n-quads")
    } else if bytes_equal(ext, "trig".as_bytes()) {
        Some("application/trig")
    } else if bytes_equal(ext, "png".as_bytes()) {
        Some("image/png")
    } else if bytes_equal(ext, "jpg".as_bytes()) {
        Some("image/jpeg")
    } else if bytes_equal(ext, "jpeg".as_bytes()) {
        Some("image/jpeg")
    } else if bytes_equal(ext, "gif".as_bytes()) {
        Some("image/gif")
    } else if bytes_equal(ext, "webp".as_bytes()) {
        Some("image/webp")
    } else if bytes_equal(ext, "heic".as_bytes()) {
        Some("image/heic")
    } else if bytes_equal(ext, "heif".as_bytes()) {
        Some("image/heif")
    } else if bytes_equal(ext, "avif".as_bytes()) {
        Some("image/avif")
    } else if bytes_equal(ext, "mp3".as_bytes()) {
        Some("audio/mpeg")
    } else if bytes_equal(ext, "aac".as_bytes()) {
        Some("audio/aac")
    } else if bytes_equal(ext, "flac".as_bytes()) {
        Some("audio/flac")
    } else if bytes_equal(ext, "mp4".as_bytes()) {
        Some("video/mp4")
    } else if bytes_equal(ext, "m4a".as_bytes()) {
        Some("audio/mp4")
    } else if bytes_equal(ext, "mov".as_bytes()) {
        Some("video/quicktime")
    } else if bytes_equal(ext, "mkv".as_bytes()) {
        Some("video/x-matroska")
    } else if bytes_equal(ext, "webm".as_bytes()) {
        Some("video/webm")
    } else if bytes_equal(ext, "ts".as_bytes()) {
        Some("video/mp2t")
    } else if bytes_equal(ext, "zip".as_bytes()) {
        Some("application/zip")
    } else if bytes_equal(ext, "jar".as_bytes()) {
        Some("application/java-archive")
    } else if bytes_equal(ext, "epub".as_bytes()) {
        Some("application/epub+zip")
    } else if bytes_equal(ext, "tar".as_bytes()) {
        Some("application/x-tar")
    } else if bytes_equal(ext, "gz".as_bytes()) {
        Some("application/gzip")
    } else if bytes_equal(ext, "tgz".as_bytes()) {
        Some("application/gzip")
    } else {
        None
    }
}

/// The media type a member's name declares: the frozen table's
/// essence for the final extension of its path, if it has one.
pub fn named_media_type(path: &[u8]) -> (essence: Option<&'static str>)
    ensures
        essence == match extension_spec(path@) {
            Some(ext) => essence_of_extension(ext),
            None => None,
        },
{
    match extension(path) {
        Some(ext) => essence_for(ext.as_slice()),
        None => None,
    }
}

/// A copy of `bytes[start..end]`.
fn copy_range_of(bytes: &[u8], start: usize, end: usize) -> (copy: Vec<u8>)
    requires
        start <= end <= bytes@.len(),
    ensures
        copy@ == bytes@.subrange(start as int, end as int),
{
    let mut copy: Vec<u8> = Vec::new();
    let mut i: usize = start;
    while i < end
        invariant
            start <= i <= end <= bytes@.len(),
            copy@ == bytes@.subrange(start as int, i as int),
        decreases end - i,
    {
        copy.push(bytes[i]);
        assert(bytes@.subrange(start as int, i + 1) =~= bytes@.subrange(start as int, i as int).push(bytes@[i as int]));
        i = i + 1;
    }
    copy
}

/// Whether `bytes` are whole UTF-8 scalars.
pub(crate) fn is_utf8(bytes: &[u8]) -> (valid: bool)
    ensures
        valid == whole_scalars(bytes@),
{
    let mut scanner = crate::text::utf8::Utf8Scanner::new();
    let mut i: usize = 0;
    while i < bytes.len()
        invariant
            i <= bytes@.len(),
            crate::text::utf8::utf8_run(crate::text::utf8::utf8_initial(), bytes@.subrange(0, i as int)) == Ok::<
                crate::text::utf8::Utf8State,
                crate::text::utf8::Utf8Fault,
            >(scanner@),
        decreases bytes@.len() - i,
    {
        assert(bytes@.subrange(0, i + 1).drop_last() =~= bytes@.subrange(0, i as int));
        match scanner.push(bytes[i]) {
            Ok(_) => {},
            Err(_) => {
                proof {
                    lemma_utf8_run_prefix_err(bytes@, (i + 1) as nat);
                }
                return false;
            },
        }
        i = i + 1;
    }
    assert(bytes@.subrange(0, i as int) =~= bytes@);
    scanner.at_boundary()
}

/// A fault within a prefix is the fault of the whole run.
proof fn lemma_utf8_run_prefix_err(bytes: Seq<u8>, n: nat)
    requires
        n <= bytes.len(),
        crate::text::utf8::utf8_run(crate::text::utf8::utf8_initial(), bytes.subrange(0, n as int)) is Err,
    ensures
        crate::text::utf8::utf8_run(crate::text::utf8::utf8_initial(), bytes) is Err,
    decreases bytes.len() - n,
{
    if n < bytes.len() {
        assert(bytes.subrange(0, n + 1 as int).drop_last() =~= bytes.subrange(0, n as int));
        lemma_utf8_run_prefix_err(bytes, n + 1);
    } else {
        assert(bytes.subrange(0, n as int) =~= bytes);
    }
}

/// Whether `bytes` ends with `suffix`.
fn ends_with_bytes(bytes: &Vec<u8>, suffix: &[u8]) -> (ends: bool)
    ensures
        ends == ends_with(bytes@, suffix@),
{
    if suffix.len() > bytes.len() {
        return false;
    }
    let start = bytes.len() - suffix.len();
    let mut i: usize = 0;
    while i < suffix.len()
        invariant
            start + suffix@.len() == bytes@.len(),
            bytes@.len() == bytes.len(),
            i <= suffix@.len(),
            forall|j: int| 0 <= j < i ==> bytes@[start + j] == suffix@[j],
        decreases suffix@.len() - i,
    {
        if bytes[start + i] != suffix[i] {
            assert(bytes@.subrange(start as int, bytes@.len() as int)[i as int] != suffix@[i as int]);
            return false;
        }
        i = i + 1;
    }
    assert(bytes@.subrange(start as int, bytes@.len() as int) =~= suffix@);
    true
}

/// Whether `path` names a wrapped tar (`.tar.gz` or `.tgz`).
pub fn is_wrapped_tar_name(path: &[u8]) -> (wrapped: bool)
    ensures
        wrapped == is_wrapped_tar_name_spec(path@),
{
    let mut lower: Vec<u8> = Vec::new();
    let mut i: usize = 0;
    while i < path.len()
        invariant
            i <= path@.len(),
            lower@ == ascii_lower_all(path@.subrange(0, i as int)),
        decreases path@.len() - i,
    {
        let byte = path[i];
        lower.push(if 65 <= byte && byte <= 90 { byte + 32 } else { byte });
        assert(ascii_lower_all(path@.subrange(0, i + 1)) =~= ascii_lower_all(path@.subrange(0, i as int)).push(ascii_lower(byte)));
        i = i + 1;
    }
    assert(path@.subrange(0, i as int) =~= path@);
    let tar_gz: [u8; 7] = [46, 116, 97, 114, 46, 103, 122];
    let tgz: [u8; 4] = [46, 116, 103, 122];
    assert(tar_gz@ =~= seq![46u8, 116u8, 97u8, 114u8, 46u8, 103u8, 122u8]);
    assert(tgz@ =~= seq![46u8, 116u8, 103u8, 122u8]);
    ends_with_bytes(&lower, &tar_gz) || ends_with_bytes(&lower, &tgz)
}

/// Headers agreeing on their first `n` bytes sum alike.
proof fn lemma_header_sum_prefix(a: Seq<u8>, b: Seq<u8>, n: int)
    requires
        0 <= n <= a.len(),
        n <= b.len(),
        forall|i: int| 0 <= i < n ==> a[i] == b[i],
    ensures
        header_sum(a, n) == header_sum(b, n),
    decreases n,
{
    if n > 0 {
        lemma_header_sum_prefix(a, b, n - 1);
    }
}

/// Whether `prefix` begins with a plausible TAR header.
pub fn is_tar_prefix(prefix: &[u8]) -> (tar: bool)
    ensures
        tar == is_tar_prefix_spec(prefix@),
{
    if prefix.len() < BLOCK {
        return false;
    }
    proof {
        super::tar::lemma_tar_literals();
        let head = prefix@.subrange(0, 512);
        lemma_header_sum_prefix(prefix@, head, 512);
        assert(head.subrange(148, 156) =~= prefix@.subrange(148, 156));
    }
    let magic: [u8; 5] = [117, 115, 116, 97, 114];
    assert(magic@ =~= seq![117u8, 115u8, 116u8, 97u8, 114u8]);
    let mut same = true;
    let mut i: usize = 0;
    while i < 5
        invariant
            i <= 5,
            prefix@.len() >= BLOCK,
            magic@ == seq![117u8, 115u8, 116u8, 97u8, 114u8],
            same == (forall|j: int| 0 <= j < i ==> prefix@[257 + j] == magic@[j]),
        decreases 5 - i,
    {
        if prefix[257 + i] != magic[i] {
            same = false;
        }
        i = i + 1;
    }
    if same {
        assert(prefix@.subrange(257, 262) =~= seq![117u8, 115u8, 116u8, 97u8, 114u8]);
        return true;
    }
    assert(prefix@.subrange(257, 262) != seq![117u8, 115u8, 116u8, 97u8, 114u8]) by {
        let j = choose|j: int| 0 <= j < 5 && prefix@[257 + j] != magic@[j];
        assert(prefix@.subrange(257, 262)[j] != magic@[j]);
    }
    checksum_matches(prefix)
}

/// The container kind a byte prefix positively identifies, if any.
pub fn container_by_prefix(prefix: &[u8]) -> (kind: Option<ContainerKind>)
    ensures
        kind == container_by_prefix_spec(prefix@),
{
    if prefix.len() >= 2 && prefix[0] == 0x1F && prefix[1] == 0x8B {
        assert(prefix@.subrange(0, 2) =~= seq![0x1Fu8, 0x8Bu8]);
        return Some(ContainerKind::Gzip);
    }
    assert(!begins_with(prefix@, seq![0x1Fu8, 0x8Bu8])) by {
        if prefix@.len() >= 2 {
            assert(prefix@.subrange(0, 2)[0] == prefix@[0]);
            assert(prefix@.subrange(0, 2)[1] == prefix@[1]);
        }
    }
    if prefix.len() >= 4 && prefix[0] == 0x50 && prefix[1] == 0x4B && ((prefix[2] == 0x03 && prefix[3] == 0x04)
        || (prefix[2] == 0x05 && prefix[3] == 0x06)) {
        assert(prefix@.subrange(0, 4) =~= seq![0x50u8, 0x4Bu8, prefix@[2], prefix@[3]]);
        return Some(ContainerKind::Zip);
    }
    assert(!begins_with(prefix@, seq![0x50u8, 0x4Bu8, 0x03u8, 0x04u8])
        && !begins_with(prefix@, seq![0x50u8, 0x4Bu8, 0x05u8, 0x06u8])) by {
        if prefix@.len() >= 4 {
            assert(prefix@.subrange(0, 4)[0] == prefix@[0]);
            assert(prefix@.subrange(0, 4)[1] == prefix@[1]);
            assert(prefix@.subrange(0, 4)[2] == prefix@[2]);
            assert(prefix@.subrange(0, 4)[3] == prefix@[3]);
        }
    }
    if is_tar_prefix(prefix) {
        return Some(ContainerKind::Tar);
    }
    None
}

} // verus!
