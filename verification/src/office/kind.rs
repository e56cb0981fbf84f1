//! [`OfficeKind`] — the three Office Open XML package kinds and the
//! frozen part vocabulary that identifies them.

use vstd::prelude::*;
use vstd::string::StringSliceAdditionalSpecFns;

verus! {

/// The package's first member. Office writers emit it first; a ZIP
/// whose first member is anything else is not treated as an OOXML
/// package.
pub const CONTENT_TYPES: &'static str = "[Content_Types].xml";

/// The directory whose presence marks a digitally signed package.
pub const SIGNATURE_DIR: &'static str = "_xmlsignatures/";

/// The Word main part.
pub const WORD_MAIN_PART: &'static str = "word/document.xml";

/// The Excel main part.
pub const EXCEL_MAIN_PART: &'static str = "xl/workbook.xml";

/// The PowerPoint main part.
pub const POWERPOINT_MAIN_PART: &'static str = "ppt/presentation.xml";

/// The Office Open XML package kinds.
#[derive(Debug, Clone, Copy, PartialEq, Eq, Structural)]
pub enum OfficeKind {
    /// WordprocessingML (`.docx`).
    Word,
    /// SpreadsheetML (`.xlsx`).
    Excel,
    /// PresentationML (`.pptx`).
    Powerpoint,
}

/// The main-part name that identifies a kind, as bytes.
pub open spec fn main_part_spec(kind: OfficeKind) -> Seq<u8> {
    match kind {
        OfficeKind::Word => WORD_MAIN_PART.spec_bytes(),
        OfficeKind::Excel => EXCEL_MAIN_PART.spec_bytes(),
        OfficeKind::Powerpoint => POWERPOINT_MAIN_PART.spec_bytes(),
    }
}

/// The kind whose main part `name` is, if any (kinds tried in the
/// order Word, Excel, PowerPoint).
pub open spec fn kind_of_main_part(name: Seq<u8>) -> Option<OfficeKind> {
    if name == main_part_spec(OfficeKind::Word) {
        Some(OfficeKind::Word)
    } else if name == main_part_spec(OfficeKind::Excel) {
        Some(OfficeKind::Excel)
    } else if name == main_part_spec(OfficeKind::Powerpoint) {
        Some(OfficeKind::Powerpoint)
    } else {
        None
    }
}

/// The part names' lengths, which tell them apart.
pub proof fn lemma_part_name_lengths()
    ensures
        CONTENT_TYPES.spec_bytes().len() == 19,
        WORD_MAIN_PART.spec_bytes().len() == 17,
        EXCEL_MAIN_PART.spec_bytes().len() == 15,
        POWERPOINT_MAIN_PART.spec_bytes().len() == 20,
{
    reveal_strlit("[Content_Types].xml");
    reveal_strlit("word/document.xml");
    reveal_strlit("xl/workbook.xml");
    reveal_strlit("ppt/presentation.xml");
    vstd::string::is_ascii_spec_bytes(CONTENT_TYPES);
    vstd::string::is_ascii_spec_bytes(WORD_MAIN_PART);
    vstd::string::is_ascii_spec_bytes(EXCEL_MAIN_PART);
    vstd::string::is_ascii_spec_bytes(POWERPOINT_MAIN_PART);
    assert(vstd::string::is_ascii(CONTENT_TYPES));
    assert(vstd::string::is_ascii(WORD_MAIN_PART));
    assert(vstd::string::is_ascii(EXCEL_MAIN_PART));
    assert(vstd::string::is_ascii(POWERPOINT_MAIN_PART));
}

/// Every kind is read back from its own main-part name, and a name
/// that reads as a kind is that kind's main part: the main parts of
/// the kinds are told apart, none lost.
pub proof fn lemma_main_part_identifies_kind(kind: OfficeKind, name: Seq<u8>)
    ensures
        kind_of_main_part(main_part_spec(kind)) == Some(kind),
        kind_of_main_part(name) == Some(kind) <==> name == main_part_spec(kind),
        kind_of_main_part(CONTENT_TYPES.spec_bytes()) is None,
{
    lemma_part_name_lengths();
}

/// A kind's human-readable name.
pub open spec fn office_kind_name(kind: OfficeKind) -> &'static str {
    match kind {
        OfficeKind::Word => "word",
        OfficeKind::Excel => "excel",
        OfficeKind::Powerpoint => "powerpoint",
    }
}

/// Whether two byte strings are equal.
pub fn bytes_equal(a: &[u8], b: &[u8]) -> (equal: bool)
    ensures
        equal == (a@ == b@),
{
    if a.len() != b.len() {
        return false;
    }
    let mut i: usize = 0;
    while i < a.len()
        invariant
            i <= a@.len() == b@.len(),
            a@.subrange(0, i as int) == b@.subrange(0, i as int),
        decreases a@.len() - i,
    {
        if a[i] != b[i] {
            assert(a@[i as int] != b@[i as int]);
            return false;
        }
        assert(a@.subrange(0, i + 1) =~= a@.subrange(0, i as int).push(a@[i as int]));
        assert(b@.subrange(0, i + 1) =~= b@.subrange(0, i as int).push(b@[i as int]));
        i = i + 1;
    }
    assert(a@ =~= a@.subrange(0, i as int));
    assert(b@ =~= b@.subrange(0, i as int));
    true
}

/// Whether `bytes` begins with `prefix`.
pub fn bytes_start_with(bytes: &[u8], prefix: &[u8]) -> (starts: bool)
    ensures
        starts == (prefix@.len() <= bytes@.len() && bytes@.subrange(0, prefix@.len() as int) == prefix@),
{
    if prefix.len() > bytes.len() {
        return false;
    }
    let mut i: usize = 0;
    while i < prefix.len()
        invariant
            i <= prefix@.len() <= bytes@.len(),
            bytes@.subrange(0, i as int) == prefix@.subrange(0, i as int),
        decreases prefix@.len() - i,
    {
        if bytes[i] != prefix[i] {
            assert(bytes@.subrange(0, prefix@.len() as int)[i as int] != prefix@[i as int]);
            return false;
        }
        assert(bytes@.subrange(0, i + 1) =~= bytes@.subrange(0, i as int).push(bytes@[i as int]));
        assert(prefix@.subrange(0, i + 1) =~= prefix@.subrange(0, i as int).push(prefix@[i as int]));
        i = i + 1;
    }
    assert(prefix@ =~= prefix@.subrange(0, i as int));
    true
}

impl OfficeKind {
    /// The main-part name that identifies the kind.
    pub fn main_part(self) -> (name: &'static [u8])
        ensures
            name@ == main_part_spec(self),
    {
        match self {
            OfficeKind::Word => WORD_MAIN_PART.as_bytes(),
            OfficeKind::Excel => EXCEL_MAIN_PART.as_bytes(),
            OfficeKind::Powerpoint => POWERPOINT_MAIN_PART.as_bytes(),
        }
    }

    /// The kind whose main part `name` is, if any.
    pub fn of_main_part(name: &[u8]) -> (kind: Option<OfficeKind>)
        ensures
            kind == kind_of_main_part(name@),
    {
        if bytes_equal(name, OfficeKind::Word.main_part()) {
            Some(OfficeKind::Word)
        } else if bytes_equal(name, OfficeKind::Excel.main_part()) {
            Some(OfficeKind::Excel)
        } else if bytes_equal(name, OfficeKind::Powerpoint.main_part()) {
            Some(OfficeKind::Powerpoint)
        } else {
            None
        }
    }

    /// The kind's human-readable name, for diagnostics.
    pub fn name(self) -> (text: &'static str)
        ensures
            text == office_kind_name(self),
    {
        match self {
            OfficeKind::Word => "word",
            OfficeKind::Excel => "excel",
            OfficeKind::Powerpoint => "powerpoint",
        }
    }
}

} // verus!
