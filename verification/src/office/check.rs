//! [`PackageCheck`] — the package-level validation the Office
//! profiles share: `[Content_Types].xml` first, a main part present,
//! signatures noticed.

use vstd::prelude::*;
use vstd::string::StringSliceAdditionalSpecFns;

use super::fault::OfficeFault;
use super::kind::{bytes_start_with, kind_of_main_part, main_part_spec, OfficeKind, CONTENT_TYPES, SIGNATURE_DIR};

verus! {

/// The check as a mathematical value.
pub struct CheckModel {
    /// The kind the caller requires, if any.
    pub expected: Option<OfficeKind>,
    /// Members seen so far.
    pub members_seen: nat,
    /// The first member was `[Content_Types].xml`.
    pub first_ok: bool,
    /// The main parts seen, each once, in order of appearance.
    pub main_parts: Seq<OfficeKind>,
    /// A signature member was seen.
    pub signed: bool,
}

/// A check that has seen nothing.
pub open spec fn check_initial(expected: Option<OfficeKind>) -> CheckModel {
    CheckModel { expected, members_seen: 0, first_ok: false, main_parts: Seq::empty(), signed: false }
}

/// Whether `name` lies under `prefix`.
pub open spec fn starts_with(name: Seq<u8>, prefix: Seq<u8>) -> bool {
    prefix.len() <= name.len() && name.subrange(0, prefix.len() as int) == prefix
}

/// One member name: the first must be `[Content_Types].xml`; main
/// parts are recorded once each; a name under `_xmlsignatures/`
/// marks the package signed.
pub open spec fn check_member(c: CheckModel, name: Seq<u8>) -> Result<CheckModel, OfficeFault> {
    if c.members_seen == 0 && name != CONTENT_TYPES.spec_bytes() {
        Err(OfficeFault::NotOoxmlPackage)
    } else {
        Ok(CheckModel {
            members_seen: c.members_seen + 1,
            first_ok: c.first_ok || c.members_seen == 0,
            main_parts: match kind_of_main_part(name) {
                Some(kind) => if c.main_parts.contains(kind) { c.main_parts } else { c.main_parts.push(kind) },
                None => c.main_parts,
            },
            signed: c.signed || starts_with(name, SIGNATURE_DIR.spec_bytes()),
            ..c
        })
    }
}

/// The package is complete: the kind claims must hold.
pub open spec fn check_close(c: CheckModel) -> Result<(), OfficeFault> {
    if !c.first_ok {
        Err(OfficeFault::NotOoxmlPackage)
    } else {
        match c.expected {
            Some(kind) => if c.main_parts.contains(kind) { Ok(()) } else { Err(OfficeFault::MissingMainPart) },
            None => if c.main_parts.len() == 0 { Err(OfficeFault::UnrecognizedPackage) } else { Ok(()) },
        }
    }
}

/// A package of `[Content_Types].xml` followed by the main part of
/// `kind` records `kind` as its one main part and is accepted when
/// no kind, or `kind` itself, is required.
pub proof fn lemma_main_part_package_accepted(kind: OfficeKind, expected: Option<OfficeKind>)
    requires
        expected is None || expected == Some(kind),
    ensures
        check_member(check_initial(expected), CONTENT_TYPES.spec_bytes()) matches Ok(c1)
            && check_member(c1, main_part_spec(kind)) matches Ok(c2)
            && c2.main_parts == seq![kind]
            && check_close(c2) == Ok::<(), OfficeFault>(()),
{
    super::kind::lemma_main_part_identifies_kind(kind, main_part_spec(kind));
    let c1 = check_member(check_initial(expected), CONTENT_TYPES.spec_bytes())->Ok_0;
    assert(c1.main_parts == Seq::<OfficeKind>::empty());
    let c2 = check_member(c1, main_part_spec(kind))->Ok_0;
    assert(c2.main_parts =~= seq![kind]);
    assert(c2.main_parts.contains(kind)) by {
        assert(c2.main_parts[0] == kind);
    }
}

/// The package-level validation shared by the Office profiles.
pub struct PackageCheck {
    expected: Option<OfficeKind>,
    members_seen: u64,
    first_ok: bool,
    main_parts: Vec<OfficeKind>,
    signed: bool,
}

impl View for PackageCheck {
    type V = CheckModel;

    closed spec fn view(&self) -> CheckModel {
        CheckModel {
            expected: self.expected,
            members_seen: self.members_seen as nat,
            first_ok: self.first_ok,
            main_parts: self.main_parts@,
            signed: self.signed,
        }
    }
}

impl PackageCheck {
    /// The check's invariant: each main part recorded once.
    pub closed spec fn wf(&self) -> bool {
        self.main_parts@.no_duplicates()
    }

    /// A check that requires `expected`, if given.
    pub fn new(expected: Option<OfficeKind>) -> (check: Self)
        ensures
            check.wf(),
            check@ == check_initial(expected),
    {
        PackageCheck { expected, members_seen: 0, first_ok: false, main_parts: Vec::new(), signed: false }
    }

    fn has_main_part(&self, kind: OfficeKind) -> (found: bool)
        ensures
            found == self@.main_parts.contains(kind),
    {
        let mut i: usize = 0;
        while i < self.main_parts.len()
            invariant
                i <= self.main_parts@.len(),
                forall|j: int| 0 <= j < i ==> self.main_parts@[j] != kind,
            decreases self.main_parts@.len() - i,
        {
            if self.main_parts[i] == kind {
                assert(self.main_parts@[i as int] == kind);
                return true;
            }
            i = i + 1;
        }
        false
    }

    /// Record one member name.
    pub fn member(&mut self, name: &[u8]) -> (result: Result<(), OfficeFault>)
        requires
            old(self).wf(),
            old(self)@.members_seen < u64::MAX,
        ensures
            final(self).wf(),
            match check_member(old(self)@, name@) {
                Ok(c) => result is Ok && final(self)@ == c,
                Err(fault) => result == Err::<(), OfficeFault>(fault) && final(self)@ == old(self)@,
            },
    {
        if self.members_seen == 0 {
            if !super::kind::bytes_equal(name, CONTENT_TYPES.as_bytes()) {
                return Err(OfficeFault::NotOoxmlPackage);
            }
            self.first_ok = true;
        }
        self.members_seen = self.members_seen + 1;
        match OfficeKind::of_main_part(name) {
            Some(kind) => {
                if !self.has_main_part(kind) {
                    self.main_parts.push(kind);
                }
            },
            None => {},
        }
        if bytes_start_with(name, SIGNATURE_DIR.as_bytes()) {
            self.signed = true;
        }
        Ok(())
    }

    /// Whether a signature member was seen.
    pub fn is_signed(&self) -> (signed: bool)
        ensures
            signed == self@.signed,
    {
        self.signed
    }

    /// How many members were seen.
    pub fn members_seen(&self) -> (count: u64)
        ensures
            count == self@.members_seen,
    {
        self.members_seen
    }

    /// The kind the check requires, if any.
    pub fn expected(&self) -> (kind: Option<OfficeKind>)
        ensures
            kind == self@.expected,
    {
        self.expected
    }

    /// The package is complete: the kind claims must hold.
    pub fn close(&self) -> (result: Result<(), OfficeFault>)
        ensures
            result == check_close(self@),
    {
        if !self.first_ok {
            return Err(OfficeFault::NotOoxmlPackage);
        }
        match self.expected {
            Some(kind) => if self.has_main_part(kind) { Ok(()) } else { Err(OfficeFault::MissingMainPart) },
            None => if self.main_parts.len() == 0 { Err(OfficeFault::UnrecognizedPackage) } else { Ok(()) },
        }
    }
}

} // verus!
