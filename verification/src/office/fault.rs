//! [`OfficeFault`] — why an Office profile rejected a package.

use vstd::prelude::*;

use crate::error::ChunkError;
use crate::zip::fault::{zip_fault_detail, ZipFault};

verus! {

/// The canonicalizing Office profile's name, for diagnostics.
pub const OOXML_PROFILE: &'static str = "ooxml-v1";

/// The byte-exact Office profile's name, for diagnostics.
pub const OOXML_BER_PROFILE: &'static str = "ooxml-ber-v1";

/// A structural rejection by an Office profile.
#[derive(Debug, Clone, Copy, PartialEq, Eq)]
pub enum OfficeFault {
    /// The underlying ZIP container was rejected.
    Zip(ZipFault),
    /// The first member is not `[Content_Types].xml`.
    NotOoxmlPackage,
    /// The declared kind's main part never appeared.
    MissingMainPart,
    /// No recognized main part appeared at all.
    UnrecognizedPackage,
    /// The package carries digital signatures; canonicalization
    /// would invalidate them.
    SignedPackage,
    /// A member uses a compression method canonicalization cannot
    /// inflate (only stored and deflate are supported).
    UnsupportedMethod,
    /// A member's deflate stream is malformed.
    MalformedDeflate,
    /// A member's inflated bytes disagree with its declared
    /// uncompressed size.
    InflatedSizeMismatch,
    /// A member's inflated bytes disagree with its declared CRC-32.
    CrcMismatch,
    /// A member's deflate stream ended before its compressed bytes
    /// did, or needed more bytes than it had.
    DeflateGeometry,
    /// The package holds more members, or more member-name bytes,
    /// than the frozen canonicalization bound.
    MetadataOverBound,
    /// An unknown-size member grew past what a canonical data
    /// descriptor can express.
    UnknownSizeMemberTooLarge,
}

/// The frozen diagnostic text of a fault.
pub open spec fn office_fault_detail(fault: OfficeFault) -> &'static str {
    match fault {
        OfficeFault::Zip(zip) => zip_fault_detail(zip),
        OfficeFault::NotOoxmlPackage => "first member is not [Content_Types].xml",
        OfficeFault::MissingMainPart => "declared Office kind's main part is missing",
        OfficeFault::UnrecognizedPackage => "no Word, Excel, or PowerPoint main part",
        OfficeFault::SignedPackage => "package is digitally signed; canonicalization would invalidate the signature \u{2014} store it byte-exact under ooxml-ber-v1",
        OfficeFault::UnsupportedMethod => "member compression method is not stored or deflate",
        OfficeFault::MalformedDeflate => "member deflate stream is malformed",
        OfficeFault::InflatedSizeMismatch => "member inflates to a size other than declared",
        OfficeFault::CrcMismatch => "member inflates to bytes with a different CRC-32 than declared",
        OfficeFault::DeflateGeometry => "member deflate stream ends out of step with its bytes",
        OfficeFault::MetadataOverBound => "package exceeds the canonicalization metadata bound",
        OfficeFault::UnknownSizeMemberTooLarge => "unknown-size member exceeds what a canonical descriptor can express",
    }
}

/// The typed error of a fault at `offset`, attributed to `profile`.
pub open spec fn office_error(fault: OfficeFault, profile: &'static str, offset: u64) -> ChunkError {
    ChunkError::MalformedProfileInput { profile, offset, detail: office_fault_detail(fault) }
}

impl OfficeFault {
    /// The frozen diagnostic text.
    pub fn detail(self) -> (text: &'static str)
        ensures
            text == office_fault_detail(self),
    {
        match self {
            OfficeFault::Zip(zip) => zip.detail(),
            OfficeFault::NotOoxmlPackage => "first member is not [Content_Types].xml",
            OfficeFault::MissingMainPart => "declared Office kind's main part is missing",
            OfficeFault::UnrecognizedPackage => "no Word, Excel, or PowerPoint main part",
            OfficeFault::SignedPackage => "package is digitally signed; canonicalization would invalidate the signature \u{2014} store it byte-exact under ooxml-ber-v1",
            OfficeFault::UnsupportedMethod => "member compression method is not stored or deflate",
            OfficeFault::MalformedDeflate => "member deflate stream is malformed",
            OfficeFault::InflatedSizeMismatch => "member inflates to a size other than declared",
            OfficeFault::CrcMismatch => "member inflates to bytes with a different CRC-32 than declared",
            OfficeFault::DeflateGeometry => "member deflate stream ends out of step with its bytes",
            OfficeFault::MetadataOverBound => "package exceeds the canonicalization metadata bound",
            OfficeFault::UnknownSizeMemberTooLarge => "unknown-size member exceeds what a canonical descriptor can express",
        }
    }

    /// The typed error for a fault at input `offset`, attributed to
    /// `profile`.
    pub fn into_error(self, profile: &'static str, offset: u64) -> (error: ChunkError)
        ensures
            error == office_error(self, profile, offset),
    {
        ChunkError::MalformedProfileInput { profile, offset, detail: self.detail() }
    }
}

/// The stream was already rejected.
pub fn stream_rejected(profile: &'static str) -> (error: ChunkError)
    ensures
        error == (ChunkError::ProfileStreamRejected { profile }),
{
    ChunkError::ProfileStreamRejected { profile }
}

} // verus!
