//! [`ZipFault`] — why the walker rejected an archive.

use vstd::prelude::*;

use crate::error::ChunkError;

verus! {

/// The frozen profile name, for diagnostics.
pub const ZIP_PROFILE: &'static str = "zip-v1";

/// A structural rejection. Every variant carries the frozen
/// diagnostic text that reaches the typed error.
#[derive(Debug, Clone, Copy, PartialEq, Eq)]
pub enum ZipFault {
    /// Four bytes where a record must begin are no known signature.
    UnknownSignature,
    /// A local file header after the central directory began.
    MemberAfterCentralDirectory,
    /// A record out of its place in the end-of-archive sequence.
    RecordOutOfSequence,
    /// A size field says `0xFFFFFFFF` but no ZIP64 extra field
    /// supplies the real value.
    MissingZip64Sizes,
    /// An extra field runs past the extra area it sits in.
    MalformedExtraField,
    /// A stored member declares different compressed and
    /// uncompressed sizes.
    StoredSizesDisagree,
    /// A deflated member claims a ratio no deflate stream can reach.
    ImplausibleExpansion,
    /// A data-descriptor member's descriptor declares a compressed
    /// size other than the bytes it actually covered.
    DescriptorSizeMismatch,
    /// A central-directory entry addresses a local header at or
    /// after the central directory itself.
    CentralOffsetOutOfRange,
    /// The end-of-central-directory record's entry count does not
    /// match the members and entries that streamed past.
    EntryCountMismatch,
    /// The end-of-central-directory record's central-directory
    /// offset or size does not match what streamed past.
    CentralDirectoryGeometry,
    /// Bytes followed the archive comment.
    TrailingBytes,
    /// The stream ended inside a record, a member, or before the
    /// end-of-central-directory record.
    Truncated,
}

/// The frozen diagnostic text of each fault.
pub open spec fn zip_fault_detail(fault: ZipFault) -> &'static str {
    match fault {
        ZipFault::UnknownSignature => "unknown ZIP record signature",
        ZipFault::MemberAfterCentralDirectory => "local file header after the central directory",
        ZipFault::RecordOutOfSequence => "end-of-archive record out of sequence",
        ZipFault::MissingZip64Sizes => "size field is 0xFFFFFFFF without a ZIP64 extra field",
        ZipFault::MalformedExtraField => "extra field runs past its area",
        ZipFault::StoredSizesDisagree => "stored member declares unequal sizes",
        ZipFault::ImplausibleExpansion => "deflated member declares an impossible expansion ratio",
        ZipFault::DescriptorSizeMismatch => "data descriptor disagrees with the member bytes",
        ZipFault::CentralOffsetOutOfRange => "central directory entry offset is out of range",
        ZipFault::EntryCountMismatch => "end-of-central-directory entry count mismatch",
        ZipFault::CentralDirectoryGeometry => "central directory offset or size mismatch",
        ZipFault::TrailingBytes => "bytes after the archive comment",
        ZipFault::Truncated => "archive ends inside a record or before its end record",
    }
}

impl ZipFault {
    /// The frozen diagnostic text.
    pub fn detail(self) -> (text: &'static str)
        ensures
            text == zip_fault_detail(self),
    {
        match self {
            ZipFault::UnknownSignature => "unknown ZIP record signature",
            ZipFault::MemberAfterCentralDirectory => "local file header after the central directory",
            ZipFault::RecordOutOfSequence => "end-of-archive record out of sequence",
            ZipFault::MissingZip64Sizes => "size field is 0xFFFFFFFF without a ZIP64 extra field",
            ZipFault::MalformedExtraField => "extra field runs past its area",
            ZipFault::StoredSizesDisagree => "stored member declares unequal sizes",
            ZipFault::ImplausibleExpansion => "deflated member declares an impossible expansion ratio",
            ZipFault::DescriptorSizeMismatch => "data descriptor disagrees with the member bytes",
            ZipFault::CentralOffsetOutOfRange => "central directory entry offset is out of range",
            ZipFault::EntryCountMismatch => "end-of-central-directory entry count mismatch",
            ZipFault::CentralDirectoryGeometry => "central directory offset or size mismatch",
            ZipFault::TrailingBytes => "bytes after the archive comment",
            ZipFault::Truncated => "archive ends inside a record or before its end record",
        }
    }

    /// The typed error for a fault at `offset`.
    pub fn into_error(self, offset: u64) -> (error: ChunkError)
        ensures
            error == (ChunkError::MalformedProfileInput {
                profile: ZIP_PROFILE,
                offset,
                detail: zip_fault_detail(self),
            }),
    {
        ChunkError::MalformedProfileInput { profile: ZIP_PROFILE, offset, detail: self.detail() }
    }
}

/// The typed error for a stream the profile already rejected.
pub fn stream_rejected() -> (error: ChunkError)
    ensures
        error == (ChunkError::ProfileStreamRejected { profile: ZIP_PROFILE }),
{
    ChunkError::ProfileStreamRejected { profile: ZIP_PROFILE }
}

} // verus!
