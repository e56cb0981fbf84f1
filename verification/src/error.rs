//! Errors reported by chunk profiles.

use vstd::prelude::*;

verus! {

/// A chunk profile rejected the input stream.
#[derive(Debug, Clone, PartialEq, Eq)]
pub enum ChunkError {
    /// The asynchronous source could not provide the next input window.
    Io(String),
    /// The profile is registered but does not have an implementation.
    ProfileUnimplemented {
        /// The registered profile name.
        profile: &'static str,
    },
    /// The input is malformed for the selected structured profile.
    MalformedProfileInput {
        /// The profile name.
        profile: &'static str,
        /// The byte offset of the first rejected byte.
        offset: u64,
        /// The parser's rejection detail.
        detail: &'static str,
    },
    /// The profile rejected the stream and cannot accept more input.
    ProfileStreamRejected {
        /// The profile name.
        profile: &'static str,
    },
}

} // verus!
