//! Stable constants shared by the built-in chunking profiles.

use vstd::prelude::*;

verus! {

/// Minimum chunk length of the shared envelope — no content-defined
/// cut is judged below this.
pub const GENERIC_CDC_CHUNK_MIN_BYTES: usize = 16384;

/// Target (expected) chunk length of the shared envelope.
pub const GENERIC_CDC_CHUNK_TARGET_BYTES: usize = 65536;

/// Maximum chunk length — forced cut, and the upper bound every
/// byte-exact profile emits.
pub const GENERIC_CDC_CHUNK_MAX_BYTES: usize = 262144;

/// Smallest chunk a document profile (`pdf-v1`, `ooxml-ber-v1`)
/// closes at a structural unit boundary.
pub const DOCUMENT_UNIT_CHUNK_MIN_BYTES: usize = 4096;

/// Cut mask for content-defined cuts inside a unit before the target
/// length: the gear hash's top sixteen bits.
pub const UNIT_STRICT_MASK: u64 = 0xFFFF_0000_0000_0000;

/// Cut mask for content-defined cuts inside a unit once the target
/// length is reached: the gear hash's top fourteen bits.
pub const UNIT_RELAXED_MASK: u64 = 0xFFFC_0000_0000_0000;

/// `structured-text-v1` cut mask judged at line-end candidates
/// before the target length: the hash's top ten bits.
pub const STRUCTURED_TEXT_STRICT_MASK: u64 = 0xFFC0_0000_0000_0000;

/// `structured-text-v1` cut mask judged at any candidate once the
/// target length is reached: the hash's top eleven bits.
pub const STRUCTURED_TEXT_RELAXED_MASK: u64 = 0xFFE0_0000_0000_0000;

} // verus!
