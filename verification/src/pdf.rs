//! The `pdf-v1` profile: object-aligned boundaries over the original
//! PDF bytes.

pub mod fault;
pub mod object;
pub mod walker;
pub mod chunker;
