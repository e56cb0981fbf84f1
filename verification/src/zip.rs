//! `zip-v1`: the chunking profile for ZIP containers and the
//! OOXML/ODF families — a forward-only, bounded, fail-hard walker
//! that places cuts at member boundaries and never inflates.

pub mod fault;
pub mod records;
pub mod walker;
pub mod chunker;
