//! `structured-text-v1`: the frozen chunking profile for Markdown,
//! JSON, XML/HTML text media types, and the RDF/XSD textual
//! datatypes.

pub mod utf8;
pub mod chunker;
