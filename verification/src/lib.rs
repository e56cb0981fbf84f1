//! Content-defined chunking profiles for structured containers and
//! documents: streaming boundary detectors for ZIP archives, Office
//! Open XML packages, PDF documents and UTF-8 structured text, with
//! fail-hard structural validation, plus the verified core of the
//! decomposition adapter: the TAR walker and reader, the member path
//! rule, and the deterministic canonical TAR and ZIP writers.

use vstd::prelude::*;

pub mod error;
pub mod constants;
pub mod gear;
pub mod assembler;
pub mod chunker;
pub mod zip;
pub mod office;
pub mod pdf;
pub mod text;
pub mod decompose;
pub mod inflate;

pub use chunker::Chunker;
pub use error::ChunkError;
pub use zip::chunker::ZipChunker;
pub use office::ber::OoxmlBerChunker;
pub use office::kind::OfficeKind;
pub use office::observer::PackageObserver;
pub use pdf::chunker::PdfChunker;
pub use text::chunker::StructuredTextChunker;
pub use decompose::fault::{DecomposeError, OpaqueReason};
pub use decompose::sink::{ContainerFacts, ContainerKind, DecompositionSink, EntryKind, MemberFacts, MemberMeta};
pub use decompose::writer::tar::CanonicalTarWriter;
pub use decompose::writer::zip::CanonicalZipWriter;

verus! {

} // verus!
