//! [`PdfFault`] — why the walker rejected a PDF.

use vstd::prelude::*;

use crate::error::ChunkError;

verus! {

/// The frozen profile name, for diagnostics.
pub const PDF_PROFILE: &'static str = "pdf-v1";

/// A structural rejection.
#[derive(Debug, Clone, Copy, PartialEq, Eq)]
pub enum PdfFault {
    /// The stream does not begin with `%PDF-`.
    NotPdf,
    /// Digits where an indirect object must begin do not form
    /// `number generation obj`.
    BadObjectHeader,
    /// A body keyword is none of `obj`-header, comment, `xref`,
    /// `trailer`, or `startxref`.
    BadKeyword,
    /// The `stream` keyword is not followed by a line end.
    BadStreamEol,
    /// An `xref` subsection line is not two integers, `trailer`, or
    /// a record keyword.
    XrefGeometry,
    /// The stream ended inside an object, a stream, an xref table,
    /// or a trailer.
    Truncated,
    /// The stream ended without a final `%%EOF` marker.
    MissingEof,
}

/// The frozen diagnostic text of a fault.
pub open spec fn pdf_fault_detail(fault: PdfFault) -> &'static str {
    match fault {
        PdfFault::NotPdf => "stream does not begin with %PDF-",
        PdfFault::BadObjectHeader => "indirect object header is not 'number generation obj'",
        PdfFault::BadKeyword => "unknown body keyword",
        PdfFault::BadStreamEol => "stream keyword is not followed by a line end",
        PdfFault::XrefGeometry => "malformed xref subsection",
        PdfFault::Truncated => "document ends inside an object, stream, xref table, or trailer",
        PdfFault::MissingEof => "document ends without %%EOF",
    }
}

/// The typed error of a fault at `offset`.
pub open spec fn pdf_error(fault: PdfFault, offset: u64) -> ChunkError {
    ChunkError::MalformedProfileInput { profile: PDF_PROFILE, offset, detail: pdf_fault_detail(fault) }
}

impl PdfFault {
    /// The frozen diagnostic text.
    pub fn detail(self) -> (text: &'static str)
        ensures
            text == pdf_fault_detail(self),
    {
        match self {
            PdfFault::NotPdf => "stream does not begin with %PDF-",
            PdfFault::BadObjectHeader => "indirect object header is not 'number generation obj'",
            PdfFault::BadKeyword => "unknown body keyword",
            PdfFault::BadStreamEol => "stream keyword is not followed by a line end",
            PdfFault::XrefGeometry => "malformed xref subsection",
            PdfFault::Truncated => "document ends inside an object, stream, xref table, or trailer",
            PdfFault::MissingEof => "document ends without %%EOF",
        }
    }

    /// The typed error for a fault at `offset`.
    pub fn into_error(self, offset: u64) -> (error: ChunkError)
        ensures
            error == pdf_error(self, offset),
    {
        ChunkError::MalformedProfileInput { profile: PDF_PROFILE, offset, detail: self.detail() }
    }
}

/// The stream was already rejected.
pub fn stream_rejected() -> (error: ChunkError)
    ensures
        error == (ChunkError::ProfileStreamRejected { profile: PDF_PROFILE }),
{
    ChunkError::ProfileStreamRejected { profile: PDF_PROFILE }
}

} // verus!
