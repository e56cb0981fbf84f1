//! The decomposition adapter's verified core: the typed opaque
//! outcomes, the member event vocabulary, the member naming and
//! container prefix rules, the forward-only TAR walker and its
//! reader, the member path rule, and the deterministic canonical TAR
//! and ZIP writers.

pub mod fault;
pub mod sink;
pub mod tar;
pub mod media;
pub mod reader;
pub mod writer;
pub mod gzip;
