//! Deterministic canonical writers: reconstruct a container from
//! member streams. Output is deterministic for a given crate version
//! and logical content; byte-identity with an original upload is
//! exactly the byte-exact (BER) storage mode's job, not
//! reconstruction's.

pub mod tar;
pub mod zip;
pub mod round_trip;
pub mod gzip;
pub mod read_back;
