//! The Office Open XML profiles: `ooxml-ber-v1`
//! (byte-exact-reversible) and the part vocabulary and package
//! validation the Office profiles share.

pub mod fault;
pub mod kind;
pub mod check;
pub mod ber;
pub mod observer;
pub mod canonical;
pub mod decoder;
