//! The CBOR decoder.

pub mod config;
pub mod decode;
pub mod display;
pub mod dumper;
pub mod float;
pub mod head;
pub mod laws;
pub mod tags;
pub mod value;
