//! The tag-length-value decoder.

pub mod config;
pub mod decode;
pub mod display;
pub mod dumper;
pub mod header;
pub mod laws;
pub mod tags;
pub mod value;
