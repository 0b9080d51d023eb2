//! Decoders for two self-describing binary encodings: BER/DER-style
//! tag-length-value data and CBOR.
//!
//! Each decoder reads one unit header at a time, resolves the length of its
//! payload, descends into containers and reports, for every unit, the exact
//! byte range it was read from. Input is always a complete byte slice; the
//! position is a plain offset into it.
//!
//! * [`asn1`] and [`cbor`] hold the two decoders: headers, values, the
//!   recursive decoder, the decoder state with its counts, what is shown of
//!   a decoded unit, and the laws that hold of every decoding.
//! * [`error`] names the ways in which decoding fails, [`diagnostics`] the
//!   way in which errors and warnings are counted.
//! * [`bytes`], [`text`] and [`display`] hold what both decoders share.

pub mod asn1;
pub mod bytes;
pub mod cbor;
pub mod diagnostics;
pub mod display;
pub mod error;
pub mod text;
