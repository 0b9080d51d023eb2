//! The tag numbers that have a name.

use vstd::prelude::*;

verus! {

pub const TAG_DATETIME: u64 = 0;

pub const TAG_EPOCH: u64 = 1;

pub const TAG_BIGNUM_POS: u64 = 2;

pub const TAG_BIGNUM_NEG: u64 = 3;

pub const TAG_DECIMAL: u64 = 4;

pub const TAG_BIGFLOAT: u64 = 5;

pub const TAG_BASE64URL: u64 = 21;

pub const TAG_BASE64: u64 = 22;

pub const TAG_BASE16: u64 = 23;

pub const TAG_CBOR: u64 = 24;

pub const TAG_URI: u64 = 32;

pub const TAG_BASE64URL_ENC: u64 = 33;

pub const TAG_BASE64_ENC: u64 = 34;

pub const TAG_REGEX: u64 = 35;

pub const TAG_MIME: u64 = 36;

pub const TAG_SELF_DESCRIBE: u64 = 55799;

/// The name of a tag number, for those that have one.
pub open spec fn known_tag_name(tag: u64) -> Option<Seq<char>> {
    if tag == TAG_DATETIME {
        Some("date/time string"@)
    } else if tag == TAG_EPOCH {
        Some("epoch-based date/time"@)
    } else if tag == TAG_BIGNUM_POS {
        Some("positive bignum"@)
    } else if tag == TAG_BIGNUM_NEG {
        Some("negative bignum"@)
    } else if tag == TAG_DECIMAL {
        Some("decimal fraction"@)
    } else if tag == TAG_BIGFLOAT {
        Some("bigfloat"@)
    } else if tag == TAG_BASE64URL {
        Some("base64url encoding"@)
    } else if tag == TAG_BASE64 {
        Some("base64 encoding"@)
    } else if tag == TAG_BASE16 {
        Some("base16 encoding"@)
    } else if tag == TAG_CBOR {
        Some("encoded CBOR data item"@)
    } else if tag == TAG_URI {
        Some("URI"@)
    } else if tag == TAG_BASE64URL_ENC {
        Some("base64url"@)
    } else if tag == TAG_BASE64_ENC {
        Some("base64"@)
    } else if tag == TAG_REGEX {
        Some("regular expression"@)
    } else if tag == TAG_MIME {
        Some("MIME message"@)
    } else if tag == TAG_SELF_DESCRIBE {
        Some("self-describe CBOR"@)
    } else {
        None
    }
}

/// The text of an optional name.
pub open spec fn name_text(name: Option<&'static str>) -> Option<Seq<char>> {
    match name {
        Some(text) => Some(text@),
        None => None,
    }
}

} // verus!
