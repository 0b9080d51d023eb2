//! What is shown of a decoded item.

use crate::cbor::config::Config;
use crate::cbor::value::{CborValue, CborValueView};
use crate::display::{shown_len, whole_chars, window, Window};
use vstd::prelude::*;
use vstd::string::StringSliceAdditionalSpecFns;
use vstd::utf8::is_char_boundary;

verus! {

/// The longest byte string that gets a hex dump without being asked for.
pub const HEX_DUMP_LIMIT: usize = 64;

/// The longest text, in bytes, that is shown in full without being asked
/// for.
pub const TEXT_LIMIT: usize = 80;

/// The name of the type of a value; none for a simple value without a
/// meaning, a break marker and an item that was left undecoded.
pub open spec fn type_label(v: CborValueView) -> Seq<char> {
    match v {
        CborValueView::Unsigned(_) => "unsigned"@,
        CborValueView::Negative(_) => "negative"@,
        CborValueView::Bytes(_) => "bytes"@,
        CborValueView::Text(_) => "text"@,
        CborValueView::InvalidText(_) => "text"@,
        CborValueView::Array(_) => "array"@,
        CborValueView::Pairs(_) => "map"@,
        CborValueView::Tag(_, _) => "tag"@,
        CborValueView::Boolean(_) => "bool"@,
        CborValueView::Null => "null"@,
        CborValueView::Undefined => "undefined"@,
        CborValueView::Float16(_) => "float16"@,
        CborValueView::Float32(_) => "float32"@,
        CborValueView::Float64(_) => "float64"@,
        _ => ""@,
    }
}

/// Gives the name shown before a value: the name of its type, or nothing
/// where `show_types` is off.
pub fn type_prefix(value: &CborValue, config: &Config) -> (name: &'static str)
    ensures
        name@ == if config.show_types {
            type_label(value.view())
        } else {
            ""@
        },
{
    if !config.show_types {
        return "";
    }
    match value {
        CborValue::Unsigned(_) => "unsigned",
        CborValue::Negative(_) => "negative",
        CborValue::Bytes(_) => "bytes",
        CborValue::Text(_) => "text",
        CborValue::InvalidText(_) => "text",
        CborValue::Array(_) => "array",
        CborValue::Pairs(_) => "map",
        CborValue::Tag(_, _) => "tag",
        CborValue::Boolean(_) => "bool",
        CborValue::Null => "null",
        CborValue::Undefined => "undefined",
        CborValue::Float16(_) => "float16",
        CborValue::Float32(_) => "float32",
        CborValue::Float64(_) => "float64",
        _ => "",
    }
}

/// Tells whether a byte string of `len` bytes gets a hex dump: always with
/// `print_hex`, else where it has no more than `HEX_DUMP_LIMIT` bytes.
pub fn shows_hex_dump(len: usize, config: &Config) -> (r: bool)
    ensures
        r == (config.print_hex || len <= HEX_DUMP_LIMIT),
{
    config.print_hex || len <= HEX_DUMP_LIMIT
}

/// Splits a byte string of `len` bytes into what is shown and what is left
/// out: the first `max_bytes_display` are shown, or all with
/// `print_all_data`.
pub fn bytes_window(len: usize, config: &Config) -> (w: Window)
    ensures
        w.shown == shown_len(len as int, config.max_bytes_display as int, config.print_all_data),
        w.shown + w.hidden == len,
{
    window(len, config.max_bytes_display, config.print_all_data)
}

/// Gives the number of bytes shown of a text: all of it with
/// `print_all_data` or where it has no more than `TEXT_LIMIT` bytes, else
/// its longest prefix of whole characters that has no more than `TEXT_LIMIT`
/// bytes.
pub fn text_preview_len(text: &str, config: &Config) -> (n: usize)
    ensures
        n <= text.len(),
        config.print_all_data || text.len() <= TEXT_LIMIT ==> n == text.len(),
        !config.print_all_data && text.len() > TEXT_LIMIT ==> {
            &&& n <= TEXT_LIMIT
            &&& n > 0 ==> is_char_boundary(text.spec_bytes(), n as int)
            &&& forall|m: int| n < m <= TEXT_LIMIT ==> !is_char_boundary(text.spec_bytes(), m)
        },
{
    if config.print_all_data {
        text.len()
    } else {
        whole_chars(text, TEXT_LIMIT)
    }
}

/// The text shown in place of an item below the deepest level that is
/// decoded.
pub open spec fn nesting_marker_text() -> Seq<char> {
    "<max nesting level exceeded>"@
}

/// Gives the text shown in place of an item below the deepest level that
/// is decoded.
pub fn nesting_marker() -> (text: &'static str)
    ensures
        text@ == nesting_marker_text(),
{
    "<max nesting level exceeded>"
}

} // verus!
