//! What is shown of a decoded unit.

use crate::asn1::config::Config;
use crate::asn1::header::{APPLICATION, CONTEXT, PRIVATE};
use crate::display::{shown_len, whole_chars, window, Window};
use crate::text::{all_printable, is_text};
use vstd::prelude::*;
use vstd::string::StringSliceAdditionalSpecFns;
use vstd::utf8::is_char_boundary;

verus! {

/// An octet string is shown as text: the options ask to try, it is not
/// empty, and every byte of it is ASCII and no control character.
pub open spec fn octets_are_text(bytes: Seq<u8>, cfg: Config) -> bool {
    cfg.check_charset && bytes.len() > 0 && all_printable(bytes)
}

/// Tells whether an octet string is shown as text rather than as a hex
/// dump. The bytes that were decoded stay as they are either way.
pub fn shows_as_text(bytes: &[u8], config: &Config) -> (r: bool)
    ensures
        r == octets_are_text(bytes@, *config),
{
    config.check_charset && bytes.len() > 0 && is_text(bytes)
}

/// Splits a payload of `len` bytes into what is shown and what is left
/// out: the first `max_bytes_display` are shown, or all with
/// `print_all_data`.
pub fn payload_window(len: usize, config: &Config) -> (w: Window)
    ensures
        w.shown == shown_len(len as int, config.max_bytes_display as int, config.print_all_data),
        w.shown + w.hidden == len,
{
    window(len, config.max_bytes_display, config.print_all_data)
}

/// Gives the number of bytes shown of the text of a UTF8String: all of it
/// with `print_all_data` or where it has no more than `max_bytes_display`
/// bytes, else its longest prefix of whole characters that has no more than
/// `max_bytes_display` bytes.
pub fn text_shown_len(text: &str, config: &Config) -> (n: usize)
    ensures
        n <= text.len(),
        config.print_all_data || text.len() <= config.max_bytes_display ==> n == text.len(),
        !config.print_all_data && text.len() > config.max_bytes_display ==> {
            &&& n <= config.max_bytes_display
            &&& n > 0 ==> is_char_boundary(text.spec_bytes(), n as int)
            &&& forall|m: int|
                n < m <= config.max_bytes_display ==> !is_char_boundary(text.spec_bytes(), m)
        },
{
    if config.print_all_data {
        text.len()
    } else {
        whole_chars(text, config.max_bytes_display)
    }
}

/// The name shown for a class other than the universal one; the
/// context-specific class has none.
pub open spec fn class_text(class: u8) -> Seq<char> {
    if class == APPLICATION {
        "APPLICATION"@
    } else if class == CONTEXT {
        ""@
    } else if class == PRIVATE {
        "PRIVATE"@
    } else {
        "UNIVERSAL"@
    }
}

/// Gives the name shown for a class.
pub fn class_name(class: u8) -> (name: &'static str)
    ensures
        name@ == class_text(class),
{
    if class == APPLICATION {
        "APPLICATION"
    } else if class == CONTEXT {
        ""
    } else if class == PRIVATE {
        "PRIVATE"
    } else {
        "UNIVERSAL"
    }
}

/// The number of columns that a unit at nesting level `level` is indented
/// by: one per level with `shallow_indent`, else two, and two more for the
/// dot and space that `print_dots` puts before a nested unit.
pub open spec fn indent_columns(level: int, cfg: Config) -> int {
    level * (if cfg.shallow_indent {
        1int
    } else {
        2int
    }) + (if cfg.print_dots && level > 0 {
        2int
    } else {
        0int
    })
}

/// Gives the number of columns that a unit at nesting level `level` is
/// indented by, or `None` where the number does not fit a `usize`.
pub fn indent_width(level: usize, config: &Config) -> (r: Option<usize>)
    ensures
        match r {
            Some(n) => n == indent_columns(level as int, *config),
            None => indent_columns(level as int, *config) > usize::MAX,
        },
{
    let step: usize = if config.shallow_indent {
        1
    } else {
        2
    };
    let extra: usize = if config.print_dots && level > 0 {
        2
    } else {
        0
    };
    match level.checked_mul(step) {
        None => None,
        Some(n) => n.checked_add(extra),
    }
}

/// The text shown in place of a unit below the deepest level that is
/// decoded.
pub open spec fn nesting_marker_text() -> Seq<char> {
    "<max nesting level exceeded>"@
}

/// Gives the text shown in place of a unit below the deepest level that is
/// decoded.
pub fn nesting_marker() -> (text: &'static str)
    ensures
        text@ == nesting_marker_text(),
{
    "<max nesting level exceeded>"
}

} // verus!
