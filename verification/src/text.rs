//! Text in payloads: UTF-8 validation and the test for printable bytes.

use vstd::prelude::*;
use vstd::utf8::{decode_utf8, valid_utf8};

verus! {

/// Converts bytes to a string where they are well-formed UTF-8.
///
/// Calls `String::from_utf8` of the standard library. Believed of it, not
/// proved: it succeeds exactly on well-formed UTF-8, and the string it gives
/// holds the characters that the bytes encode.
#[verifier::external_body]
pub(crate) fn string_from_utf8(bytes: &[u8]) -> (r: Option<String>)
    ensures
        r is Some <==> valid_utf8(bytes@),
        r matches Some(s) ==> s@ == decode_utf8(bytes@),
{
    String::from_utf8(bytes.to_vec()).ok()
}

/// A byte that stands for a visible ASCII character or a space.
pub open spec fn printable(b: u8) -> bool {
    0x20 <= b <= 0x7E
}

/// Every byte is printable.
pub open spec fn all_printable(bytes: Seq<u8>) -> bool {
    forall|i: int| 0 <= i < bytes.len() ==> printable(#[trigger] bytes[i])
}

/// Tells whether a byte is ASCII and no control character.
pub fn is_printable(b: u8) -> (r: bool)
    ensures
        r == printable(b),
{
    0x20 <= b && b <= 0x7E
}

/// Tells whether a payload can be shown as text: every byte is ASCII and
/// none is a control character.
pub fn is_text(bytes: &[u8]) -> (r: bool)
    ensures
        r == all_printable(bytes@),
{
    let mut i: usize = 0;
    while i < bytes.len()
        invariant
            i <= bytes@.len(),
            forall|j: int| 0 <= j < i ==> printable(#[trigger] bytes@[j]),
        decreases bytes@.len() - i,
    {
        if !is_printable(bytes[i]) {
            return false;
        }
        i = i + 1;
    }
    true
}

} // verus!
