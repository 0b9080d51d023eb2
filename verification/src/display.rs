//! What is shown of a payload: how many of its bytes, and which of them as
//! they are.

use crate::text::{is_printable, printable};
use vstd::prelude::*;
use vstd::string::StringSliceAdditionalSpecFns;
use vstd::utf8::is_char_boundary;

verus! {

/// The part of a payload that is shown and the part that is not.
#[derive(Debug, Clone, Copy, PartialEq, Eq, Structural)]
pub struct Window {
    /// Number of bytes shown, from the start of the payload.
    pub shown: usize,
    /// Number of bytes left out after them.
    pub hidden: usize,
}

/// The number of bytes shown of a payload of `len` bytes: all of them where
/// all are asked for or they are no more than `cap`, else the first `cap`.
pub open spec fn shown_len(len: int, cap: int, show_all: bool) -> int {
    if show_all || len <= cap {
        len
    } else {
        cap
    }
}

/// Splits a payload of `len` bytes into what is shown and what is left
/// out.
pub fn window(len: usize, cap: usize, show_all: bool) -> (w: Window)
    ensures
        w.shown == shown_len(len as int, cap as int, show_all),
        w.shown + w.hidden == len,
{
    if show_all || len <= cap {
        Window { shown: len, hidden: 0 }
    } else {
        Window { shown: cap, hidden: len - cap }
    }
}

/// Gives the length in bytes of the longest prefix of `text` that holds
/// whole characters only and has no more than `cap` bytes.
pub fn whole_chars(text: &str, cap: usize) -> (n: usize)
    ensures
        n <= cap,
        n <= text.len(),
        text.len() <= cap ==> n == text.len(),
        n > 0 && n < text.len() ==> is_char_boundary(text.spec_bytes(), n as int),
        forall|m: int| n < m <= cap && m < text.len() ==> !is_char_boundary(text.spec_bytes(), m),
{
    let len: usize = text.len();
    if len <= cap {
        return len;
    }
    let mut n: usize = cap;
    while n > 0 && !text.is_char_boundary(n)
        invariant
            n <= cap < len == text.len(),
            forall|m: int| n < m <= cap ==> !is_char_boundary(text.spec_bytes(), m),
        decreases n,
    {
        n = n - 1;
    }
    n
}

/// The byte that a full stop has in ASCII.
pub const DOT: u8 = 0x2E;

/// A payload as text: each printable byte as it is, a full stop in place of
/// every other.
pub open spec fn dotted(bytes: Seq<u8>) -> Seq<u8> {
    Seq::new(
        bytes.len(),
        |i: int|
            if printable(bytes[i]) {
                bytes[i]
            } else {
                DOT
            },
    )
}

/// Gives a payload as text, with a full stop in place of each byte that is
/// not printable.
pub fn dotted_text(bytes: &[u8]) -> (out: Vec<u8>)
    ensures
        out@ == dotted(bytes@),
{
    let mut out: Vec<u8> = Vec::new();
    let mut i: usize = 0;
    while i < bytes.len()
        invariant
            i <= bytes@.len(),
            out@ == dotted(bytes@.take(i as int)),
        decreases bytes@.len() - i,
    {
        let b: u8 = bytes[i];
        let ghost before = out@;
        if is_printable(b) {
            out.push(b);
        } else {
            out.push(DOT);
        }
        assert(out@ =~= dotted(bytes@.take(i + 1)));
        i = i + 1;
    }
    assert(bytes@.take(i as int) =~= bytes@);
    out
}

/// The two hexadecimal digits of a byte, in upper case, as ASCII.
pub open spec fn hex_digits(b: u8) -> (u8, u8) {
    (hex_digit((b / 16) as u8), hex_digit((b % 16) as u8))
}

/// The ASCII character of one hexadecimal digit, in upper case.
pub open spec fn hex_digit(n: u8) -> u8 {
    if n < 10 {
        (0x30 + n) as u8
    } else {
        (0x41 + n - 10) as u8
    }
}

/// Gives the two hexadecimal digits of a byte, in upper case.
pub fn hex_pair(b: u8) -> (pair: (u8, u8))
    ensures
        pair == hex_digits(b),
{
    let high: u8 = b / 16;
    let low: u8 = b % 16;
    let first: u8 = if high < 10 {
        0x30 + high
    } else {
        0x41 + high - 10
    };
    let second: u8 = if low < 10 {
        0x30 + low
    } else {
        0x41 + low - 10
    };
    (first, second)
}

} // verus!
