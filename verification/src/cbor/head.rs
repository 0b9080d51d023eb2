//! Item heads of CBOR: the initial byte and the argument that may follow it.

use crate::bytes::{be_value, high3, low5, read_be};
use crate::error::DecodeError;
use vstd::prelude::*;

verus! {

pub const MAJOR_UNSIGNED: u8 = 0;

pub const MAJOR_NEGATIVE: u8 = 1;

pub const MAJOR_BYTES: u8 = 2;

pub const MAJOR_TEXT: u8 = 3;

pub const MAJOR_ARRAY: u8 = 4;

pub const MAJOR_MAP: u8 = 5;

pub const MAJOR_TAG: u8 = 6;

pub const MAJOR_SIMPLE: u8 = 7;

/// Additional information: the argument is the next byte.
pub const AI_1BYTE: u8 = 24;

/// Additional information: the argument is the next two bytes.
pub const AI_2BYTES: u8 = 25;

/// Additional information: the argument is the next four bytes.
pub const AI_4BYTES: u8 = 26;

/// Additional information: the argument is the next eight bytes.
pub const AI_8BYTES: u8 = 27;

/// Additional information: indefinite length, or the break marker under
/// major type 7.
pub const AI_INDEFINITE: u8 = 31;

pub const SIMPLE_FALSE: u8 = 20;

pub const SIMPLE_TRUE: u8 = 21;

pub const SIMPLE_NULL: u8 = 22;

pub const SIMPLE_UNDEFINED: u8 = 23;

/// What `read_additional` gives for the indefinite marker.
pub const INDEFINITE_LENGTH: u64 = 0xFFFF_FFFF_FFFF_FFFF;

/// The head of one item.
#[derive(Debug, Clone, Copy, PartialEq, Eq, Structural)]
pub struct CborHead {
    /// Major type, 0..=7 in a head that was read from input.
    pub major_type: u8,
    /// Additional information, 0..=31 in a head that was read from input.
    pub additional_info: u8,
    /// The argument: a value, a length or a count, as the major type has
    /// it; 0 with the indefinite marker.
    pub argument: u64,
    /// Number of bytes of the head.
    pub size: usize,
}

impl CborHead {
    /// The head carries the indefinite marker.
    pub open spec fn indefinite(self) -> bool {
        self.additional_info == AI_INDEFINITE
    }

    /// The head is the break marker.
    pub open spec fn is_break(self) -> bool {
        self.major_type == MAJOR_SIMPLE && self.additional_info == AI_INDEFINITE
    }

    /// The major type has an indefinite-length form, or the head is the break
    /// marker.
    pub open spec fn may_be_indefinite(self) -> bool {
        self.major_type == MAJOR_BYTES || self.major_type == MAJOR_TEXT || self.major_type
            == MAJOR_ARRAY || self.major_type == MAJOR_MAP || self.major_type == MAJOR_SIMPLE
    }

    /// Tells whether the head carries the indefinite marker.
    pub fn is_indefinite(&self) -> (r: bool)
        ensures
            r == self.indefinite(),
    {
        self.additional_info == AI_INDEFINITE
    }

    /// Tells whether the head is the break marker.
    pub fn is_break_marker(&self) -> (r: bool)
        ensures
            r == self.is_break(),
    {
        self.major_type == MAJOR_SIMPLE && self.additional_info == AI_INDEFINITE
    }
}

/// The number of bytes that follow the initial byte to spell the argument.
pub open spec fn argument_width(ai: u8) -> int {
    if ai == AI_1BYTE {
        1
    } else if ai == AI_2BYTES {
        2
    } else if ai == AI_4BYTES {
        4
    } else if ai == AI_8BYTES {
        8
    } else {
        0
    }
}

/// The argument that additional information `ai` stands for, where its
/// bytes, if it has any, start at `pos`.
///
/// Values under 24 are the argument. 24, 25, 26 and 27 take it from the next
/// 1, 2, 4 and 8 bytes, most significant first. 31 gives `INDEFINITE_LENGTH`.
/// Every other value is invalid.
pub open spec fn parse_additional(s: Seq<u8>, pos: int, ai: u8) -> Result<u64, DecodeError> {
    if ai < 24 {
        Ok(ai as u64)
    } else if ai <= AI_8BYTES {
        if pos < 0 || pos + argument_width(ai) > s.len() {
            Err(DecodeError::Truncated)
        } else {
            Ok(be_value(s.subrange(pos, pos + argument_width(ai))) as u64)
        }
    } else if ai == AI_INDEFINITE {
        Ok(INDEFINITE_LENGTH)
    } else {
        Err(DecodeError::InvalidAdditionalInfo)
    }
}

/// The head that starts at `pos`; `Ok(None)` where no byte is left.
///
/// The high three bits of the initial byte are the major type, the low five
/// the additional information. The indefinite marker is accepted on byte
/// strings, text strings, arrays and maps, and under major type 7, where it
/// is the break marker; elsewhere it is invalid.
pub open spec fn parse_head(s: Seq<u8>, pos: int) -> Result<Option<CborHead>, DecodeError> {
    if pos < 0 || pos >= s.len() {
        Ok(None)
    } else {
        let major = s[pos] / 32;
        let ai = s[pos] % 32;
        if ai == AI_INDEFINITE {
            if major == MAJOR_UNSIGNED || major == MAJOR_NEGATIVE || major == MAJOR_TAG {
                Err(DecodeError::InvalidAdditionalInfo)
            } else {
                Ok(Some(CborHead { major_type: major, additional_info: ai, argument: 0, size: 1 }))
            }
        } else {
            match parse_additional(s, pos + 1, ai) {
                Err(e) => Err(e),
                Ok(argument) => Ok(
                    Some(
                        CborHead {
                            major_type: major,
                            additional_info: ai,
                            argument,
                            size: (1 + argument_width(ai)) as usize,
                        },
                    ),
                ),
            }
        }
    }
}

/// Reads the argument that additional information `ai` stands for, and
/// tells how many bytes it took.
pub fn read_argument(input: &[u8], pos: usize, ai: u8) -> (r: Result<(u64, usize), DecodeError>)
    ensures
        match r {
            Ok((value, width)) => parse_additional(input@, pos as int, ai) == Ok::<
                u64,
                DecodeError,
            >(value) && width == argument_width(ai) && (width > 0 ==> pos + width
                <= input@.len()),
            Err(e) => parse_additional(input@, pos as int, ai) == Err::<u64, DecodeError>(e),
        },
{
    if ai < 24 {
        return Ok((ai as u64, 0));
    }
    let width: usize = if ai == AI_1BYTE {
        1
    } else if ai == AI_2BYTES {
        2
    } else if ai == AI_4BYTES {
        4
    } else if ai == AI_8BYTES {
        8
    } else if ai == AI_INDEFINITE {
        return Ok((INDEFINITE_LENGTH, 0));
    } else {
        return Err(DecodeError::InvalidAdditionalInfo);
    };
    if pos > input.len() || width > input.len() - pos {
        return Err(DecodeError::Truncated);
    }
    let value: u64 = read_be(input, pos, width);
    Ok((value, width))
}

/// Reads the head that starts at `pos`.
pub fn read_head(input: &[u8], pos: usize) -> (r: Result<Option<CborHead>, DecodeError>)
    ensures
        r == parse_head(input@, pos as int),
        r matches Ok(Some(h)) ==> 1 <= h.size <= 9 && pos + h.size <= input@.len()
            && h.major_type <= 7 && h.additional_info <= 31,
        r matches Ok(None) ==> pos >= input@.len(),
{
    if pos >= input.len() {
        return Ok(None);
    }
    let first: u8 = input[pos];
    let major: u8 = high3(first);
    let ai: u8 = low5(first);
    if ai == AI_INDEFINITE {
        if major == MAJOR_UNSIGNED || major == MAJOR_NEGATIVE || major == MAJOR_TAG {
            return Err(DecodeError::InvalidAdditionalInfo);
        }
        return Ok(Some(CborHead { major_type: major, additional_info: ai, argument: 0, size: 1 }));
    }
    match read_argument(input, pos + 1, ai) {
        Err(e) => Err(e),
        Ok((argument, width)) => Ok(
            Some(CborHead { major_type: major, additional_info: ai, argument, size: 1 + width }),
        ),
    }
}

} // verus!
