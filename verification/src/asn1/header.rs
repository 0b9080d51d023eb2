//! Unit headers of the tag-length-value encoding: identifier octets followed
//! by length octets.

use crate::bytes::{be_value, clear_low5, copy_range, high_bit, low5, low7, read_be};
use crate::error::DecodeError;
use vstd::prelude::*;

verus! {

/// Mask of the two class bits of an identifier octet.
pub const CLASS_MASK: u8 = 0xC0;

/// Class bits of the universal class.
pub const UNIVERSAL: u8 = 0x00;

/// Class bits of the application class.
pub const APPLICATION: u8 = 0x40;

/// Class bits of the context-specific class.
pub const CONTEXT: u8 = 0x80;

/// Class bits of the private class.
pub const PRIVATE: u8 = 0xC0;

/// Mask of the bit that tells constructed from primitive.
pub const FORM_MASK: u8 = 0x20;

/// The form bit of a constructed unit.
pub const CONSTRUCTED: u8 = 0x20;

/// Mask of the tag number inside an identifier octet; all ones announce a
/// multi-byte tag number.
pub const TAG_MASK: u8 = 0x1F;

/// The high bit of a length octet: long form or indefinite.
pub const LEN_XTND: u8 = 0x80;

/// Mask of the count of length bytes in a long-form length octet.
pub const LEN_MASK: u8 = 0x7F;

/// The most continuation bytes that a tag number may take.
pub const MAX_TAG_BYTES: usize = 4;

/// The most length bytes that a long-form length may take.
pub const MAX_LENGTH_BYTES: usize = 4;

/// The header of one unit.
#[derive(Debug, Clone, PartialEq, Eq)]
pub struct Asn1Item {
    /// Class and form bits of the identifier octet.
    pub id: u8,
    /// Tag number.
    pub tag: u32,
    /// Declared payload length in bytes; 0 when `indefinite`.
    pub length: u32,
    /// The payload runs up to an end-of-contents marker.
    pub indefinite: bool,
    /// A long-form length was used for a value under 128.
    pub non_canonical: bool,
    /// The bytes of the header as they were read.
    pub header: Vec<u8>,
    /// Number of bytes in `header`.
    pub header_size: usize,
}

/// What a header says, with the header bytes as a sequence.
pub struct Asn1ItemView {
    pub id: u8,
    pub tag: u32,
    pub length: u32,
    pub indefinite: bool,
    pub non_canonical: bool,
    pub header: Seq<u8>,
}

impl View for Asn1Item {
    type V = Asn1ItemView;

    open spec fn view(&self) -> Asn1ItemView {
        Asn1ItemView {
            id: self.id,
            tag: self.tag,
            length: self.length,
            indefinite: self.indefinite,
            non_canonical: self.non_canonical,
            header: self.header@,
        }
    }
}

impl Asn1ItemView {
    /// Class bits of the unit.
    pub open spec fn class(self) -> u8 {
        (self.id - self.id % 64) as u8
    }

    /// The unit holds nested units rather than raw data.
    pub open spec fn constructed(self) -> bool {
        self.id % 64 >= 32
    }

    /// The unit is the end-of-contents marker: universal, primitive, tag 0,
    /// with a definite length of zero.
    pub open spec fn is_end_of_contents(self) -> bool {
        self.id == 0 && self.tag == 0 && !self.indefinite && self.length == 0
    }
}

impl Asn1Item {
    /// The recorded size is the size of the recorded header bytes.
    pub open spec fn wf(&self) -> bool {
        self.header_size == self.header@.len()
    }

    /// An empty header: universal, primitive, tag 0, length 0.
    pub fn new() -> (item: Asn1Item)
        ensures
            item.wf(),
            item@ == (Asn1ItemView {
                id: 0,
                tag: 0,
                length: 0,
                indefinite: false,
                non_canonical: false,
                header: Seq::<u8>::empty(),
            }),
    {
        Asn1Item {
            id: 0,
            tag: 0,
            length: 0,
            indefinite: false,
            non_canonical: false,
            header: Vec::new(),
            header_size: 0,
        }
    }

    /// Class bits of the unit: one of `UNIVERSAL`, `APPLICATION`, `CONTEXT`
    /// and `PRIVATE`.
    pub fn class(&self) -> (c: u8)
        ensures
            c == self@.class(),
    {
        let id: u8 = self.id;
        assert(id & 0xC0 == id - id % 64) by (bit_vector);
        self.id & CLASS_MASK
    }

    /// Whether the unit holds nested units.
    pub fn is_constructed(&self) -> (c: bool)
        ensures
            c == self@.constructed(),
    {
        let id: u8 = self.id;
        assert((id & 0x20 == 0x20) == (id % 64 >= 32)) by (bit_vector);
        (self.id & FORM_MASK) == CONSTRUCTED
    }

    /// Whether the unit is the end-of-contents marker.
    pub fn is_end_of_contents(&self) -> (e: bool)
        ensures
            e == self@.is_end_of_contents(),
    {
        self.id == 0 && self.tag == 0 && !self.indefinite && self.length == 0
    }
}

/// A tag number and the position that follows it.
pub struct TagField {
    pub tag: u32,
    pub next: int,
}

/// The multi-byte tag number that starts at `pos`, given the `count`
/// continuation bytes read so far and the number `acc` that they spell.
/// Each byte gives seven bits; a set high bit says that another follows.
pub open spec fn parse_long_tag(s: Seq<u8>, pos: int, limit: int, acc: nat, count: nat) -> Result<
    TagField,
    DecodeError,
>
    decreases 4 - count,
{
    if count >= 4 {
        Err(DecodeError::TagTooLong)
    } else if pos >= limit {
        Err(DecodeError::Truncated)
    } else {
        let b = s[pos];
        let acc2 = acc * 128 + (b % 128) as nat;
        if b < 128 {
            Ok(TagField { tag: acc2 as u32, next: pos + 1 })
        } else {
            parse_long_tag(s, pos + 1, limit, acc2, count + 1)
        }
    }
}

/// The tag number of the unit whose identifier octet stands at `pos`.
pub open spec fn parse_tag(s: Seq<u8>, pos: int, limit: int) -> Result<TagField, DecodeError> {
    if s[pos] % 32 != 31 {
        Ok(TagField { tag: (s[pos] % 32) as u32, next: pos + 1 })
    } else {
        parse_long_tag(s, pos + 1, limit, 0, 0)
    }
}

/// A length field and the position that follows it.
pub struct LengthField {
    pub length: u32,
    pub indefinite: bool,
    pub non_canonical: bool,
    pub next: int,
}

/// The length field that starts at `pos`.
///
/// An octet under 128 is the length itself. The octet 128 announces an
/// indefinite length. Any other octet `128 + k` is followed by `k` bytes that
/// spell the length, most significant first; `k` may be at most 4.
pub open spec fn parse_length(s: Seq<u8>, pos: int, limit: int) -> Result<
    LengthField,
    DecodeError,
> {
    if pos >= limit {
        Err(DecodeError::Truncated)
    } else if s[pos] < 128 {
        Ok(LengthField { length: s[pos] as u32, indefinite: false, non_canonical: false, next: pos + 1 })
    } else if s[pos] == 128 {
        Ok(LengthField { length: 0, indefinite: true, non_canonical: false, next: pos + 1 })
    } else {
        let k = s[pos] - 128;
        if k > 4 {
            Err(DecodeError::LengthTooLong)
        } else if pos + 1 + k > limit {
            Err(DecodeError::Truncated)
        } else {
            let value = be_value(s.subrange(pos + 1, pos + 1 + k));
            Ok(
                LengthField {
                    length: value as u32,
                    indefinite: false,
                    non_canonical: value < 128,
                    next: pos + 1 + k,
                },
            )
        }
    }
}

/// The header that starts at `pos`, reading no byte at or past `limit`.
///
/// `Ok(None)` stands for a clean end: no byte is left before `limit`. A
/// header that starts before `limit` and does not end before it is
/// `Truncated`.
pub open spec fn parse_header(s: Seq<u8>, pos: int, limit: int) -> Result<
    Option<Asn1ItemView>,
    DecodeError,
> {
    if pos >= limit {
        Ok(None)
    } else {
        match parse_tag(s, pos, limit) {
            Err(e) => Err(e),
            Ok(t) => match parse_length(s, t.next, limit) {
                Err(e) => Err(e),
                Ok(l) => Ok(
                    Some(
                        Asn1ItemView {
                            id: (s[pos] - s[pos] % 32) as u8,
                            tag: t.tag,
                            length: l.length,
                            indefinite: l.indefinite,
                            non_canonical: l.non_canonical,
                            header: s.subrange(pos, l.next),
                        },
                    ),
                ),
            },
        }
    }
}

/// Reads the continuation bytes of a multi-byte tag number.
fn read_long_tag(input: &[u8], pos: usize, limit: usize) -> (r: Result<(u32, usize), DecodeError>)
    requires
        pos <= limit <= input@.len(),
    ensures
        match r {
            Ok((tag, next)) => parse_long_tag(input@, pos as int, limit as int, 0, 0) == Ok::<
                TagField,
                DecodeError,
            >(TagField { tag, next: next as int }) && pos < next <= limit && next <= pos + 4,
            Err(e) => parse_long_tag(input@, pos as int, limit as int, 0, 0) == Err::<
                TagField,
                DecodeError,
            >(e),
        },
{
    let mut acc: u32 = 0;
    let mut p: usize = pos;
    let mut count: usize = 0;
    loop
        invariant
            pos <= p <= limit <= input@.len(),
            p == pos + count,
            count <= 4,
            count == 0 ==> acc == 0,
            count == 1 ==> acc < 0x80,
            count == 2 ==> acc < 0x4000,
            count == 3 ==> acc < 0x20_0000,
            parse_long_tag(input@, pos as int, limit as int, 0, 0) == parse_long_tag(
                input@,
                p as int,
                limit as int,
                acc as nat,
                count as nat,
            ),
        decreases 4 - count,
    {
        if count >= MAX_TAG_BYTES {
            return Err(DecodeError::TagTooLong);
        }
        if p >= limit {
            return Err(DecodeError::Truncated);
        }
        let b: u8 = input[p];
        acc = acc * 128 + low7(b) as u32;
        p = p + 1;
        count = count + 1;
        if !high_bit(b) {
            return Ok((acc, p));
        }
    }
}

/// Reads the length field at `pos`.
fn read_length(input: &[u8], pos: usize, limit: usize) -> (r: Result<
    (u32, bool, bool, usize),
    DecodeError,
>)
    requires
        pos <= limit <= input@.len(),
    ensures
        match r {
            Ok((length, indefinite, non_canonical, next)) => parse_length(
                input@,
                pos as int,
                limit as int,
            ) == Ok::<LengthField, DecodeError>(
                LengthField { length, indefinite, non_canonical, next: next as int },
            ) && pos < next <= limit && next <= pos + 5,
            Err(e) => parse_length(input@, pos as int, limit as int) == Err::<
                LengthField,
                DecodeError,
            >(e),
        },
{
    if pos >= limit {
        return Err(DecodeError::Truncated);
    }
    let first: u8 = input[pos];
    if !high_bit(first) {
        return Ok((first as u32, false, false, pos + 1));
    }
    let k: usize = low7(first) as usize;
    if k == 0 {
        return Ok((0, true, false, pos + 1));
    }
    if k > MAX_LENGTH_BYTES {
        return Err(DecodeError::LengthTooLong);
    }
    if k > limit - pos - 1 {
        return Err(DecodeError::Truncated);
    }
    let value: u64 = read_be(input, pos + 1, k);
    proof {
        crate::bytes::lemma_be_value_bound(input@.subrange(pos + 1, pos + 1 + k));
        reveal_with_fuel(crate::bytes::pow256, 5);
        crate::bytes::lemma_pow256_monotonic(k as nat, 4);
    }
    Ok((value as u32, false, value < 128, pos + 1 + k))
}

/// Reads the header that starts at `pos`, looking at no byte at or past
/// `limit`.
pub fn read_header(input: &[u8], pos: usize, limit: usize) -> (r: Result<
    Option<Asn1Item>,
    DecodeError,
>)
    requires
        pos <= limit <= input@.len(),
    ensures
        match r {
            Ok(Some(item)) => item.wf() && parse_header(input@, pos as int, limit as int) == Ok::<
                Option<Asn1ItemView>,
                DecodeError,
            >(Some(item@)) && 2 <= item.header_size <= 10 && pos + item.header_size <= limit,
            Ok(None) => pos == limit,
            Err(e) => parse_header(input@, pos as int, limit as int) == Err::<
                Option<Asn1ItemView>,
                DecodeError,
            >(e),
        },
{
    if pos >= limit {
        return Ok(None);
    }
    let first: u8 = input[pos];
    let id: u8 = clear_low5(first);
    let short: u8 = low5(first);
    let (tag, after_tag) = if short != TAG_MASK {
        (short as u32, pos + 1)
    } else {
        match read_long_tag(input, pos + 1, limit) {
            Ok(pair) => pair,
            Err(e) => {
                return Err(e);
            },
        }
    };
    match read_length(input, after_tag, limit) {
        Err(e) => Err(e),
        Ok((length, indefinite, non_canonical, next)) => {
            let header = copy_range(input, pos, next - pos);
            Ok(
                Some(
                    Asn1Item {
                        id,
                        tag,
                        length,
                        indefinite,
                        non_canonical,
                        header,
                        header_size: next - pos,
                    },
                ),
            )
        },
    }
}

} // verus!
