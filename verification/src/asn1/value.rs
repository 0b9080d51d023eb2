//! Decoded units and the interpretation of primitive payloads.

use crate::asn1::config::Config;
use crate::asn1::header::{Asn1Item, Asn1ItemView, UNIVERSAL};
use crate::asn1::tags::{
    character_string_tag, is_character_string_tag, BITSTRING, BOOLEAN, ENUMERATED, EOC, INTEGER,
    NULLTAG, OCTETSTRING, OID, UTF8STRING,
};
use crate::bytes::{be_value, copy_range, low7, pow256};
use crate::text::string_from_utf8;
use vstd::prelude::*;
use vstd::slice::slice_to_vec;
use vstd::utf8::{decode_utf8, valid_utf8};

verus! {

/// What the payload of a unit holds.
#[derive(Debug, PartialEq, Eq)]
pub enum Asn1Value {
    /// A truth value: one byte, true when it is not zero.
    Boolean(bool),
    /// An integer of at most eight bytes.
    Integer(i64),
    /// An integer of more than eight bytes, as its big-endian bytes.
    BigInteger(Vec<u8>),
    /// A bit string: the count of unused bits in the last byte, then the
    /// bytes.
    BitString { unused_bits: u8, data: Vec<u8> },
    /// Raw bytes.
    OctetString(Vec<u8>),
    /// The null value.
    Null,
    /// An object identifier as its components; none for an empty payload.
    ObjectIdentifier(Vec<u64>),
    /// Text of a UTF8String.
    Utf8String(String),
    /// The bytes of a restricted character string or a time value.
    CharacterString(Vec<u8>),
    /// The bytes of a UTF8String that is not well-formed UTF-8.
    InvalidUtf8(Vec<u8>),
    /// An end-of-contents marker that closes nothing.
    EndOfContents,
    /// The bytes of a unit whose class and tag say nothing of their meaning.
    Opaque(Vec<u8>),
    /// A unit that needs content and has none, where this is not allowed.
    ZeroLength,
    /// The nested units of a constructed unit.
    Constructed(Vec<Asn1Unit>),
    /// A unit below the deepest level that is decoded; it ends where the unit
    /// ends, and nothing of what it holds is kept.
    NestingExceeded,
}

/// One decoded unit with the place it was read from.
#[derive(Debug, PartialEq, Eq)]
pub struct Asn1Unit {
    /// Offset of the first header byte.
    pub offset: usize,
    /// The header.
    pub header: Asn1Item,
    /// The payload.
    pub value: Asn1Value,
    /// Offset just past the last byte read for this unit.
    pub end: usize,
}

/// The mathematical value of a payload.
pub enum Asn1ValueView {
    Boolean(bool),
    Integer(int),
    BigInteger(Seq<u8>),
    BitString { unused_bits: u8, data: Seq<u8> },
    OctetString(Seq<u8>),
    Null,
    ObjectIdentifier(Seq<u64>),
    Utf8String(Seq<char>),
    CharacterString(Seq<u8>),
    InvalidUtf8(Seq<u8>),
    EndOfContents,
    Opaque(Seq<u8>),
    ZeroLength,
    Constructed(Seq<Asn1UnitView>),
    NestingExceeded,
}

/// The mathematical value of a decoded unit.
pub struct Asn1UnitView {
    pub offset: nat,
    pub header: Asn1ItemView,
    pub value: Asn1ValueView,
    pub end: nat,
}

impl Asn1Value {
    /// The mathematical value: numbers without bounds, sequences for vectors
    /// and strings, and the same of every nested unit.
    pub open spec fn view(&self) -> Asn1ValueView
        decreases self,
    {
        match self {
            Asn1Value::Boolean(b) => Asn1ValueView::Boolean(*b),
            Asn1Value::Integer(n) => Asn1ValueView::Integer(*n as int),
            Asn1Value::BigInteger(b) => Asn1ValueView::BigInteger(b@),
            Asn1Value::BitString { unused_bits, data } => Asn1ValueView::BitString {
                unused_bits: *unused_bits,
                data: data@,
            },
            Asn1Value::OctetString(b) => Asn1ValueView::OctetString(b@),
            Asn1Value::Null => Asn1ValueView::Null,
            Asn1Value::ObjectIdentifier(a) => Asn1ValueView::ObjectIdentifier(a@),
            Asn1Value::Utf8String(s) => Asn1ValueView::Utf8String(s@),
            Asn1Value::CharacterString(b) => Asn1ValueView::CharacterString(b@),
            Asn1Value::InvalidUtf8(b) => Asn1ValueView::InvalidUtf8(b@),
            Asn1Value::EndOfContents => Asn1ValueView::EndOfContents,
            Asn1Value::Opaque(b) => Asn1ValueView::Opaque(b@),
            Asn1Value::ZeroLength => Asn1ValueView::ZeroLength,
            Asn1Value::Constructed(units) => Asn1ValueView::Constructed(
                Seq::new(
                    units@.len(),
                    |i: int|
                        if 0 <= i < units@.len() {
                            units@[i].view()
                        } else {
                            arbitrary()
                        },
                ),
            ),
            Asn1Value::NestingExceeded => Asn1ValueView::NestingExceeded,
        }
    }
}

impl Asn1Unit {
    /// The mathematical value of the unit.
    pub open spec fn view(&self) -> Asn1UnitView
        decreases self,
    {
        Asn1UnitView {
            offset: self.offset as nat,
            header: self.header@,
            value: self.value.view(),
            end: self.end as nat,
        }
    }

    /// The header of this unit and of every unit below it records its own
    /// size.
    pub open spec fn wf(&self) -> bool
        decreases self,
    {
        &&& self.header.wf()
        &&& match &self.value {
            Asn1Value::Constructed(units) => forall|i: int|
                0 <= i < units@.len() ==> (#[trigger] units@[i]).wf(),
            _ => true,
        }
    }
}

/// The views of a vector of units, in order.
pub open spec fn units_view(units: Seq<Asn1Unit>) -> Seq<Asn1UnitView> {
    Seq::new(units.len(), |i: int| units[i].view())
}

/// The integer that `bytes` spell in two's complement, most significant
/// byte first: the first byte gives the sign, each further byte appends
/// eight bits.
pub open spec fn signed_be(bytes: Seq<u8>) -> int
    decreases bytes.len(),
{
    if bytes.len() == 0 {
        0
    } else if bytes.len() == 1 {
        if bytes[0] >= 128 {
            bytes[0] - 256
        } else {
            bytes[0] as int
        }
    } else {
        signed_be(bytes.drop_last()) * 256 + bytes.last()
    }
}

/// Two's complement. A non-empty run of bytes spells, as a signed integer,
/// what it spells as an unsigned one, less 256 to the power of its length
/// where the high bit of the first byte is set.
pub proof fn law_signed_is_twos_complement(bytes: Seq<u8>)
    requires
        bytes.len() > 0,
    ensures
        signed_be(bytes) == be_value(bytes) - if bytes[0] >= 128 {
            pow256(bytes.len())
        } else {
            0
        },
    decreases bytes.len(),
{
    if bytes.len() == 1 {
        assert(bytes.drop_last().len() == 0);
        assert(be_value(bytes) == be_value(bytes.drop_last()) * 256 + bytes.last());
        assert(pow256(1) == 256 * pow256(0));
    } else {
        let front = bytes.drop_last();
        assert(front[0] == bytes[0]);
        law_signed_is_twos_complement(front);
        assert(pow256(bytes.len()) == 256 * pow256(front.len()));
    }
}

/// One more byte of a component of an object identifier: seven more bits
/// below those in `acc`. Bits that leave the 64 are lost.
pub open spec fn arc_step(acc: u64, b: u8) -> u64 {
    ((acc * 128 + b % 128) % 0x1_0000_0000_0000_0000) as u64
}

/// The components spelled by `bytes` from index `i` on, where `pending`
/// says that a component has begun and `acc` holds its bits so far. A byte
/// under 128 ends a component. A component that the end of the payload cuts
/// short counts with the bits it has.
pub open spec fn sub_identifiers(bytes: Seq<u8>, i: int, acc: u64, pending: bool) -> Seq<u64>
    decreases bytes.len() - i,
{
    if i < 0 || i >= bytes.len() {
        if pending {
            seq![acc]
        } else {
            Seq::<u64>::empty()
        }
    } else if bytes[i] < 128 {
        seq![arc_step(acc, bytes[i])] + sub_identifiers(bytes, i + 1, 0, false)
    } else {
        sub_identifiers(bytes, i + 1, arc_step(acc, bytes[i]), true)
    }
}

/// The components of the object identifier in `bytes`. The first byte gives
/// two components, its quotient and its remainder by 40. An empty payload
/// has no component.
pub open spec fn oid_arcs(bytes: Seq<u8>) -> Seq<u64> {
    if bytes.len() == 0 {
        Seq::<u64>::empty()
    } else {
        seq![(bytes[0] / 40) as u64, (bytes[0] % 40) as u64] + sub_identifiers(bytes, 1, 0, false)
    }
}

/// The tags whose payload cannot be empty.
pub open spec fn needs_content(tag: u32) -> bool {
    tag == BOOLEAN || tag == INTEGER || tag == ENUMERATED || tag == BITSTRING
}

/// What stands for an empty payload under a tag that needs content, where
/// this is allowed.
pub open spec fn empty_default(tag: u32) -> Asn1ValueView {
    if tag == BOOLEAN {
        Asn1ValueView::Boolean(false)
    } else if tag == BITSTRING {
        Asn1ValueView::BitString { unused_bits: 0, data: Seq::<u8>::empty() }
    } else {
        Asn1ValueView::Integer(0)
    }
}

/// The value of a primitive unit with header `h` and payload `payload`.
///
/// Only the universal class has tags with a meaning of their own; the
/// payload of any other class, and of a universal tag that is not listed
/// here or whose payload has a length the tag does not allow, is `Opaque`.
pub open spec fn interpret(h: Asn1ItemView, payload: Seq<u8>, cfg: Config) -> Asn1ValueView {
    if h.class() != UNIVERSAL {
        Asn1ValueView::Opaque(payload)
    } else if needs_content(h.tag) && payload.len() == 0 {
        if cfg.zero_length_allowed {
            empty_default(h.tag)
        } else {
            Asn1ValueView::ZeroLength
        }
    } else if h.tag == EOC {
        if payload.len() == 0 && !h.indefinite {
            Asn1ValueView::EndOfContents
        } else {
            Asn1ValueView::Opaque(payload)
        }
    } else if h.tag == BOOLEAN {
        if payload.len() == 1 {
            Asn1ValueView::Boolean(payload[0] != 0)
        } else {
            Asn1ValueView::Opaque(payload)
        }
    } else if h.tag == INTEGER || h.tag == ENUMERATED {
        if payload.len() <= 8 {
            Asn1ValueView::Integer(signed_be(payload))
        } else {
            Asn1ValueView::BigInteger(payload)
        }
    } else if h.tag == BITSTRING {
        Asn1ValueView::BitString {
            unused_bits: payload[0],
            data: payload.subrange(1, payload.len() as int),
        }
    } else if h.tag == OCTETSTRING {
        Asn1ValueView::OctetString(payload)
    } else if h.tag == NULLTAG {
        if payload.len() == 0 {
            Asn1ValueView::Null
        } else {
            Asn1ValueView::Opaque(payload)
        }
    } else if h.tag == OID {
        Asn1ValueView::ObjectIdentifier(oid_arcs(payload))
    } else if h.tag == UTF8STRING {
        if valid_utf8(payload) {
            Asn1ValueView::Utf8String(decode_utf8(payload))
        } else {
            Asn1ValueView::InvalidUtf8(payload)
        }
    } else if character_string_tag(h.tag) {
        Asn1ValueView::CharacterString(payload)
    } else {
        Asn1ValueView::Opaque(payload)
    }
}

/// Reads a two's-complement big-endian integer of one to eight bytes.
pub fn decode_integer(payload: &[u8]) -> (value: i64)
    requires
        1 <= payload@.len() <= 8,
    ensures
        value == signed_be(payload@),
{
    let first: u8 = payload[0];
    let mut value: i64 = if first >= 128 {
        first as i64 - 256
    } else {
        first as i64
    };
    let mut i: usize = 1;
    assert(payload@.take(1) =~= seq![first]);
    while i < payload.len()
        invariant
            1 <= i <= payload@.len() <= 8,
            value == signed_be(payload@.take(i as int)),
            -128 * crate::bytes::pow256((i - 1) as nat) <= value < 128 * crate::bytes::pow256(
                (i - 1) as nat,
            ),
        decreases payload@.len() - i,
    {
        proof {
            assert(payload@.take(i + 1).drop_last() =~= payload@.take(i as int));
            reveal_with_fuel(crate::bytes::pow256, 8);
            crate::bytes::lemma_pow256_monotonic((i - 1) as nat, 6);
        }
        value = value * 256 + payload[i] as i64;
        i = i + 1;
    }
    assert(payload@.take(i as int) =~= payload@);
    value
}

/// Appends seven bits to a component of an object identifier.
fn push_arc_bits(acc: u64, b: u8) -> (r: u64)
    ensures
        r == arc_step(acc, b),
{
    let l: u8 = low7(b);
    assert((acc << 7) | (l as u64) == ((acc * 128 + l) % 0x1_0000_0000_0000_0000) as u64)
        by (bit_vector)
        requires
            l < 128,
    ;
    (acc << 7) | (l as u64)
}

/// Reads the components of an object identifier.
pub fn decode_oid(payload: &[u8]) -> (arcs: Vec<u64>)
    ensures
        arcs@ == oid_arcs(payload@),
{
    let mut arcs: Vec<u64> = Vec::new();
    if payload.len() == 0 {
        return arcs;
    }
    let first: u8 = payload[0];
    arcs.push((first / 40) as u64);
    arcs.push((first % 40) as u64);
    let mut i: usize = 1;
    let mut acc: u64 = 0;
    let mut pending: bool = false;
    while i < payload.len()
        invariant
            1 <= i <= payload@.len(),
            oid_arcs(payload@) == arcs@ + sub_identifiers(payload@, i as int, acc, pending),
        decreases payload@.len() - i,
    {
        let b: u8 = payload[i];
        let next: u64 = push_arc_bits(acc, b);
        let ghost before = arcs@;
        if b < 128 {
            arcs.push(next);
            acc = 0;
            pending = false;
            assert(before + (seq![next] + sub_identifiers(payload@, i + 1, 0, false)) =~= arcs@
                + sub_identifiers(payload@, i + 1, 0, false));
        } else {
            acc = next;
            pending = true;
        }
        i = i + 1;
    }
    if pending {
        let ghost before = arcs@;
        arcs.push(acc);
        assert(before + seq![acc] =~= arcs@);
    } else {
        assert(arcs@ + Seq::<u64>::empty() =~= arcs@);
    }
    arcs
}

/// Interprets the payload of a primitive unit.
pub fn decode_primitive(item: &Asn1Item, payload: &[u8], config: &Config) -> (value: Asn1Value)
    ensures
        value.view() == interpret(item@, payload@, *config),
{
    let n: usize = payload.len();
    let tag: u32 = item.tag;
    if item.class() != UNIVERSAL {
        Asn1Value::Opaque(slice_to_vec(payload))
    } else if (tag == BOOLEAN || tag == INTEGER || tag == ENUMERATED || tag == BITSTRING) && n
        == 0 {
        if !config.zero_length_allowed {
            Asn1Value::ZeroLength
        } else if tag == BOOLEAN {
            Asn1Value::Boolean(false)
        } else if tag == BITSTRING {
            Asn1Value::BitString { unused_bits: 0, data: Vec::new() }
        } else {
            Asn1Value::Integer(0)
        }
    } else if tag == EOC {
        if n == 0 && !item.indefinite {
            Asn1Value::EndOfContents
        } else {
            Asn1Value::Opaque(slice_to_vec(payload))
        }
    } else if tag == BOOLEAN {
        if n == 1 {
            Asn1Value::Boolean(payload[0] != 0)
        } else {
            Asn1Value::Opaque(slice_to_vec(payload))
        }
    } else if tag == INTEGER || tag == ENUMERATED {
        if n <= 8 {
            Asn1Value::Integer(decode_integer(payload))
        } else {
            Asn1Value::BigInteger(slice_to_vec(payload))
        }
    } else if tag == BITSTRING {
        Asn1Value::BitString { unused_bits: payload[0], data: copy_range(payload, 1, n - 1) }
    } else if tag == OCTETSTRING {
        Asn1Value::OctetString(slice_to_vec(payload))
    } else if tag == NULLTAG {
        if n == 0 {
            Asn1Value::Null
        } else {
            Asn1Value::Opaque(slice_to_vec(payload))
        }
    } else if tag == OID {
        Asn1Value::ObjectIdentifier(decode_oid(payload))
    } else if tag == UTF8STRING {
        match string_from_utf8(payload) {
            Some(s) => Asn1Value::Utf8String(s),
            None => Asn1Value::InvalidUtf8(slice_to_vec(payload)),
        }
    } else if is_character_string_tag(tag) {
        Asn1Value::CharacterString(slice_to_vec(payload))
    } else {
        Asn1Value::Opaque(slice_to_vec(payload))
    }
}

} // verus!
