//! Tag numbers of the universal class and their names.

use vstd::prelude::*;

verus! {

pub const EOC: u32 = 0x00;

pub const BOOLEAN: u32 = 0x01;

pub const INTEGER: u32 = 0x02;

pub const BITSTRING: u32 = 0x03;

pub const OCTETSTRING: u32 = 0x04;

pub const NULLTAG: u32 = 0x05;

pub const OID: u32 = 0x06;

pub const OBJDESCRIPTOR: u32 = 0x07;

pub const EXTERNAL: u32 = 0x08;

pub const REAL: u32 = 0x09;

pub const ENUMERATED: u32 = 0x0A;

pub const EMBEDDED_PDV: u32 = 0x0B;

pub const UTF8STRING: u32 = 0x0C;

pub const SEQUENCE: u32 = 0x10;

pub const SET: u32 = 0x11;

pub const NUMERICSTRING: u32 = 0x12;

pub const PRINTABLESTRING: u32 = 0x13;

pub const T61STRING: u32 = 0x14;

pub const VIDEOTEXSTRING: u32 = 0x15;

pub const IA5STRING: u32 = 0x16;

pub const UTCTIME: u32 = 0x17;

pub const GENERALIZEDTIME: u32 = 0x18;

pub const GRAPHICSTRING: u32 = 0x19;

pub const VISIBLESTRING: u32 = 0x1A;

pub const GENERALSTRING: u32 = 0x1B;

pub const UNIVERSALSTRING: u32 = 0x1C;

pub const BMPSTRING: u32 = 0x1E;

/// The name of a tag number of the universal class.
pub open spec fn universal_name(tag: u32) -> Seq<char> {
    if tag == EOC {
        "End-of-contents octets"@
    } else if tag == BOOLEAN {
        "BOOLEAN"@
    } else if tag == INTEGER {
        "INTEGER"@
    } else if tag == BITSTRING {
        "BIT STRING"@
    } else if tag == OCTETSTRING {
        "OCTET STRING"@
    } else if tag == NULLTAG {
        "NULL"@
    } else if tag == OID {
        "OBJECT IDENTIFIER"@
    } else if tag == OBJDESCRIPTOR {
        "ObjectDescriptor"@
    } else if tag == EXTERNAL {
        "EXTERNAL"@
    } else if tag == REAL {
        "REAL"@
    } else if tag == ENUMERATED {
        "ENUMERATED"@
    } else if tag == EMBEDDED_PDV {
        "EMBEDDED PDV"@
    } else if tag == UTF8STRING {
        "UTF8String"@
    } else if tag == SEQUENCE {
        "SEQUENCE"@
    } else if tag == SET {
        "SET"@
    } else if tag == NUMERICSTRING {
        "NumericString"@
    } else if tag == PRINTABLESTRING {
        "PrintableString"@
    } else if tag == T61STRING {
        "TeletexString"@
    } else if tag == VIDEOTEXSTRING {
        "VideotexString"@
    } else if tag == IA5STRING {
        "IA5String"@
    } else if tag == UTCTIME {
        "UTCTime"@
    } else if tag == GENERALIZEDTIME {
        "GeneralizedTime"@
    } else if tag == GRAPHICSTRING {
        "GraphicString"@
    } else if tag == VISIBLESTRING {
        "VisibleString"@
    } else if tag == GENERALSTRING {
        "GeneralString"@
    } else if tag == UNIVERSALSTRING {
        "UniversalString"@
    } else if tag == BMPSTRING {
        "BMPString"@
    } else {
        "Unknown"@
    }
}

/// The tag numbers whose payload is kept as a character string: the
/// restricted string types and the two time types.
pub open spec fn character_string_tag(tag: u32) -> bool {
    tag == NUMERICSTRING || tag == PRINTABLESTRING || tag == T61STRING || tag == VIDEOTEXSTRING
        || tag == IA5STRING || tag == UTCTIME || tag == GENERALIZEDTIME || tag == VISIBLESTRING
        || tag == GENERALSTRING || tag == UNIVERSALSTRING || tag == BMPSTRING
}

/// Tells whether a payload under this tag is kept as a character string.
pub fn is_character_string_tag(tag: u32) -> (r: bool)
    ensures
        r == character_string_tag(tag),
{
    tag == NUMERICSTRING || tag == PRINTABLESTRING || tag == T61STRING || tag == VIDEOTEXSTRING
        || tag == IA5STRING || tag == UTCTIME || tag == GENERALIZEDTIME || tag == VISIBLESTRING
        || tag == GENERALSTRING || tag == UNIVERSALSTRING || tag == BMPSTRING
}

} // verus!
