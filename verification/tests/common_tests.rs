// Byte-level facts about the two encodings, checked on small samples and,
// where the library has a say, against what the library reads from them.

use bindump::asn1::config::Config;
use bindump::asn1::dumper::Asn1Dumper;
use bindump::asn1::header::{Asn1Item, APPLICATION, CONTEXT, PRIVATE, UNIVERSAL};
use bindump::asn1::tags;
use bindump::cbor::dumper::CborDumper;
use bindump::cbor::head::read_head;
use bindump::cbor::value::{CborItem, CborValue};

fn create_test_data(hex: &str) -> Vec<u8> {
    hex.split_whitespace()
        .map(|s| u8::from_str_radix(s, 16).unwrap())
        .collect()
}

fn first_header(data: &[u8]) -> Asn1Item {
    let mut dumper = Asn1Dumper::new(Config::default());
    dumper.get_item(data).unwrap().unwrap()
}

fn first_item(data: &[u8]) -> CborItem {
    let mut dumper = CborDumper::new(bindump::cbor::config::Config::default());
    dumper.read_item(data).unwrap().unwrap()
}

#[test]
fn test_hex_parsing() {
    let data = create_test_data("02 01 2A");
    assert_eq!(data, vec![0x02, 0x01, 0x2A]);
}

#[test]
fn test_asn1_integer_tag() {
    let data = create_test_data("02 01 2A");
    assert_eq!(data[0], 0x02);
    assert_eq!(first_header(&data).tag, tags::INTEGER);
}

#[test]
fn test_asn1_sequence_tag() {
    let data = create_test_data("30 00");
    assert_eq!(data[0], 0x30);
    assert_eq!(first_header(&data).tag, tags::SEQUENCE);
}

#[test]
fn test_asn1_boolean_tag() {
    let data = create_test_data("01 01 FF");
    assert_eq!(data[0], 0x01);
    assert_eq!(first_header(&data).tag, tags::BOOLEAN);
}

#[test]
fn test_asn1_null_tag() {
    let data = create_test_data("05 00");
    assert_eq!(data[0], 0x05);
    assert_eq!(first_header(&data).tag, tags::NULLTAG);
}

#[test]
fn test_asn1_octet_string_tag() {
    let data = create_test_data("04 05 48 65 6C 6C 6F");
    assert_eq!(data[0], 0x04);
    assert_eq!(data[1], 0x05);
    let header = first_header(&data);
    assert_eq!(header.tag, tags::OCTETSTRING);
    assert_eq!(header.length, 5);
}

#[test]
fn test_asn1_oid_tag() {
    let data = create_test_data("06 03 55 04 03");
    assert_eq!(data[0], 0x06);
    assert_eq!(first_header(&data).tag, tags::OID);
}

#[test]
fn test_asn1_short_form_length() {
    let data = create_test_data("02 05 00 00 00 00 00");
    assert_eq!(data[1], 0x05);
    assert!(data[1] < 0x80);
    let header = first_header(&data);
    assert_eq!(header.length, 5);
    assert_eq!(header.header_size, 2);
    assert!(!header.non_canonical);
}

#[test]
fn test_asn1_long_form_length_marker() {
    let data = create_test_data("04 81 FF");
    assert_eq!(data[1] & 0x80, 0x80);
    let header = first_header(&data);
    assert_eq!(header.length, 0xFF);
    assert_eq!(header.header_size, 3);
    assert!(!header.indefinite);
}

#[test]
fn test_asn1_tag_class_universal() {
    let data = create_test_data("02 01 00");
    assert_eq!(data[0] & 0xC0, 0x00);
    assert_eq!(first_header(&data).class(), UNIVERSAL);
}

#[test]
fn test_asn1_tag_class_context() {
    let data = create_test_data("80 01 00");
    assert_eq!(data[0] & 0xC0, 0x80);
    assert_eq!(first_header(&data).class(), CONTEXT);
    assert_eq!(first_header(&create_test_data("40 00")).class(), APPLICATION);
    assert_eq!(first_header(&create_test_data("C0 00")).class(), PRIVATE);
}

#[test]
fn test_asn1_constructed_flag() {
    let data = create_test_data("30 00");
    assert_eq!(data[0] & 0x20, 0x20);
    assert!(first_header(&data).is_constructed());
}

#[test]
fn test_asn1_primitive_flag() {
    let data = create_test_data("02 01 00");
    assert_eq!(data[0] & 0x20, 0x00);
    assert!(!first_header(&data).is_constructed());
}

#[test]
fn test_cbor_unsigned_int_major_type() {
    let data = create_test_data("18 2A");
    assert_eq!(data[0] >> 5, 0);
    let item = first_item(&data);
    assert_eq!(item.major_type, 0);
    assert_eq!(item.value, CborValue::Unsigned(42));
}

#[test]
fn test_cbor_negative_int_major_type() {
    let data = create_test_data("38 63");
    assert_eq!(data[0] >> 5, 1);
    let item = first_item(&data);
    assert_eq!(item.major_type, 1);
    assert_eq!(item.value, CborValue::Negative(-100));
}

#[test]
fn test_cbor_byte_string_major_type() {
    let data = create_test_data("44 01 02 03 04");
    assert_eq!(data[0] >> 5, 2);
    let item = first_item(&data);
    assert_eq!(item.major_type, 2);
    assert_eq!(item.value, CborValue::Bytes(vec![1, 2, 3, 4]));
}

#[test]
fn test_cbor_text_string_major_type() {
    let data = create_test_data("64 74 65 73 74");
    assert_eq!(data[0] >> 5, 3);
    let item = first_item(&data);
    assert_eq!(item.major_type, 3);
    assert_eq!(item.value, CborValue::Text("test".to_string()));
}

#[test]
fn test_cbor_array_major_type() {
    let data = create_test_data("83 01 02 03");
    assert_eq!(data[0] >> 5, 4);
    assert_eq!(first_item(&data).major_type, 4);
}

#[test]
fn test_cbor_map_major_type() {
    let data = create_test_data("A1 61 61 01");
    assert_eq!(data[0] >> 5, 5);
    assert_eq!(first_item(&data).major_type, 5);
}

#[test]
fn test_cbor_tag_major_type() {
    let data = create_test_data("C1 01");
    assert_eq!(data[0] >> 5, 6);
    assert_eq!(first_item(&data).major_type, 6);
}

#[test]
fn test_cbor_simple_major_type() {
    let data = create_test_data("F5");
    assert_eq!(data[0] >> 5, 7);
    assert_eq!(first_item(&data).major_type, 7);
}

#[test]
fn test_cbor_additional_info() {
    let data = create_test_data("18 2A");
    assert_eq!(data[0] & 0x1F, 24);
    assert_eq!(first_item(&data).additional_info, 24);
}

#[test]
fn test_cbor_false_value() {
    let data = create_test_data("F4");
    assert_eq!(data[0], 0xF4);
    assert_eq!(first_item(&data).value, CborValue::Boolean(false));
}

#[test]
fn test_cbor_true_value() {
    let data = create_test_data("F5");
    assert_eq!(data[0], 0xF5);
    assert_eq!(first_item(&data).value, CborValue::Boolean(true));
}

#[test]
fn test_cbor_null_value() {
    let data = create_test_data("F6");
    assert_eq!(data[0], 0xF6);
    assert_eq!(first_item(&data).value, CborValue::Null);
}

#[test]
fn test_cbor_undefined_value() {
    let data = create_test_data("F7");
    assert_eq!(data[0], 0xF7);
    assert_eq!(first_item(&data).value, CborValue::Undefined);
}

#[test]
fn test_cbor_small_integer_encoding() {
    let data = create_test_data("17");
    assert_eq!(data[0], 23);
    assert_eq!(data[0] >> 5, 0);
    assert_eq!(first_item(&data).value, CborValue::Unsigned(23));
}

#[test]
fn test_cbor_indefinite_length_marker() {
    let data = create_test_data("5F FF");
    assert_eq!(data[0] & 0x1F, 31);
    let head = read_head(&data, 0).unwrap().unwrap();
    assert_eq!(head.additional_info, 31);
    assert_eq!(first_item(&data).value, CborValue::Bytes(vec![]));
}

#[test]
fn test_byte_operations() {
    let byte: u8 = 0b11010110;
    assert_eq!(byte & 0xC0, 0xC0);
    assert_eq!(byte & 0x20, 0x00);
    assert_eq!(byte & 0x1F, 0x16);
}

#[test]
fn test_multi_byte_integer_parsing() {
    let bytes = vec![0x01, 0x02, 0x03, 0x04];
    let value = u32::from_be_bytes([bytes[0], bytes[1], bytes[2], bytes[3]]);
    assert_eq!(value, 0x01020304);
}

#[test]
fn test_utf8_validation() {
    let valid = vec![0x48, 0x65, 0x6C, 0x6C, 0x6F];
    assert!(String::from_utf8(valid).is_ok());

    let invalid = vec![0xFF, 0xFE];
    assert!(String::from_utf8(invalid).is_err());
}
