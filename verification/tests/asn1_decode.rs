use bindump::asn1::config::Config;
use bindump::asn1::dumper::Asn1Dumper;
use bindump::asn1::value::{Asn1Unit, Asn1Value};
use bindump::error::DecodeError;

fn decode_one(data: &[u8], config: Config) -> (Result<Option<Asn1Unit>, DecodeError>, Asn1Dumper) {
    let mut dumper = Asn1Dumper::new(config);
    let r = dumper.read_unit(data);
    (r, dumper)
}

fn value_of(data: &[u8]) -> Asn1Value {
    decode_one(data, Config::default()).0.unwrap().unwrap().value
}

#[test]
fn asn1_boolean_true_from_ff() {
    let (r, dumper) = decode_one(&[0x01, 0x01, 0xFF], Config::default());
    let unit = r.unwrap().unwrap();
    assert_eq!(unit.value, Asn1Value::Boolean(true));
    assert_eq!(unit.offset, 0);
    assert_eq!(unit.end, 3);
    assert_eq!(dumper.f_pos, 3);
    assert_eq!(dumper.no_errors, 0);
    assert_eq!(value_of(&[0x01, 0x01, 0x00]), Asn1Value::Boolean(false));
}

#[test]
fn asn1_boolean_without_payload_is_an_error_by_default() {
    let (r, dumper) = decode_one(&[0x01, 0x00], Config::default());
    assert_eq!(r.unwrap().unwrap().value, Asn1Value::ZeroLength);
    assert_eq!(dumper.no_errors, 1);
    assert_eq!(dumper.f_pos, 2);
}

#[test]
fn asn1_boolean_without_payload_is_false_where_allowed() {
    let mut config = Config::default();
    config.zero_length_allowed = true;
    let (r, dumper) = decode_one(&[0x01, 0x00], config);
    assert_eq!(r.unwrap().unwrap().value, Asn1Value::Boolean(false));
    assert_eq!(dumper.no_errors, 0);
}

#[test]
fn asn1_integers_are_twos_complement() {
    assert_eq!(value_of(&[0x02, 0x01, 0x2A]), Asn1Value::Integer(42));
    assert_eq!(value_of(&[0x02, 0x01, 0xFF]), Asn1Value::Integer(-1));
    assert_eq!(value_of(&[0x02, 0x02, 0x80, 0x00]), Asn1Value::Integer(-32768));
    assert_eq!(value_of(&[0x02, 0x02, 0x00, 0x80]), Asn1Value::Integer(128));
    assert_eq!(
        value_of(&[0x02, 0x08, 0x80, 0, 0, 0, 0, 0, 0, 0]),
        Asn1Value::Integer(i64::MIN)
    );
    assert_eq!(
        value_of(&[0x02, 0x08, 0x7F, 0xFF, 0xFF, 0xFF, 0xFF, 0xFF, 0xFF, 0xFF]),
        Asn1Value::Integer(i64::MAX)
    );
    assert_eq!(value_of(&[0x0A, 0x01, 0x05]), Asn1Value::Integer(5));
}

#[test]
fn asn1_wide_integers_keep_their_bytes() {
    let data = [0x02, 0x09, 0x01, 0, 0, 0, 0, 0, 0, 0, 0];
    assert_eq!(value_of(&data), Asn1Value::BigInteger(vec![1, 0, 0, 0, 0, 0, 0, 0, 0]));
}

#[test]
fn asn1_oid_common_name() {
    assert_eq!(
        value_of(&[0x06, 0x03, 0x55, 0x04, 0x03]),
        Asn1Value::ObjectIdentifier(vec![2, 5, 4, 3])
    );
}

#[test]
fn asn1_oid_with_multi_byte_component() {
    // 1.2.840.113549
    assert_eq!(
        value_of(&[0x06, 0x06, 0x2A, 0x86, 0x48, 0x86, 0xF7, 0x0D]),
        Asn1Value::ObjectIdentifier(vec![1, 2, 840, 113549])
    );
}

#[test]
fn asn1_empty_oid_has_no_component() {
    let (r, dumper) = decode_one(&[0x06, 0x00], Config::default());
    assert_eq!(r.unwrap().unwrap().value, Asn1Value::ObjectIdentifier(vec![]));
    assert_eq!(dumper.no_errors, 0);
}

#[test]
fn asn1_oid_cut_short_keeps_partial_component() {
    assert_eq!(
        value_of(&[0x06, 0x02, 0x2A, 0x86]),
        Asn1Value::ObjectIdentifier(vec![1, 2, 6])
    );
}

#[test]
fn asn1_strings_and_null() {
    assert_eq!(
        value_of(&[0x04, 0x05, 0x48, 0x65, 0x6C, 0x6C, 0x6F]),
        Asn1Value::OctetString(b"Hello".to_vec())
    );
    assert_eq!(value_of(&[0x05, 0x00]), Asn1Value::Null);
    assert_eq!(
        value_of(&[0x13, 0x02, 0x55, 0x53]),
        Asn1Value::CharacterString(b"US".to_vec())
    );
    assert_eq!(
        value_of(&[0x0C, 0x02, 0xC3, 0xA9]),
        Asn1Value::Utf8String("\u{e9}".to_string())
    );
    assert_eq!(
        value_of(&[0x03, 0x03, 0x04, 0xAB, 0xC0]),
        Asn1Value::BitString { unused_bits: 4, data: vec![0xAB, 0xC0] }
    );
}

#[test]
fn asn1_malformed_utf8_counts_and_siblings_still_decode() {
    // SEQUENCE { UTF8String <FF FE>, INTEGER 5 }
    let data = [0x30, 0x07, 0x0C, 0x02, 0xFF, 0xFE, 0x02, 0x01, 0x05];
    let (r, dumper) = decode_one(&data, Config::default());
    let unit = r.unwrap().unwrap();
    match unit.value {
        Asn1Value::Constructed(children) => {
            assert_eq!(children.len(), 2);
            assert_eq!(children[0].value, Asn1Value::InvalidUtf8(vec![0xFF, 0xFE]));
            assert_eq!(children[1].value, Asn1Value::Integer(5));
        }
        other => panic!("unexpected value {:?}", other),
    }
    assert_eq!(dumper.no_errors, 1);
    assert_eq!(dumper.f_pos, 9);
}

#[test]
fn asn1_unknown_tags_are_opaque_and_warn() {
    let (r, dumper) = decode_one(&[0x80, 0x02, 0x01, 0x02], Config::default());
    assert_eq!(r.unwrap().unwrap().value, Asn1Value::Opaque(vec![1, 2]));
    assert_eq!(dumper.no_warnings, 1);
    let (r, dumper) = decode_one(&[0x09, 0x01, 0x00], Config::default());
    assert_eq!(r.unwrap().unwrap().value, Asn1Value::Opaque(vec![0]));
    assert_eq!(dumper.no_warnings, 1);
    assert_eq!(dumper.no_errors, 0);
}

#[test]
fn asn1_children_fill_a_definite_container() {
    // SEQUENCE { INTEGER 1, SEQUENCE { NULL }, OCTET STRING "a" }
    let data = [0x30, 0x0A, 0x02, 0x01, 0x01, 0x30, 0x02, 0x05, 0x00, 0x04, 0x01, 0x61];
    let unit = decode_one(&data, Config::default()).0.unwrap().unwrap();
    assert_eq!(unit.end - unit.offset - unit.header.header_size, unit.header.length as usize);
    match unit.value {
        Asn1Value::Constructed(children) => {
            assert_eq!(children.len(), 3);
            let total: usize = children.iter().map(|c| c.end - c.offset).sum();
            assert_eq!(total, 10);
            assert_eq!(children[0].offset, 2);
            assert_eq!(children[1].offset, 5);
            assert_eq!(children[2].offset, 9);
            assert_eq!(children[2].end, 12);
        }
        other => panic!("unexpected value {:?}", other),
    }
}

#[test]
fn asn1_child_that_overruns_its_parent() {
    // SEQUENCE of length 3 whose INTEGER claims 5 bytes; the bytes exist.
    let data = [0x30, 0x03, 0x02, 0x05, 0x01, 0x02, 0x03, 0x04, 0x05];
    let (r, dumper) = decode_one(&data, Config::default());
    assert_eq!(r, Err(DecodeError::ChildOverrunsParent));
    assert_eq!(dumper.no_errors, 1);
    assert_eq!(dumper.f_pos, 4);
}

#[test]
fn asn1_payload_cut_short_is_truncated() {
    let (r, _) = decode_one(&[0x04, 0x05, 0x48, 0x65], Config::default());
    assert_eq!(r, Err(DecodeError::Truncated));
    let (r, _) = decode_one(&[0x30, 0x05, 0x02, 0x01], Config::default());
    assert_eq!(r, Err(DecodeError::Truncated));
}

#[test]
fn asn1_header_cut_short_is_truncated() {
    let mut dumper = Asn1Dumper::new(Config::default());
    assert_eq!(dumper.get_item(&[0x02]), Err(DecodeError::Truncated));
    assert_eq!(dumper.f_pos, 0);
    assert_eq!(dumper.get_item(&[0x02, 0x82, 0x01]), Err(DecodeError::Truncated));
    assert_eq!(dumper.get_item(&[0x1F, 0x81]), Err(DecodeError::Truncated));
    assert_eq!(dumper.get_item(&[]), Ok(None));
}

#[test]
fn asn1_long_tags_and_lengths() {
    let mut dumper = Asn1Dumper::new(Config::default());
    let item = dumper.get_item(&[0x5F, 0x81, 0x01, 0x00]).unwrap().unwrap();
    assert_eq!(item.tag, 129);
    assert_eq!(item.id, 0x40);
    assert_eq!(item.header_size, 4);
    assert_eq!(item.header, vec![0x5F, 0x81, 0x01, 0x00]);
    assert_eq!(dumper.f_pos, 4);

    let mut dumper = Asn1Dumper::new(Config::default());
    let item = dumper.get_item(&[0x1F, 0xFF, 0xFF, 0xFF, 0x7F, 0x00]).unwrap().unwrap();
    assert_eq!(item.tag, 0x0FFF_FFFF);

    let mut dumper = Asn1Dumper::new(Config::default());
    assert_eq!(
        dumper.get_item(&[0x1F, 0xFF, 0xFF, 0xFF, 0xFF, 0x7F, 0x00]),
        Err(DecodeError::TagTooLong)
    );

    let mut dumper = Asn1Dumper::new(Config::default());
    assert_eq!(
        dumper.get_item(&[0x04, 0x85, 0, 0, 0, 0, 1]),
        Err(DecodeError::LengthTooLong)
    );

    let mut dumper = Asn1Dumper::new(Config::default());
    let item = dumper.get_item(&[0x04, 0x84, 0x01, 0x02, 0x03, 0x04]).unwrap().unwrap();
    assert_eq!(item.length, 0x0102_0304);
    assert!(!item.non_canonical);
}

#[test]
fn asn1_non_canonical_length_is_flagged_and_counted() {
    let data = [0x04, 0x81, 0x01, 0x61];
    let (r, dumper) = decode_one(&data, Config::default());
    let unit = r.unwrap().unwrap();
    assert!(unit.header.non_canonical);
    assert_eq!(unit.value, Asn1Value::OctetString(vec![0x61]));
    assert_eq!(dumper.no_warnings, 1);

    let mut quiet = Config::default();
    quiet.warn_non_canonical = false;
    let (_, dumper) = decode_one(&data, quiet);
    assert_eq!(dumper.no_warnings, 0);
}

#[test]
fn asn1_indefinite_container_ends_at_marker() {
    // SEQUENCE (indefinite) { INTEGER 1, INTEGER 2 } EOC, then NULL
    let data = [0x30, 0x80, 0x02, 0x01, 0x01, 0x02, 0x01, 0x02, 0x00, 0x00, 0x05, 0x00];
    let mut dumper = Asn1Dumper::new(Config::default());
    let unit = dumper.read_unit(&data).unwrap().unwrap();
    assert!(unit.header.indefinite);
    assert_eq!(unit.end, 10);
    match unit.value {
        Asn1Value::Constructed(children) => {
            assert_eq!(children.len(), 2);
            assert_eq!(children[1].value, Asn1Value::Integer(2));
        }
        other => panic!("unexpected value {:?}", other),
    }
    let next = dumper.read_unit(&data).unwrap().unwrap();
    assert_eq!(next.value, Asn1Value::Null);
    assert_eq!(dumper.read_unit(&data), Ok(None));
}

#[test]
fn asn1_indefinite_container_without_marker_is_truncated() {
    let data = [0x30, 0x80, 0x02, 0x01, 0x01, 0x02, 0x01, 0x02, 0x05, 0x00];
    let (r, dumper) = decode_one(&data, Config::default());
    assert_eq!(r, Err(DecodeError::Truncated));
    assert_eq!(dumper.f_pos, 10);
}

#[test]
fn asn1_nesting_beyond_the_limit_is_left_undecoded() {
    // SEQUENCE { SEQUENCE { SEQUENCE { INTEGER 1 } } }
    let data = [0x30, 0x07, 0x30, 0x05, 0x30, 0x03, 0x02, 0x01, 0x01];
    let mut config = Config::default();
    config.max_nest_level = 1;
    let (r, dumper) = decode_one(&data, config);
    let unit = r.unwrap().unwrap();
    assert_eq!(dumper.f_pos, 9);
    assert_eq!(dumper.no_errors, 0);
    let level1 = match unit.value {
        Asn1Value::Constructed(c) => c,
        other => panic!("unexpected value {:?}", other),
    };
    assert_eq!(level1.len(), 1);
    let level2 = match &level1[0].value {
        Asn1Value::Constructed(c) => c,
        other => panic!("unexpected value {:?}", other),
    };
    assert_eq!(level2.len(), 1);
    assert_eq!(level2[0].value, Asn1Value::NestingExceeded);
    assert_eq!(level2[0].offset, 4);
    assert_eq!(level2[0].end, 9);

    config.skip_beyond_max_nest = false;
    let (r, _) = decode_one(&data, config);
    let text = format!("{:?}", r.unwrap().unwrap());
    assert!(text.contains("Integer(1)"));
}

#[test]
fn asn1_dump_reads_every_outermost_unit() {
    let data = [0x02, 0x01, 0x01, 0x05, 0x00, 0x30, 0x00];
    let mut dumper = Asn1Dumper::new(Config::default());
    let dump = dumper.dump_asn1(&data);
    assert_eq!(dump.failure, None);
    assert_eq!(dump.units.len(), 3);
    assert_eq!(dump.units[2].value, Asn1Value::Constructed(vec![]));
    assert_eq!(dumper.f_pos, 7);
}

#[test]
fn asn1_dump_stops_at_the_first_failure() {
    let data = [0x02, 0x01, 0x01, 0x04, 0x05, 0x00];
    let mut dumper = Asn1Dumper::new(Config::default());
    let dump = dumper.dump_asn1(&data);
    assert_eq!(dump.failure, Some(DecodeError::Truncated));
    assert_eq!(dump.units.len(), 1);
    assert_eq!(dumper.no_errors, 1);
    assert_eq!(dumper.f_pos, 5);
}

#[test]
fn asn1_tag_names() {
    let dumper = Asn1Dumper::new(Config::default());
    assert_eq!(dumper.tag_name(0x10), "SEQUENCE");
    assert_eq!(dumper.tag_name(0x06), "OBJECT IDENTIFIER");
    assert_eq!(dumper.tag_name(0x00), "End-of-contents octets");
    assert_eq!(dumper.tag_name(0x1D), "Unknown");
    assert_eq!(dumper.tag_name(300), "Unknown");
}

#[test]
fn asn1_default_options() {
    let config = Config::default();
    assert_eq!(config.max_nest_level, 100);
    assert_eq!(config.max_bytes_display, 384);
    assert_eq!(config.output_width, 80);
    assert!(config.check_charset);
    assert!(!config.zero_length_allowed);
}

#[test]
fn asn1_messages() {
    assert_eq!(DecodeError::LengthTooLong.message(), "Length too long");
    assert!(DecodeError::DanglingMapKey.is_recoverable());
    assert!(!DecodeError::Truncated.is_recoverable());
}

#[test]
fn asn1_counts_and_position_are_exposed() {
    // OCTET STRING with a long-form length, an unknown tag, a UTF8String that is
    // not UTF-8, then a header without its payload.
    let data = [0x04, 0x81, 0x01, 0x61, 0x09, 0x00, 0x0C, 0x01, 0xFF, 0x02, 0x05];
    let mut dumper = Asn1Dumper::new(Config::default());
    let dump = dumper.dump_asn1(&data);
    assert_eq!(dump.units.len(), 3);
    assert_eq!(dump.failure, Some(DecodeError::Truncated));
    assert_eq!(dumper.warning_count(), 2);
    assert_eq!(dumper.error_count(), 2);
    assert_eq!(dumper.position(), 11);
}

#[test]
fn asn1_stray_end_of_contents_is_a_unit() {
    let data = [0x00, 0x00, 0x30, 0x02, 0x00, 0x00];
    let mut dumper = Asn1Dumper::new(Config::default());
    let dump = dumper.dump_asn1(&data);
    assert_eq!(dump.failure, None);
    assert_eq!(dump.units[0].value, Asn1Value::EndOfContents);
    match &dump.units[1].value {
        Asn1Value::Constructed(children) => {
            assert_eq!(children.len(), 1);
            assert_eq!(children[0].value, Asn1Value::EndOfContents);
        }
        other => panic!("unexpected value {:?}", other),
    }
    assert_eq!(dumper.warning_count(), 0);
}

#[test]
fn asn1_nested_indefinite_containers() {
    // SEQUENCE(indef) { SET(indef) { NULL } EOC, INTEGER 7 } EOC
    let data = [0x30, 0x80, 0x31, 0x80, 0x05, 0x00, 0x00, 0x00, 0x02, 0x01, 0x07, 0x00, 0x00];
    let unit = decode_one(&data, Config::default()).0.unwrap().unwrap();
    assert_eq!(unit.end, 13);
    match unit.value {
        Asn1Value::Constructed(children) => {
            assert_eq!(children.len(), 2);
            assert_eq!(children[0].end, 8);
            assert_eq!(children[1].value, Asn1Value::Integer(7));
        }
        other => panic!("unexpected value {:?}", other),
    }
}

#[test]
fn asn1_indefinite_child_may_not_pass_its_parent() {
    // SEQUENCE of length 4 { SEQUENCE(indef) { NULL ... the marker lies outside
    let data = [0x30, 0x04, 0x30, 0x80, 0x05, 0x00, 0x00, 0x00];
    let (r, dumper) = decode_one(&data, Config::default());
    assert_eq!(r, Err(DecodeError::ChildOverrunsParent));
    assert_eq!(dumper.position(), 6);
}

#[test]
fn asn1_empty_values_where_allowed() {
    let mut config = Config::default();
    config.zero_length_allowed = true;
    assert_eq!(
        decode_one(&[0x02, 0x00], config).0.unwrap().unwrap().value,
        Asn1Value::Integer(0)
    );
    assert_eq!(
        decode_one(&[0x03, 0x00], config).0.unwrap().unwrap().value,
        Asn1Value::BitString { unused_bits: 0, data: vec![] }
    );
    config.zero_length_allowed = false;
    let (r, dumper) = decode_one(&[0x30, 0x04, 0x02, 0x00, 0x03, 0x00], config);
    match r.unwrap().unwrap().value {
        Asn1Value::Constructed(children) => {
            assert_eq!(children[0].value, Asn1Value::ZeroLength);
            assert_eq!(children[1].value, Asn1Value::ZeroLength);
        }
        other => panic!("unexpected value {:?}", other),
    }
    assert_eq!(dumper.error_count(), 2);
}

#[test]
fn asn1_values_of_odd_length_are_opaque() {
    let (r, dumper) = decode_one(&[0x01, 0x02, 0x00, 0x01], Config::default());
    assert_eq!(r.unwrap().unwrap().value, Asn1Value::Opaque(vec![0, 1]));
    assert_eq!(dumper.warning_count(), 1);
    let (r, _) = decode_one(&[0x05, 0x01, 0x00], Config::default());
    assert_eq!(r.unwrap().unwrap().value, Asn1Value::Opaque(vec![0]));
}

#[test]
fn asn1_cut_units_end_where_they_end() {
    // SEQ(indef) { SEQ(indef) { SEQ(indef) { NULL } EOC, INTEGER 1 } EOC, INTEGER 2 } EOC
    let data = [
        0x30, 0x80, 0x30, 0x80, 0x30, 0x80, 0x05, 0x00, 0x00, 0x00, 0x02, 0x01, 0x01, 0x00, 0x00,
        0x02, 0x01, 0x02, 0x00, 0x00,
    ];
    let mut config = Config::default();
    config.max_nest_level = 1;
    let (r, dumper) = decode_one(&data, config);
    let unit = r.unwrap().unwrap();
    assert_eq!(dumper.f_pos, 20);
    assert_eq!(dumper.no_errors, 0);
    let outer = match unit.value {
        Asn1Value::Constructed(c) => c,
        other => panic!("unexpected value {:?}", other),
    };
    assert_eq!(outer.len(), 2);
    assert_eq!(outer[1].value, Asn1Value::Integer(2));
    assert_eq!((outer[0].offset, outer[0].end), (2, 15));
    let middle = match &outer[0].value {
        Asn1Value::Constructed(c) => c,
        other => panic!("unexpected value {:?}", other),
    };
    assert_eq!(middle.len(), 2);
    assert_eq!(middle[0].value, Asn1Value::NestingExceeded);
    assert_eq!((middle[0].offset, middle[0].end), (4, 10));
    assert_eq!(middle[1].value, Asn1Value::NestingExceeded);
    assert_eq!((middle[1].offset, middle[1].end), (10, 13));
}

#[test]
fn asn1_cut_unit_that_does_not_end_is_truncated() {
    let data = [0x30, 0x80, 0x30, 0x80, 0x05, 0x00];
    let mut config = Config::default();
    config.max_nest_level = 0;
    let (r, dumper) = decode_one(&data, config);
    assert_eq!(r, Err(DecodeError::Truncated));
    assert_eq!(dumper.f_pos, 6);
}
