use bindump::cbor::config::Config;
use bindump::cbor::dumper::{last_failure, CborDumper, CborEntry};
use bindump::cbor::float::f16_to_f32;
use bindump::cbor::head::{read_head, CborHead};
use bindump::cbor::value::{CborItem, CborValue};
use bindump::cbor::decode::decode_value;
use bindump::error::DecodeError;

fn read(data: &[u8]) -> (Result<Option<CborItem>, DecodeError>, CborDumper) {
    let mut dumper = CborDumper::new(Config::default());
    let r = dumper.read_item(data);
    (r, dumper)
}

fn value_of(data: &[u8]) -> CborValue {
    read(data).0.unwrap().unwrap().value
}

#[test]
fn cbor_integers() {
    assert_eq!(value_of(&[0x00]), CborValue::Unsigned(0));
    assert_eq!(value_of(&[0x17]), CborValue::Unsigned(23));
    assert_eq!(value_of(&[0x18, 0x2A]), CborValue::Unsigned(42));
    assert_eq!(value_of(&[0x19, 0x01, 0x00]), CborValue::Unsigned(256));
    assert_eq!(value_of(&[0x1A, 0x00, 0x0F, 0x42, 0x40]), CborValue::Unsigned(1_000_000));
    assert_eq!(
        value_of(&[0x1B, 0xFF, 0xFF, 0xFF, 0xFF, 0xFF, 0xFF, 0xFF, 0xFF]),
        CborValue::Unsigned(u64::MAX)
    );
    assert_eq!(value_of(&[0x20]), CborValue::Negative(-1));
    assert_eq!(value_of(&[0x38, 0x63]), CborValue::Negative(-100));
    assert_eq!(
        value_of(&[0x3B, 0xFF, 0xFF, 0xFF, 0xFF, 0xFF, 0xFF, 0xFF, 0xFF]),
        CborValue::Negative(-18446744073709551616i128)
    );
}

#[test]
fn cbor_item_records_where_it_was_read() {
    let item = read(&[0x19, 0x01, 0x00]).0.unwrap().unwrap();
    assert_eq!(item.major_type, 0);
    assert_eq!(item.additional_info, 25);
    assert_eq!(item.raw_bytes, vec![0x19, 0x01, 0x00]);
    assert_eq!(item.offset, 0);
    assert_eq!(item.end, 3);
}

#[test]
fn cbor_strings() {
    assert_eq!(
        value_of(&[0x44, 0x01, 0x02, 0x03, 0x04]),
        CborValue::Bytes(vec![1, 2, 3, 4])
    );
    assert_eq!(
        value_of(&[0x64, 0x74, 0x65, 0x73, 0x74]),
        CborValue::Text("test".to_string())
    );
    assert_eq!(value_of(&[0x40]), CborValue::Bytes(vec![]));
    assert_eq!(value_of(&[0x60]), CborValue::Text(String::new()));
    assert_eq!(value_of(&[0x62, 0xC3, 0xBC]), CborValue::Text("\u{fc}".to_string()));
}

#[test]
fn cbor_string_cut_short_is_truncated() {
    let (r, dumper) = read(&[0x44, 0x01, 0x02]);
    assert_eq!(r, Err(DecodeError::Truncated));
    assert_eq!(dumper.offset, 1);
    assert_eq!(dumper.no_errors, 1);
    assert_eq!(read(&[0x19, 0x01]).0, Err(DecodeError::Truncated));
    assert_eq!(
        read(&[0x5B, 0xFF, 0xFF, 0xFF, 0xFF, 0xFF, 0xFF, 0xFF, 0xFF, 0x00]).0,
        Err(DecodeError::Truncated)
    );
}

#[test]
fn cbor_indefinite_byte_string_joins_its_chunks() {
    let (r, dumper) = read(&[0x5F, 0x41, 0x01, 0x41, 0x02, 0xFF]);
    assert_eq!(r.unwrap().unwrap().value, CborValue::Bytes(vec![1, 2]));
    assert_eq!(dumper.offset, 6);
    assert_eq!(dumper.no_errors, 0);
}

#[test]
fn cbor_indefinite_text_string_joins_its_chunks() {
    assert_eq!(
        value_of(&[0x7F, 0x62, 0x61, 0x62, 0x61, 0x63, 0xFF]),
        CborValue::Text("abc".to_string())
    );
}

#[test]
fn cbor_chunk_of_another_type() {
    let (r, dumper) = read(&[0x5F, 0x41, 0x01, 0x61, 0x61, 0xFF]);
    assert_eq!(r, Err(DecodeError::ChunkTypeMismatch));
    assert_eq!(dumper.offset, 3);
    assert_eq!(dumper.no_errors, 1);
    assert_eq!(read(&[0x7F, 0x01, 0xFF]).0, Err(DecodeError::ChunkTypeMismatch));
}

#[test]
fn cbor_nested_indefinite_chunk() {
    let (r, dumper) = read(&[0x5F, 0x5F, 0x41, 0x01, 0xFF, 0xFF]);
    assert_eq!(r, Err(DecodeError::NestedIndefiniteChunk));
    assert_eq!(dumper.offset, 1);
}

#[test]
fn cbor_indefinite_string_without_break_is_truncated() {
    let (r, dumper) = read(&[0x5F, 0x41, 0x01, 0x41, 0x02]);
    assert_eq!(r, Err(DecodeError::Truncated));
    assert_eq!(dumper.offset, 5);
}

#[test]
fn cbor_arrays() {
    match value_of(&[0x83, 0x01, 0x02, 0x03]) {
        CborValue::Array(items) => {
            assert_eq!(items.len(), 3);
            assert_eq!(items[0].value, CborValue::Unsigned(1));
            assert_eq!(items[2].value, CborValue::Unsigned(3));
            assert_eq!(items[2].offset, 3);
            assert_eq!(items[2].end, 4);
        }
        other => panic!("unexpected value {:?}", other),
    }
    assert_eq!(value_of(&[0x80]), CborValue::Array(vec![]));
    match value_of(&[0x9F, 0x01, 0x82, 0x02, 0x03, 0xFF]) {
        CborValue::Array(items) => {
            assert_eq!(items.len(), 2);
            match &items[1].value {
                CborValue::Array(inner) => assert_eq!(inner.len(), 2),
                other => panic!("unexpected value {:?}", other),
            }
        }
        other => panic!("unexpected value {:?}", other),
    }
    assert_eq!(value_of(&[0x9F, 0xFF]), CborValue::Array(vec![]));
}

#[test]
fn cbor_array_cut_short_is_truncated() {
    assert_eq!(read(&[0x83, 0x01, 0x02]).0, Err(DecodeError::Truncated));
    assert_eq!(read(&[0x9F, 0x01, 0x02]).0, Err(DecodeError::Truncated));
    assert_eq!(read(&[0x81]).0, Err(DecodeError::Truncated));
    assert_eq!(read(&[0x9F]).0, Err(DecodeError::Truncated));
}

#[test]
fn cbor_maps() {
    match value_of(&[0xA1, 0x61, 0x61, 0x01]) {
        CborValue::Pairs(pairs) => {
            assert_eq!(pairs.len(), 1);
            assert_eq!(pairs[0].0.value, CborValue::Text("a".to_string()));
            assert_eq!(pairs[0].1.value, CborValue::Unsigned(1));
        }
        other => panic!("unexpected value {:?}", other),
    }
    match value_of(&[0xBF, 0x01, 0x02, 0x03, 0x04, 0xFF]) {
        CborValue::Pairs(pairs) => {
            assert_eq!(pairs.len(), 2);
            assert_eq!(pairs[1].0.value, CborValue::Unsigned(3));
            assert_eq!(pairs[1].1.value, CborValue::Unsigned(4));
        }
        other => panic!("unexpected value {:?}", other),
    }
    assert_eq!(value_of(&[0xA0]), CborValue::Pairs(vec![]));
    assert_eq!(value_of(&[0xBF, 0xFF]), CborValue::Pairs(vec![]));
    assert_eq!(read(&[0xA1, 0x01]).0, Err(DecodeError::Truncated));
    assert_eq!(read(&[0xA1]).0, Err(DecodeError::Truncated));
}

#[test]
fn cbor_key_without_value() {
    let (r, dumper) = read(&[0xBF, 0x01, 0x02, 0x03, 0xFF, 0x05]);
    assert_eq!(r, Err(DecodeError::DanglingMapKey));
    assert_eq!(dumper.offset, 5);
    assert_eq!(dumper.no_errors, 1);
}

#[test]
fn cbor_tags() {
    match value_of(&[0xC1, 0x01]) {
        CborValue::Tag(number, item) => {
            assert_eq!(number, 1);
            assert_eq!(item.value, CborValue::Unsigned(1));
            assert_eq!(item.offset, 1);
        }
        other => panic!("unexpected value {:?}", other),
    }
    assert_eq!(read(&[0xC1]).0, Err(DecodeError::Truncated));
    let dumper = CborDumper::new(Config::default());
    assert_eq!(dumper.tag_name(0), Some("date/time string"));
    assert_eq!(dumper.tag_name(55799), Some("self-describe CBOR"));
    assert_eq!(dumper.tag_name(6), None);
}

#[test]
fn cbor_simple_values_and_floats() {
    assert_eq!(value_of(&[0xF4]), CborValue::Boolean(false));
    assert_eq!(value_of(&[0xF5]), CborValue::Boolean(true));
    assert_eq!(value_of(&[0xF6]), CborValue::Null);
    assert_eq!(value_of(&[0xF7]), CborValue::Undefined);
    assert_eq!(value_of(&[0xFF]), CborValue::Break);
    assert_eq!(value_of(&[0xF9, 0x3C, 0x00]), CborValue::Float16(0x3F80_0000));
    assert_eq!(
        value_of(&[0xFA, 0x47, 0xC3, 0x50, 0x00]),
        CborValue::Float32(0x47C3_5000)
    );
    assert_eq!(
        value_of(&[0xFB, 0x3F, 0xF1, 0x99, 0x99, 0x99, 0x99, 0x99, 0x9A]),
        CborValue::Float64(0x3FF1_9999_9999_999A)
    );
    let (r, dumper) = read(&[0xF0]);
    assert_eq!(r.unwrap().unwrap().value, CborValue::Simple(16));
    assert_eq!(dumper.no_warnings, 1);
    assert_eq!(value_of(&[0xF8, 0xFF]), CborValue::Simple(255));
}

#[test]
fn cbor_half_precision_widening() {
    assert_eq!(f32::from_bits(f16_to_f32(0x3C00)), 1.0);
    assert_eq!(f32::from_bits(f16_to_f32(0xC000)), -2.0);
    assert_eq!(f32::from_bits(f16_to_f32(0x7BFF)), 65504.0);
    assert_eq!(f16_to_f32(0x0000), 0x0000_0000);
    assert_eq!(f16_to_f32(0x8000), 0x8000_0000);
    assert_eq!(f32::from_bits(f16_to_f32(0x7C00)), f32::INFINITY);
    assert_eq!(f32::from_bits(f16_to_f32(0xFC00)), f32::NEG_INFINITY);
    assert!(f32::from_bits(f16_to_f32(0x7E00)).is_nan());
    assert_eq!(f16_to_f32(0x7E00), 0x7FC0_0000);
    assert_eq!(f16_to_f32(0x0001), 0x3380_0000);
    assert_eq!(f16_to_f32(0x8001), 0xB380_0000);
    assert_eq!(f16_to_f32(0x03FF), 0x387F_C000);
    assert_eq!(f16_to_f32(0x0200), 0x3800_0000);
    assert_eq!(f16_to_f32(0x0400), 0x3880_0000);
    assert_eq!(f16_to_f32(0x3555), 0x3EAA_A000);
}

#[test]
fn cbor_invalid_heads() {
    assert_eq!(read(&[0x1C]).0, Err(DecodeError::InvalidAdditionalInfo));
    assert_eq!(read(&[0x1F]).0, Err(DecodeError::InvalidAdditionalInfo));
    assert_eq!(read(&[0x3F]).0, Err(DecodeError::InvalidAdditionalInfo));
    assert_eq!(read(&[0xDF]).0, Err(DecodeError::InvalidAdditionalInfo));
    assert_eq!(read(&[0xFC]).0, Err(DecodeError::InvalidAdditionalInfo));
    assert_eq!(read_head(&[0x5F], 0), Ok(Some(CborHead {
        major_type: 2,
        additional_info: 31,
        argument: 0,
        size: 1,
    })));
    assert_eq!(read_head(&[0x5F], 1), Ok(None));
    let config = Config::default();
    let bad = CborHead { major_type: 9, additional_info: 0, argument: 0, size: 1 };
    assert_eq!(decode_value(&[], &bad, 0, 0, &config).0, Err(DecodeError::InvalidMajorType));
    let bad = CborHead { major_type: 0, additional_info: 40, argument: 0, size: 1 };
    assert_eq!(decode_value(&[], &bad, 0, 0, &config).0, Err(DecodeError::InvalidAdditionalInfo));
}

#[test]
fn cbor_read_additional_by_width() {
    let data = [0xAA, 0x01, 0x02, 0x03, 0x04, 0x05, 0x06, 0x07, 0x08];
    let mut dumper = CborDumper::new(Config::default());
    dumper.offset = 1;
    assert_eq!(dumper.read_additional(&data, 5), Ok(5));
    assert_eq!(dumper.offset, 1);
    assert_eq!(dumper.read_additional(&data, 24), Ok(0x01));
    assert_eq!(dumper.offset, 2);
    assert_eq!(dumper.read_additional(&data, 25), Ok(0x0203));
    assert_eq!(dumper.offset, 4);
    assert_eq!(dumper.read_additional(&data, 26), Ok(0x0405_0607));
    assert_eq!(dumper.offset, 8);
    assert_eq!(dumper.read_additional(&data, 27), Err(DecodeError::Truncated));
    assert_eq!(dumper.offset, 8);
    assert_eq!(dumper.read_additional(&data, 31), Ok(u64::MAX));
    assert_eq!(dumper.read_additional(&data, 28), Err(DecodeError::InvalidAdditionalInfo));
    dumper.offset = 1;
    assert_eq!(dumper.read_additional(&data, 27), Ok(0x0102_0304_0506_0708));
    assert_eq!(dumper.offset, 9);
}

#[test]
fn cbor_malformed_text_counts_and_siblings_still_decode() {
    let data = [0x83, 0x62, 0xFF, 0xFE, 0x01, 0x61, 0x61];
    let (r, dumper) = read(&data);
    match r.unwrap().unwrap().value {
        CborValue::Array(items) => {
            assert_eq!(items[0].value, CborValue::InvalidText(vec![0xFF, 0xFE]));
            assert_eq!(items[1].value, CborValue::Unsigned(1));
            assert_eq!(items[2].value, CborValue::Text("a".to_string()));
        }
        other => panic!("unexpected value {:?}", other),
    }
    assert_eq!(dumper.no_errors, 1);
    assert_eq!(dumper.no_warnings, 0);
    assert_eq!(dumper.offset, 7);
}

#[test]
fn cbor_nesting_beyond_the_limit_is_left_undecoded() {
    // [[ [1], h'0102' ]]
    let data = [0x81, 0x82, 0x81, 0x01, 0x42, 0x01, 0x02];
    let mut config = Config::default();
    config.max_nest_level = 1;
    let mut dumper = CborDumper::new(config);
    let item = dumper.read_item(&data).unwrap().unwrap();
    assert_eq!(dumper.no_errors, 0);
    let level1 = match item.value {
        CborValue::Array(items) => items,
        other => panic!("unexpected value {:?}", other),
    };
    let level2 = match &level1[0].value {
        CborValue::Array(items) => items,
        other => panic!("unexpected value {:?}", other),
    };
    assert_eq!(level2.len(), 2);
    assert_eq!(level2[0].value, CborValue::NestingExceeded);
    assert_eq!(level2[0].offset, 2);
    assert_eq!(level2[0].end, 4);
    assert_eq!(level2[1].value, CborValue::NestingExceeded);
    assert_eq!(level2[1].offset, 4);
    assert_eq!(level2[1].end, 7);
    assert_eq!(dumper.offset, 7);

    let mut config = Config::default();
    config.max_nest_level = 0;
    let mut dumper = CborDumper::new(config);
    let data = [0x81, 0x42, 0x01, 0x02, 0x05];
    let item = dumper.read_item(&data).unwrap().unwrap();
    match item.value {
        CborValue::Array(items) => {
            assert_eq!(items[0].value, CborValue::NestingExceeded);
            assert_eq!(items[0].end, 4);
        }
        other => panic!("unexpected value {:?}", other),
    }
    assert_eq!(dumper.offset, 4);
    assert_eq!(dumper.read_item(&data).unwrap().unwrap().value, CborValue::Unsigned(5));
}

#[test]
fn cbor_dump_reads_every_outermost_item() {
    let data = [0x01, 0x61, 0x61, 0x80];
    let mut dumper = CborDumper::new(Config::default());
    let entries = dumper.dump_cbor(&data);
    assert_eq!(entries.len(), 3);
    match &entries[1] {
        CborEntry::Item(item) => assert_eq!(item.value, CborValue::Text("a".to_string())),
        other => panic!("unexpected entry {:?}", other),
    }
    assert_eq!(dumper.offset, 4);
    assert_eq!(dumper.no_errors, 0);
}

#[test]
fn cbor_dump_goes_on_after_a_failure_that_keeps_step() {
    let data = [0xBF, 0x01, 0xFF, 0x02, 0x5F, 0x61, 0x61, 0xFF];
    let mut dumper = CborDumper::new(Config::default());
    let entries = dumper.dump_cbor(&data);
    assert_eq!(entries.len(), 5);
    assert_eq!(entries[0], CborEntry::Failure(DecodeError::DanglingMapKey, 3));
    match &entries[1] {
        CborEntry::Item(item) => assert_eq!(item.value, CborValue::Unsigned(2)),
        other => panic!("unexpected entry {:?}", other),
    }
    assert_eq!(entries[2], CborEntry::Failure(DecodeError::ChunkTypeMismatch, 5));
    match &entries[3] {
        CborEntry::Item(item) => assert_eq!(item.value, CborValue::Text("a".to_string())),
        other => panic!("unexpected entry {:?}", other),
    }
    match &entries[4] {
        CborEntry::Item(item) => assert_eq!(item.value, CborValue::Break),
        other => panic!("unexpected entry {:?}", other),
    }
    assert_eq!(dumper.no_errors, 2);
    assert_eq!(dumper.offset, 8);
}

#[test]
fn cbor_dump_stops_at_a_failure_that_loses_step() {
    let data = [0x01, 0x1C, 0x02];
    let mut dumper = CborDumper::new(Config::default());
    let entries = dumper.dump_cbor(&data);
    assert_eq!(entries.len(), 2);
    assert_eq!(entries[1], CborEntry::Failure(DecodeError::InvalidAdditionalInfo, 1));
    assert_eq!(dumper.no_errors, 1);
}

#[test]
fn cbor_new_item_is_detached() {
    let item = CborItem::new(0, 5, CborValue::Unsigned(5));
    assert_eq!(item.major_type, 0);
    assert_eq!(item.additional_info, 5);
    assert!(item.raw_bytes.is_empty());
    assert_eq!(item.offset, 0);
    assert_eq!(item.end, 0);
}

#[test]
fn cbor_default_options() {
    let config = Config::default();
    assert_eq!(config.max_bytes_display, 384);
    assert_eq!(config.max_nest_level, 100);
    assert!(config.show_types);
    assert!(config.decode_nested);
    assert!(!config.print_hex);
}

#[test]
fn cbor_counts_and_position_are_exposed() {
    let data = [0xF0, 0x62, 0xFF, 0xFE, 0xE3, 0x44, 0x01];
    let mut dumper = CborDumper::new(Config::default());
    let entries = dumper.dump_cbor(&data);
    assert_eq!(entries.len(), 4);
    assert_eq!(entries[3], CborEntry::Failure(DecodeError::Truncated, 6));
    assert_eq!(dumper.warning_count(), 2);
    assert_eq!(dumper.error_count(), 2);
    assert_eq!(dumper.position(), 6);
}

#[test]
fn cbor_break_outside_a_run_is_an_item() {
    match value_of(&[0x82, 0xFF, 0x01]) {
        CborValue::Array(items) => {
            assert_eq!(items[0].value, CborValue::Break);
            assert_eq!(items[1].value, CborValue::Unsigned(1));
        }
        other => panic!("unexpected value {:?}", other),
    }
}

#[test]
fn cbor_array_count_need_not_be_its_length_in_bytes() {
    let item = read(&[0x82, 0x18, 0x2A, 0x01]).0.unwrap().unwrap();
    assert_eq!(item.end - item.offset - item.raw_bytes.len(), 3);
    match item.value {
        CborValue::Array(items) => assert_eq!(items.len(), 2),
        other => panic!("unexpected value {:?}", other),
    }
}

#[test]
fn cbor_last_failure_of_a_dump() {
    let mut dumper = CborDumper::new(Config::default());
    let entries = dumper.dump_cbor(&[0x01, 0x44, 0x01]);
    assert_eq!(last_failure(&entries), Some((DecodeError::Truncated, 2)));
    let mut dumper = CborDumper::new(Config::default());
    let entries = dumper.dump_cbor(&[0xBF, 0x01, 0xFF, 0x02]);
    assert_eq!(entries.len(), 2);
    assert_eq!(last_failure(&entries), None);
    assert_eq!(last_failure(&Vec::new()), None);
}

#[test]
fn cbor_half_precision_subnormals_keep_their_value() {
    let unit = (2.0f32).powi(-24);
    for m in 1u16..0x400 {
        assert_eq!(f32::from_bits(f16_to_f32(m)), m as f32 * unit);
        assert_eq!(f32::from_bits(f16_to_f32(0x8000 | m)), -(m as f32) * unit);
    }
    assert_eq!(value_of(&[0xF9, 0x00, 0x01]), CborValue::Float16(0x3380_0000));
}

#[test]
fn cbor_half_precision_keeps_every_number() {
    for bits in 0u16..=0xFFFF {
        let wide = f32::from_bits(f16_to_f32(bits));
        let negative = bits & 0x8000 != 0;
        let exponent = ((bits >> 10) & 0x1F) as i32;
        let fraction = (bits & 0x3FF) as f32;
        assert_eq!(wide.is_sign_negative(), negative);
        if exponent == 31 {
            if fraction == 0.0 {
                assert!(wide.is_infinite());
            } else {
                assert!(wide.is_nan());
                assert_eq!(f16_to_f32(bits) & 0x7F_FFFF, ((bits & 0x3FF) as u32) << 13);
            }
        } else {
            let magnitude = if exponent == 0 {
                fraction * (2.0f32).powi(-24)
            } else {
                (1024.0 + fraction) * (2.0f32).powi(exponent - 25)
            };
            assert_eq!(wide.abs(), magnitude);
        }
    }
}

#[test]
fn cbor_cut_items_end_where_they_end() {
    // [[[1], 2], 3]
    let data = [0x82, 0x82, 0x81, 0x01, 0x02, 0x03];
    let mut config = Config::default();
    config.max_nest_level = 1;
    let mut dumper = CborDumper::new(config);
    let item = dumper.read_item(&data).unwrap().unwrap();
    assert_eq!(dumper.offset, 6);
    assert_eq!(dumper.read_item(&data), Ok(None));
    let outer = match item.value {
        CborValue::Array(items) => items,
        other => panic!("unexpected value {:?}", other),
    };
    assert_eq!(outer.len(), 2);
    assert_eq!(outer[1].value, CborValue::Unsigned(3));
    assert_eq!(outer[1].offset, 5);
    let inner = match &outer[0].value {
        CborValue::Array(items) => items,
        other => panic!("unexpected value {:?}", other),
    };
    assert_eq!(inner.len(), 2);
    assert_eq!(inner[0].value, CborValue::NestingExceeded);
    assert_eq!((inner[0].offset, inner[0].end), (2, 4));
    assert_eq!(inner[1].value, CborValue::NestingExceeded);
    assert_eq!((inner[1].offset, inner[1].end), (4, 5));
}

#[test]
fn cbor_cut_items_of_every_kind_are_walked() {
    // [ {_ 1: [_ 2, 3]}, (_ h'01', h'02'), 1(h'03'), 4 ] with nothing decoded
    // below the outermost array.
    let data = [
        0x84, 0xBF, 0x01, 0x9F, 0x02, 0x03, 0xFF, 0xFF, 0x5F, 0x41, 0x01, 0x41, 0x02, 0xFF, 0xC1,
        0x41, 0x03, 0x04,
    ];
    let mut config = Config::default();
    config.max_nest_level = 0;
    let mut dumper = CborDumper::new(config);
    let item = dumper.read_item(&data).unwrap().unwrap();
    assert_eq!(dumper.offset, 18);
    let items = match item.value {
        CborValue::Array(items) => items,
        other => panic!("unexpected value {:?}", other),
    };
    let spans: Vec<(usize, usize)> = items.iter().map(|i| (i.offset, i.end)).collect();
    assert_eq!(spans, vec![(1, 8), (8, 14), (14, 17), (17, 18)]);
    assert!(items.iter().all(|i| i.value == CborValue::NestingExceeded));
    assert_eq!(dumper.no_errors, 0);
    assert_eq!(dumper.no_warnings, 0);
}

#[test]
fn cbor_cut_item_that_does_not_end_is_truncated() {
    let data = [0x81, 0x9F, 0x01, 0x02];
    let mut config = Config::default();
    config.max_nest_level = 0;
    let mut dumper = CborDumper::new(config);
    assert_eq!(dumper.read_item(&data), Err(DecodeError::Truncated));
    assert_eq!(dumper.offset, 4);
}
