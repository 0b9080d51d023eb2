// Decoding arbitrary bytes: whatever the input, decoding ends, stays inside
// the input and places every unit where it was read.

use bindump::asn1::config::Config as Asn1Config;
use bindump::asn1::dumper::Asn1Dumper;
use bindump::asn1::value::{Asn1Unit, Asn1Value};
use bindump::cbor::config::Config as CborConfig;
use bindump::cbor::dumper::{CborDumper, CborEntry};
use bindump::cbor::value::{CborItem, CborValue};

struct Lcg(u64);

impl Lcg {
    fn next(&mut self) -> u64 {
        self.0 = self.0.wrapping_mul(6364136223846793005).wrapping_add(1442695040888963407);
        self.0 >> 33
    }

    fn bytes(&mut self, len: usize, favourites: &[u8]) -> Vec<u8> {
        (0..len)
            .map(|_| {
                let r = self.next();
                if r % 3 == 0 {
                    favourites[(r / 3) as usize % favourites.len()]
                } else {
                    (r >> 8) as u8
                }
            })
            .collect()
    }
}

fn check_unit(unit: &Asn1Unit, data: &[u8]) {
    let body = unit.offset + unit.header.header_size;
    assert!(unit.header.header_size >= 2);
    assert_eq!(unit.header.header, data[unit.offset..body].to_vec());
    assert!(body <= unit.end);
    assert!(unit.end <= data.len());
    if !unit.header.indefinite {
        assert_eq!(unit.end, body + unit.header.length as usize);
    }
    if let Asn1Value::Constructed(children) = &unit.value {
        let mut at = body;
        for child in children {
            assert_eq!(child.offset, at);
            check_unit(child, data);
            at = child.end;
        }
        if unit.header.indefinite {
            assert!(at + 2 <= unit.end);
        } else {
            assert_eq!(at, unit.end);
        }
    }
}

fn check_item(item: &CborItem, data: &[u8]) -> usize {
    let body = item.offset + item.raw_bytes.len();
    assert!(!item.raw_bytes.is_empty());
    assert_eq!(item.raw_bytes, data[item.offset..body].to_vec());
    assert!(body <= item.end);
    assert!(item.end <= data.len());
    let closing = if item.additional_info == 31 { 1 } else { 0 };
    match &item.value {
        CborValue::Array(items) => {
            let mut at = body;
            for child in items {
                assert_eq!(child.offset, at);
                at = check_item(child, data);
            }
            assert_eq!(at + closing, item.end);
        }
        CborValue::Pairs(pairs) => {
            let mut at = body;
            for (key, value) in pairs {
                assert_eq!(key.offset, at);
                at = check_item(key, data);
                assert_eq!(value.offset, at);
                at = check_item(value, data);
            }
            assert_eq!(at + closing, item.end);
        }
        CborValue::Tag(_, inner) => {
            assert_eq!(inner.offset, body);
            assert_eq!(check_item(inner, data), item.end);
        }
        CborValue::Bytes(bytes) if closing == 0 => assert_eq!(item.end, body + bytes.len()),
        CborValue::Text(text) if closing == 0 => assert_eq!(item.end, body + text.len()),
        CborValue::InvalidText(bytes) if closing == 0 => {
            assert_eq!(item.end, body + bytes.len())
        }
        CborValue::Bytes(bytes) => assert!(body + bytes.len() + 1 <= item.end),
        CborValue::Text(text) => assert!(body + text.len() + 1 <= item.end),
        CborValue::InvalidText(bytes) => assert!(body + bytes.len() + 1 <= item.end),
        CborValue::NestingExceeded => {}
        _ => assert_eq!(item.end, body),
    }
    item.end
}

#[test]
fn robustness_asn1_places_every_unit() {
    let mut rng = Lcg(1);
    let favourites = [0x30, 0x80, 0x00, 0x02, 0x01, 0x04, 0x31, 0x06, 0x0C, 0x03, 0x05, 0x81];
    for round in 0..3000 {
        let len = (rng.next() % 40) as usize;
        let data = rng.bytes(len, &favourites);
        let mut config = Asn1Config::default();
        config.max_nest_level = (round % 5) as usize;
        config.zero_length_allowed = round % 2 == 0;
        let mut dumper = Asn1Dumper::new(config);
        let dump = dumper.dump_asn1(&data);
        assert!(dumper.f_pos <= data.len());
        let mut at = 0;
        for unit in &dump.units {
            assert_eq!(unit.offset, at);
            check_unit(unit, &data);
            at = unit.end;
        }
        assert!(at <= dumper.f_pos);
        let mut open = config;
        open.skip_beyond_max_nest = false;
        let mut free = Asn1Dumper::new(open);
        let full = free.dump_asn1(&data);
        if full.failure.is_none() {
            assert_eq!(dump.failure, None);
            let ends: Vec<usize> = dump.units.iter().map(|u| u.end).collect();
            let full_ends: Vec<usize> = full.units.iter().map(|u| u.end).collect();
            assert_eq!(ends, full_ends);
        }
        if dump.failure.is_none() {
            assert_eq!(at, data.len());
        } else {
            assert!(dumper.no_errors >= 1);
        }
    }
}

#[test]
fn robustness_cbor_places_every_item() {
    let mut rng = Lcg(2);
    let favourites = [0x9F, 0xBF, 0xFF, 0x5F, 0x7F, 0x41, 0x61, 0x82, 0xA1, 0xC1, 0x01, 0xF9];
    for round in 0..3000 {
        let len = (rng.next() % 40) as usize;
        let data = rng.bytes(len, &favourites);
        let mut config = CborConfig::default();
        config.max_nest_level = (round % 5) as usize;
        let mut dumper = CborDumper::new(config);
        let entries = dumper.dump_cbor(&data);
        assert!(dumper.offset <= data.len());
        let mut failures = 0;
        let mut at = 0;
        for entry in &entries {
            match entry {
                CborEntry::Item(item) => {
                    assert!(item.offset >= at);
                    at = check_item(item, &data);
                }
                CborEntry::Failure(_, offset) => {
                    assert!(*offset >= at);
                    at = *offset;
                    failures += 1;
                }
            }
        }
        assert_eq!(dumper.no_errors >= failures, true);
        let mut open = config;
        open.skip_beyond_max_nest = false;
        let mut free = CborDumper::new(open);
        let full = free.dump_cbor(&data);
        if full.iter().all(|e| matches!(e, CborEntry::Item(_))) {
            let ends: Vec<usize> = entries
                .iter()
                .map(|e| match e {
                    CborEntry::Item(item) => item.end,
                    CborEntry::Failure(_, at) => *at,
                })
                .collect();
            let full_ends: Vec<usize> = full
                .iter()
                .map(|e| match e {
                    CborEntry::Item(item) => item.end,
                    CborEntry::Failure(_, at) => *at,
                })
                .collect();
            assert_eq!(failures, 0);
            assert_eq!(ends, full_ends);
        }
        if failures == 0 {
            assert_eq!(dumper.offset, data.len());
        }
    }
}
