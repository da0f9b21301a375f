use aya_log_core::decoder::{decode_header, decode_record, Record};
use aya_log_core::hint::DisplayHint;
use aya_log_core::level::Level;
use aya_log_core::message::{decode, render};
use aya_log_core::parser::parse;
use aya_log_core::value::Value;
use aya_log_core::wire::{Binding, LogRecordHeader};
use aya_log_core::writer::encode_record;

fn bind(hint: DisplayHint, value: Value) -> Binding {
    Binding { hint, value }
}

fn header() -> LogRecordHeader {
    LogRecordHeader {
        target: b"tg".to_vec(),
        level: Level::Error,
        module: b"md".to_vec(),
        file: b"fl".to_vec(),
        line: 300,
        num_args: 2,
    }
}

fn sample() -> (Vec<u8>, Vec<Binding>) {
    let bindings = vec![
        bind(DisplayHint::Default, Value::I32(-5)),
        bind(DisplayHint::LowerMac, Value::Mac([1, 2, 3, 4, 5, 6])),
    ];
    let mut buf = [0u8; 64];
    let n = encode_record(&mut buf, "tg", Level::Error, "md", "fl", 300, &bindings).unwrap();
    (buf[..n].to_vec(), bindings)
}

#[test]
fn record_round_trip() {
    let (bytes, bindings) = sample();
    assert_eq!(
        decode_record(&bytes),
        Some(Record { header: header(), args: bindings })
    );
}

#[test]
fn header_alone() {
    let (bytes, _) = sample();
    assert_eq!(decode_header(&bytes), Some((header(), 21)));
    assert_eq!(decode_header(&bytes[..21]), Some((header(), 21)));
    for cut in 0..21 {
        assert_eq!(decode_header(&bytes[..cut]), None);
    }
}

#[test]
fn every_value_round_trips() {
    let values = [
        Value::U8(0),
        Value::U8(255),
        Value::U16(0xffff),
        Value::U32(0xdead_beef),
        Value::U64(u64::MAX),
        Value::I8(i8::MIN),
        Value::I8(-1),
        Value::I8(i8::MAX),
        Value::I16(i16::MIN),
        Value::I16(12345),
        Value::I32(i32::MIN),
        Value::I32(-1),
        Value::I64(i64::MIN),
        Value::I64(i64::MAX),
        Value::I64(0),
        Value::Ipv4([255, 0, 255, 0]),
        Value::Ipv6([0xff, 1, 2, 3, 4, 5, 6, 7, 8, 9, 10, 11, 12, 13, 14, 0xfe]),
        Value::Mac([0xff, 0, 0xff, 0, 0xff, 0]),
    ];
    let hints = [
        DisplayHint::Default,
        DisplayHint::LowerHex,
        DisplayHint::UpperHex,
        DisplayHint::Ip,
        DisplayHint::LowerMac,
        DisplayHint::UpperMac,
    ];
    for value in values {
        for hint in hints {
            if !hint.supports(value.kind()) {
                continue;
            }
            let bindings = [bind(hint, value)];
            let mut buf = [0u8; 64];
            let n = encode_record(&mut buf, "", Level::Info, "", "", 0, &bindings).unwrap();
            let record = decode_record(&buf[..n]).unwrap();
            assert_eq!(record.args, bindings.to_vec());
        }
    }
}

#[test]
fn truncated_record_is_corrupt() {
    let (bytes, _) = sample();
    for cut in 0..bytes.len() {
        assert_eq!(decode_record(&bytes[..cut]), None, "cut at {cut}");
    }
}

#[test]
fn trailing_bytes_make_a_record_corrupt() {
    let (mut bytes, _) = sample();
    bytes.push(0);
    assert_eq!(decode_record(&bytes), None);
}

#[test]
fn unknown_tags_make_a_record_corrupt() {
    let (bytes, _) = sample();
    let header = 15 + 6;
    // level byte
    let mut bad = bytes.clone();
    bad[4] = 0;
    assert_eq!(decode_record(&bad), None);
    bad[4] = 6;
    assert_eq!(decode_record(&bad), None);
    // hint tag of the first entry
    let mut bad = bytes.clone();
    bad[header] = 0;
    assert_eq!(decode_record(&bad), None);
    bad[header] = 7;
    assert_eq!(decode_record(&bad), None);
    // kind tag of the first entry
    let mut bad = bytes.clone();
    bad[header + 1] = 0;
    assert_eq!(decode_record(&bad), None);
    bad[header + 1] = 12;
    assert_eq!(decode_record(&bad), None);
}

#[test]
fn hint_that_does_not_accept_its_kind_makes_a_record_corrupt() {
    let (bytes, _) = sample();
    let header = 15 + 6;
    let mut bad = bytes.clone();
    // a hardware-address hint on a 32-bit integer
    bad[header] = 5;
    assert_eq!(decode_record(&bad), None);
}

#[test]
fn wrong_argument_count_makes_a_record_corrupt() {
    let (bytes, _) = sample();
    let count = 15 + 6 - 4;
    let mut bad = bytes.clone();
    bad[count] = 1;
    assert_eq!(decode_record(&bad), None);
    bad[count] = 3;
    assert_eq!(decode_record(&bad), None);
}

#[test]
fn decoding_needs_the_template_of_the_record() {
    let (bytes, bindings) = sample();
    let right = parse("n={} mac={:mac}").unwrap();
    let message = decode(&right, &bytes).unwrap();
    assert_eq!(message.text, b"n=-5 mac=01:02:03:04:05:06".to_vec());
    assert_eq!(message.target, b"tg".to_vec());
    assert_eq!(message.level, Level::Error);
    assert_eq!(message.module, b"md".to_vec());
    assert_eq!(message.file, b"fl".to_vec());
    assert_eq!(message.line, 300);
    assert_eq!(render(&right, &bindings), Some(b"n=-5 mac=01:02:03:04:05:06".to_vec()));
    for wrong in ["n={}", "{} {:MAC}", "{:mac} {}", "{} {:mac} {}", "plain"] {
        let wrong = parse(wrong).unwrap();
        assert_eq!(decode(&wrong, &bytes), None);
        assert_eq!(render(&wrong, &bindings), None);
    }
    assert_eq!(decode(&right, &bytes[..bytes.len() - 1]), None);
}
