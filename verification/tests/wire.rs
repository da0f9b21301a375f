use aya_log_core::hint::DisplayHint;
use aya_log_core::level::Level;
use aya_log_core::value::Value;
use aya_log_core::wire::Binding;
use aya_log_core::writer::{encode_record, write_header, write_value};

fn bind(hint: DisplayHint, value: Value) -> Binding {
    Binding { hint, value }
}

#[test]
fn header_layout_is_byte_exact() {
    let mut buf = [0xeeu8; 40];
    let n = write_header(&mut buf, "tgt", Level::Debug, "mod::x", "f.rs", 0x0102_0304, 2);
    assert_eq!(n, Some(15 + 3 + 6 + 4));
    let expected: Vec<u8> = [
        &[3u8, 0][..],
        b"tgt",
        &[4],
        &[6, 0],
        b"mod::x",
        &[4, 0],
        b"f.rs",
        &[0x04, 0x03, 0x02, 0x01],
        &[2, 0, 0, 0],
    ]
    .concat();
    assert_eq!(&buf[..28], &expected[..]);
    assert_eq!(&buf[28..], &[0xeeu8; 12]);
}

#[test]
fn header_with_empty_texts_is_fifteen_bytes() {
    let mut buf = [0xeeu8; 15];
    assert_eq!(write_header(&mut buf, "", Level::Error, "", "", 0, 0), Some(15));
    assert_eq!(buf, [0, 0, 1, 0, 0, 0, 0, 0, 0, 0, 0, 0, 0, 0, 0]);
}

#[test]
fn header_needs_exactly_its_length() {
    let mut exact = [0u8; 21];
    assert_eq!(write_header(&mut exact, "ab", Level::Info, "cd", "ef", 9, 1), Some(21));
    let mut short = [0x55u8; 20];
    assert_eq!(write_header(&mut short, "ab", Level::Info, "cd", "ef", 9, 1), None);
    assert_eq!(short, [0x55u8; 20]);
    let mut none: [u8; 0] = [];
    assert_eq!(write_header(&mut none, "", Level::Info, "", "", 0, 0), None);
}

#[test]
fn header_text_length_is_limited_to_two_bytes() {
    let long = "x".repeat(0x1_0000);
    let fits = "x".repeat(0xffff);
    let mut buf = vec![0u8; 0x2_0000];
    assert_eq!(write_header(&mut buf, &long, Level::Info, "", "", 0, 0), None);
    assert_eq!(write_header(&mut buf, "", Level::Info, &long, "", 0, 0), None);
    assert_eq!(write_header(&mut buf, "", Level::Info, "", &long, 0, 0), None);
    assert!(buf.iter().all(|b| *b == 0));
    assert_eq!(write_header(&mut buf, &fits, Level::Info, "", "", 0, 0), Some(15 + 0xffff));
    assert_eq!(&buf[..2], &[0xff, 0xff]);
}

#[test]
fn entry_layout_for_every_kind() {
    let cases: Vec<(Value, Vec<u8>)> = vec![
        (Value::U8(0xab), vec![1, 0xab]),
        (Value::U16(0x1234), vec![2, 0x34, 0x12]),
        (Value::U32(42), vec![3, 42, 0, 0, 0]),
        (Value::U64(0x0102_0304_0506_0708), vec![4, 8, 7, 6, 5, 4, 3, 2, 1]),
        (Value::I8(-1), vec![5, 0xff]),
        (Value::I8(i8::MIN), vec![5, 0x80]),
        (Value::I16(-2), vec![6, 0xfe, 0xff]),
        (Value::I32(-3), vec![7, 0xfd, 0xff, 0xff, 0xff]),
        (Value::I32(i32::MAX), vec![7, 0xff, 0xff, 0xff, 0x7f]),
        (Value::I64(-4), vec![8, 0xfc, 0xff, 0xff, 0xff, 0xff, 0xff, 0xff, 0xff]),
        (Value::I64(i64::MIN), vec![8, 0, 0, 0, 0, 0, 0, 0, 0x80]),
        (Value::U64(u64::MAX), vec![4, 0xff, 0xff, 0xff, 0xff, 0xff, 0xff, 0xff, 0xff]),
        (Value::Ipv4([192, 168, 1, 1]), vec![9, 192, 168, 1, 1]),
        (
            Value::Ipv6([0, 1, 2, 3, 4, 5, 6, 7, 8, 9, 10, 11, 12, 13, 14, 15]),
            vec![10, 0, 1, 2, 3, 4, 5, 6, 7, 8, 9, 10, 11, 12, 13, 14, 15],
        ),
        (
            Value::Mac([0x0a, 0x1b, 0x2c, 0x3d, 0x4e, 0x5f]),
            vec![11, 0x0a, 0x1b, 0x2c, 0x3d, 0x4e, 0x5f],
        ),
    ];
    for (value, kind_and_payload) in cases {
        let mut buf = [0x77u8; 24];
        let n = write_value(&mut buf, DisplayHint::Default, &value).unwrap();
        assert_eq!(n, 1 + kind_and_payload.len());
        assert_eq!(buf[0], 1);
        assert_eq!(&buf[1..n], &kind_and_payload[..]);
        assert!(buf[n..].iter().all(|b| *b == 0x77));
        assert_eq!(value.to_bits().to_le_bytes()[..], {
            let mut all = [0u8; 8];
            if value.kind().integer() {
                all[..n - 2].copy_from_slice(&kind_and_payload[1..]);
            }
            all
        });
    }
}

#[test]
fn entry_starts_with_the_tag_of_its_hint() {
    let hints = [
        (DisplayHint::Default, 1u8),
        (DisplayHint::LowerHex, 2),
        (DisplayHint::UpperHex, 3),
        (DisplayHint::Ip, 4),
        (DisplayHint::LowerMac, 5),
        (DisplayHint::UpperMac, 6),
    ];
    for (hint, tag) in hints {
        let mut first = [0u8; 8];
        let mut second = [0u8; 8];
        assert_eq!(write_value(&mut first, hint, &Value::U32(7)), Some(6));
        assert_eq!(write_value(&mut second, hint, &Value::U32(7)), Some(6));
        assert_eq!(first[0], tag);
        assert_eq!(first, second);
    }
}

#[test]
fn value_that_does_not_fit_leaves_the_buffer_alone() {
    let value = Value::U32(1);
    for capacity in 0..6 {
        let mut buf = vec![0x11u8; capacity];
        assert_eq!(write_value(&mut buf, DisplayHint::LowerHex, &value), None);
        assert_eq!(buf, vec![0x11u8; capacity]);
    }
    let mut buf = [0x11u8; 6];
    assert_eq!(write_value(&mut buf, DisplayHint::LowerHex, &value), Some(6));
    assert_eq!(buf, [2, 3, 1, 0, 0, 0]);
}

#[test]
fn record_is_header_then_entries() {
    let bindings = [
        bind(DisplayHint::Default, Value::U32(42)),
        bind(DisplayHint::UpperMac, Value::Mac([1, 2, 3, 4, 5, 6])),
    ];
    let mut buf = [0u8; 64];
    let n = encode_record(&mut buf, "t", Level::Info, "m", "f", 7, &bindings).unwrap();
    let expected: Vec<u8> = [
        &[1u8, 0, b't', 3, 1, 0, b'm', 1, 0, b'f', 7, 0, 0, 0, 2, 0, 0, 0][..],
        &[1, 3, 42, 0, 0, 0],
        &[6, 11, 1, 2, 3, 4, 5, 6],
    ]
    .concat();
    assert_eq!(n, expected.len());
    assert_eq!(&buf[..n], &expected[..]);
    assert!(buf[n..].iter().all(|b| *b == 0));
}

#[test]
fn record_that_exceeds_the_capacity_is_dropped() {
    let bindings = [
        bind(DisplayHint::Default, Value::U64(1)),
        bind(DisplayHint::Ip, Value::Ipv6([9; 16])),
        bind(DisplayHint::LowerHex, Value::I8(-1)),
    ];
    let mut full = [0u8; 128];
    let total = encode_record(&mut full, "ab", Level::Trace, "cd", "ef", 1, &bindings).unwrap();
    assert_eq!(total, 21 + 10 + 18 + 3);
    for capacity in 0..=total + 2 {
        let mut buf = vec![0xa5u8; capacity];
        let r = encode_record(&mut buf, "ab", Level::Trace, "cd", "ef", 1, &bindings);
        assert_eq!(buf.len(), capacity);
        if capacity < total {
            assert_eq!(r, None, "capacity {capacity}");
            // what was written before the write that did not fit is a
            // prefix of the record, cut behind the header or an entry
            let written = if capacity < 21 {
                0
            } else if capacity < 31 {
                21
            } else if capacity < 49 {
                31
            } else {
                49
            };
            assert_eq!(&buf[..written], &full[..written]);
            assert!(buf[written..].iter().all(|b| *b == 0xa5));
        } else {
            assert_eq!(r, Some(total));
            assert_eq!(&buf[..total], &full[..total]);
            assert!(buf[total..].iter().all(|b| *b == 0xa5));
        }
    }
}

#[test]
fn encoding_twice_gives_the_same_bytes() {
    let bindings = [bind(DisplayHint::UpperHex, Value::U16(0xbeef))];
    let mut first = [0u8; 64];
    let mut second = [0u8; 64];
    let a = encode_record(&mut first, "t", Level::Warn, "m", "f", 1, &bindings);
    let b = encode_record(&mut second, "t", Level::Warn, "m", "f", 1, &bindings);
    assert_eq!(a, b);
    assert_eq!(first, second);
}
