use aya_log_core::formatter::{
    bind_default, bind_ip, bind_lower_hex, bind_lower_mac, bind_upper_hex, bind_upper_mac, Loggable,
};
use aya_log_core::hint::DisplayHint;
use aya_log_core::level::Level;
use aya_log_core::message::decode;
use aya_log_core::parser::parse;
use aya_log_core::value::Value;
use aya_log_core::wire::Binding;
use aya_log_core::writer::encode_record;

#[test]
fn every_loggable_type_has_its_value() {
    assert_eq!(7u8.to_value(), Value::U8(7));
    assert_eq!(7u16.to_value(), Value::U16(7));
    assert_eq!(7u32.to_value(), Value::U32(7));
    assert_eq!(7u64.to_value(), Value::U64(7));
    assert_eq!((-7i8).to_value(), Value::I8(-7));
    assert_eq!((-7i16).to_value(), Value::I16(-7));
    assert_eq!((-7i32).to_value(), Value::I32(-7));
    assert_eq!((-7i64).to_value(), Value::I64(-7));
    assert_eq!([1u8, 2, 3, 4].to_value(), Value::Ipv4([1, 2, 3, 4]));
    assert_eq!([9u8; 16].to_value(), Value::Ipv6([9; 16]));
    assert_eq!([1u8, 2, 3, 4, 5, 6].to_value(), Value::Mac([1, 2, 3, 4, 5, 6]));
}

#[test]
fn binding_functions_tag_the_value_with_their_hint() {
    assert_eq!(bind_default(42u32), Binding { hint: DisplayHint::Default, value: Value::U32(42) });
    assert_eq!(bind_default(-1i64), Binding { hint: DisplayHint::Default, value: Value::I64(-1) });
    assert_eq!(
        bind_default([10u8, 0, 0, 1]),
        Binding { hint: DisplayHint::Default, value: Value::Ipv4([10, 0, 0, 1]) }
    );
    assert_eq!(
        bind_lower_hex(255u8),
        Binding { hint: DisplayHint::LowerHex, value: Value::U8(255) }
    );
    assert_eq!(
        bind_upper_hex(-1i16),
        Binding { hint: DisplayHint::UpperHex, value: Value::I16(-1) }
    );
    assert_eq!(bind_ip(1u32), Binding { hint: DisplayHint::Ip, value: Value::U32(1) });
    assert_eq!(bind_ip([0u8; 16]), Binding { hint: DisplayHint::Ip, value: Value::Ipv6([0; 16]) });
    assert_eq!(
        bind_lower_mac([1u8, 2, 3, 4, 5, 6]),
        Binding { hint: DisplayHint::LowerMac, value: Value::Mac([1, 2, 3, 4, 5, 6]) }
    );
    assert_eq!(
        bind_upper_mac([1u8, 2, 3, 4, 5, 6]),
        Binding { hint: DisplayHint::UpperMac, value: Value::Mac([1, 2, 3, 4, 5, 6]) }
    );
}

#[test]
fn every_binding_is_one_that_its_hint_accepts() {
    let bindings = [
        bind_default(1u8),
        bind_default(1u16),
        bind_default(1u32),
        bind_default(1u64),
        bind_default(1i8),
        bind_default(1i16),
        bind_default(1i32),
        bind_default(1i64),
        bind_default([1u8; 4]),
        bind_default([1u8; 16]),
        bind_lower_hex(1u8),
        bind_lower_hex(1i64),
        bind_upper_hex(1u64),
        bind_upper_hex(1i8),
        bind_ip(1u32),
        bind_ip([1u8; 4]),
        bind_ip([1u8; 16]),
        bind_lower_mac([1u8; 6]),
        bind_upper_mac([1u8; 6]),
    ];
    for binding in bindings {
        assert!(binding.hint.supports(binding.value.kind()), "{binding:?}");
    }
}

#[test]
fn a_call_site_that_binds_statically() {
    let template = parse("{} sent {:x} to {:ip} via {:MAC}").unwrap();
    let bindings = [
        bind_default(-3i32),
        bind_lower_hex(0xc0deu16),
        bind_ip(0x7f00_0001u32),
        bind_upper_mac([0xab; 6]),
    ];
    let mut buf = [0u8; 128];
    let n = encode_record(&mut buf, "net", Level::Debug, "net::tx", "tx.rs", 99, &bindings)
        .unwrap();
    let message = decode(&template, &buf[..n]).unwrap();
    assert_eq!(
        String::from_utf8(message.text).unwrap(),
        "-3 sent c0de to 127.0.0.1 via AB:AB:AB:AB:AB:AB"
    );
    assert_eq!(message.level, Level::Debug);
    assert_eq!(message.line, 99);
}
