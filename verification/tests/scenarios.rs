use aya_log_core::binder::{bind_values, BindError};
use aya_log_core::hint::DisplayHint;
use aya_log_core::level::Level;
use aya_log_core::message::decode;
use aya_log_core::parser::{parse, Fragment};
use aya_log_core::value::Value;
use aya_log_core::writer::{encode_record, write_header};

fn round_trip(format: &str, values: &[Value]) -> String {
    let fragments = parse(format).expect("the format string parses");
    let bindings = bind_values(&fragments, values).expect("the values bind");
    let mut buf = [0u8; 256];
    let n = encode_record(&mut buf, "app", Level::Info, "app::net", "src/net.rs", 17, &bindings)
        .expect("the record fits");
    let message = decode(&fragments, &buf[..n]).expect("the record decodes");
    assert_eq!(message.target, b"app".to_vec());
    assert_eq!(message.level, Level::Info);
    assert_eq!(message.module, b"app::net".to_vec());
    assert_eq!(message.file, b"src/net.rs".to_vec());
    assert_eq!(message.line, 17);
    String::from_utf8(message.text).expect("the text is UTF-8")
}

#[test]
fn hello_with_one_integer() {
    assert_eq!(round_trip("hello {}", &[Value::U32(42)]), "hello 42");
}

#[test]
fn ipv4_address() {
    assert_eq!(round_trip("addr={:ip}", &[Value::Ipv4([192, 168, 1, 1])]), "addr=192.168.1.1");
}

#[test]
fn mac_address_lower_and_upper() {
    let mac = Value::Mac([0x0a, 0x1b, 0x2c, 0x3d, 0x4e, 0x5f]);
    assert_eq!(round_trip("mac={:mac}", &[mac]), "mac=0a:1b:2c:3d:4e:5f");
    assert_eq!(round_trip("mac={:MAC}", &[mac]), "mac=0A:1B:2C:3D:4E:5F");
}

#[test]
fn no_args_is_header_only() {
    let fragments = parse("no args").unwrap();
    assert_eq!(fragments, vec![Fragment::Literal(b"no args".to_vec())]);
    let bindings = bind_values(&fragments, &[]).unwrap();
    assert!(bindings.is_empty());
    let mut buf = [0u8; 64];
    let mut header_only = [0u8; 64];
    let n = encode_record(&mut buf, "t", Level::Warn, "m", "f", 3, &bindings).unwrap();
    let h = write_header(&mut header_only, "t", Level::Warn, "m", "f", 3, 0).unwrap();
    assert_eq!(n, h);
    assert_eq!(n, 15 + 3);
    assert_eq!(&buf[..n], &header_only[..h]);
    // the argument count is the last field of the header
    assert_eq!(&buf[n - 4..n], &[0, 0, 0, 0]);
    assert_eq!(round_trip("no args", &[]), "no args");
}

#[test]
fn two_placeholders_one_argument() {
    let fragments = parse("{} {}").unwrap();
    assert_eq!(
        bind_values(&fragments, &[Value::U8(1)]),
        Err(BindError::MissingArgument { placeholders: 2, supplied: 1 })
    );
}

#[test]
fn buffer_smaller_than_header() {
    let mut buf = [0xaau8; 10];
    assert_eq!(write_header(&mut buf, "target", Level::Error, "module", "file.rs", 1, 0), None);
    assert_eq!(buf, [0xaau8; 10]);
    assert_eq!(encode_record(&mut buf, "target", Level::Error, "module", "file.rs", 1, &[]), None);
    assert_eq!(buf, [0xaau8; 10]);
}

#[test]
fn hex_hint_rejects_an_address() {
    let fragments = parse("{:x}").unwrap();
    assert_eq!(
        bind_values(&fragments, &[Value::Mac([1, 2, 3, 4, 5, 6])]),
        Err(BindError::Unsupported {
            index: 0,
            hint: DisplayHint::LowerHex,
            kind: aya_log_core::hint::ArgKind::Mac
        })
    );
}
