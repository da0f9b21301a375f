use aya_log_core::binder::{bind_values, check_arity, hints_of, BindError};
use aya_log_core::hint::{ArgKind, DisplayHint, Formatter};
use aya_log_core::parser::parse;
use aya_log_core::value::Value;
use aya_log_core::wire::Binding;

const KINDS: [ArgKind; 11] = [
    ArgKind::U8,
    ArgKind::U16,
    ArgKind::U32,
    ArgKind::U64,
    ArgKind::I8,
    ArgKind::I16,
    ArgKind::I32,
    ArgKind::I64,
    ArgKind::Ipv4,
    ArgKind::Ipv6,
    ArgKind::Mac,
];

const HINTS: [DisplayHint; 6] = [
    DisplayHint::Default,
    DisplayHint::LowerHex,
    DisplayHint::UpperHex,
    DisplayHint::Ip,
    DisplayHint::LowerMac,
    DisplayHint::UpperMac,
];

fn sample(kind: ArgKind) -> Value {
    match kind {
        ArgKind::U8 => Value::U8(1),
        ArgKind::U16 => Value::U16(2),
        ArgKind::U32 => Value::U32(3),
        ArgKind::U64 => Value::U64(4),
        ArgKind::I8 => Value::I8(-1),
        ArgKind::I16 => Value::I16(-2),
        ArgKind::I32 => Value::I32(-3),
        ArgKind::I64 => Value::I64(-4),
        ArgKind::Ipv4 => Value::Ipv4([1, 2, 3, 4]),
        ArgKind::Ipv6 => Value::Ipv6([0; 16]),
        ArgKind::Mac => Value::Mac([1, 2, 3, 4, 5, 6]),
    }
}

#[test]
fn arity_is_strict() {
    for n in 0usize..5 {
        assert_eq!(check_arity(n, Some(n)), Ok(()));
        assert_eq!(
            check_arity(n, Some(n + 1)),
            Err(BindError::TooManyArguments { placeholders: n, supplied: n + 1 })
        );
        if n > 0 {
            assert_eq!(
                check_arity(n, Some(n - 1)),
                Err(BindError::MissingArgument { placeholders: n, supplied: n - 1 })
            );
            assert_eq!(check_arity(n, None), Err(BindError::NoArguments { placeholders: n }));
        }
    }
    assert_eq!(check_arity(0, None), Ok(()));
}

#[test]
fn binding_with_n_minus_one_n_and_n_plus_one_values() {
    let formats = ["", "x", "{}", "a{}b{}", "{}{}{}", "{} {} {} {}"];
    for (n, format) in formats.iter().enumerate() {
        let n = if n < 2 { 0 } else { n - 1 };
        let fragments = parse(format).unwrap();
        assert_eq!(hints_of(&fragments).len(), n);
        let exact: Vec<Value> = (0..n).map(|i| Value::U32(i as u32)).collect();
        let bound = bind_values(&fragments, &exact).unwrap();
        assert_eq!(bound.len(), n);
        for (i, b) in bound.iter().enumerate() {
            assert_eq!(*b, Binding { hint: DisplayHint::Default, value: Value::U32(i as u32) });
        }
        let more: Vec<Value> = (0..n + 1).map(|i| Value::U32(i as u32)).collect();
        assert_eq!(
            bind_values(&fragments, &more),
            Err(BindError::TooManyArguments { placeholders: n, supplied: n + 1 })
        );
        if n > 0 {
            assert_eq!(
                bind_values(&fragments, &exact[..n - 1]),
                Err(BindError::MissingArgument { placeholders: n, supplied: n - 1 })
            );
        }
    }
}

#[test]
fn values_are_bound_left_to_right() {
    let fragments = parse("{:x} at {:ip} from {:MAC}").unwrap();
    let values = [Value::U16(0xbeef), Value::Ipv4([10, 0, 0, 1]), Value::Mac([1, 2, 3, 4, 5, 6])];
    assert_eq!(
        bind_values(&fragments, &values),
        Ok(vec![
            Binding { hint: DisplayHint::LowerHex, value: values[0] },
            Binding { hint: DisplayHint::Ip, value: values[1] },
            Binding { hint: DisplayHint::UpperMac, value: values[2] },
        ])
    );
}

#[test]
fn capability_table() {
    for hint in HINTS {
        for kind in KINDS {
            let integer = !matches!(kind, ArgKind::Ipv4 | ArgKind::Ipv6 | ArgKind::Mac);
            let expected = match hint {
                DisplayHint::Default => integer || matches!(kind, ArgKind::Ipv4 | ArgKind::Ipv6),
                DisplayHint::LowerHex | DisplayHint::UpperHex => integer,
                DisplayHint::Ip => matches!(kind, ArgKind::Ipv4 | ArgKind::Ipv6 | ArgKind::U32),
                DisplayHint::LowerMac | DisplayHint::UpperMac => matches!(kind, ArgKind::Mac),
            };
            assert_eq!(hint.supports(kind), expected, "{hint:?} {kind:?}");
            assert_eq!(hint.formatter().supports(kind), expected);
            assert_eq!(sample(kind).kind(), kind);
        }
    }
}

#[test]
fn each_hint_has_its_own_formatter() {
    assert_eq!(DisplayHint::Default.formatter(), Formatter::Default);
    assert_eq!(DisplayHint::LowerHex.formatter(), Formatter::LowerHex);
    assert_eq!(DisplayHint::UpperHex.formatter(), Formatter::UpperHex);
    assert_eq!(DisplayHint::Ip.formatter(), Formatter::Ip);
    assert_eq!(DisplayHint::LowerMac.formatter(), Formatter::LowerMac);
    assert_eq!(DisplayHint::UpperMac.formatter(), Formatter::UpperMac);
}

#[test]
fn binding_checks_the_capability_of_every_value() {
    let specifiers = ["{}", "{:x}", "{:X}", "{:ip}", "{:mac}", "{:MAC}"];
    for (hint, specifier) in HINTS.iter().zip(specifiers) {
        let fragments = parse(specifier).unwrap();
        for kind in KINDS {
            let value = sample(kind);
            let bound = bind_values(&fragments, &[value]);
            if hint.supports(kind) {
                assert_eq!(bound, Ok(vec![Binding { hint: *hint, value }]));
            } else {
                assert_eq!(bound, Err(BindError::Unsupported { index: 0, hint: *hint, kind }));
            }
        }
    }
}

#[test]
fn the_first_unsupported_value_is_reported() {
    let fragments = parse("{} {:x} {:mac} {:x}").unwrap();
    let values =
        [Value::U8(1), Value::Ipv4([1, 2, 3, 4]), Value::U8(2), Value::Mac([0; 6])];
    assert_eq!(
        bind_values(&fragments, &values),
        Err(BindError::Unsupported { index: 1, hint: DisplayHint::LowerHex, kind: ArgKind::Ipv4 })
    );
}

#[test]
fn an_arity_error_comes_before_a_capability_error() {
    let fragments = parse("{:x} {:x}").unwrap();
    assert_eq!(
        bind_values(&fragments, &[Value::Mac([0; 6])]),
        Err(BindError::MissingArgument { placeholders: 2, supplied: 1 })
    );
}
