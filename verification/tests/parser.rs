use aya_log_core::hint::DisplayHint;
use aya_log_core::parser::{parse, parse_bytes, Fragment, ParseError};

fn lit(text: &str) -> Fragment {
    Fragment::Literal(text.as_bytes().to_vec())
}

fn par(hint: DisplayHint) -> Fragment {
    Fragment::Parameter(hint)
}

#[test]
fn empty_string_has_no_fragments() {
    assert_eq!(parse(""), Ok(vec![]));
}

#[test]
fn literal_only() {
    assert_eq!(parse("no args"), Ok(vec![lit("no args")]));
}

#[test]
fn every_hint_specifier() {
    assert_eq!(
        parse("foo {} bar {:x} test {:X} ayy {:i} lmao {:ip} m {:mac} M {:MAC}"),
        Ok(vec![
            lit("foo "),
            par(DisplayHint::Default),
            lit(" bar "),
            par(DisplayHint::LowerHex),
            lit(" test "),
            par(DisplayHint::UpperHex),
            lit(" ayy "),
            par(DisplayHint::Ip),
            lit(" lmao "),
            par(DisplayHint::Ip),
            lit(" m "),
            par(DisplayHint::LowerMac),
            lit(" M "),
            par(DisplayHint::UpperMac),
        ])
    );
}

#[test]
fn escaped_braces_are_literal_text() {
    assert_eq!(parse("lmao {{}} {{something}} "), Ok(vec![lit("lmao {} {something} ")]));
    assert_eq!(parse("{{"), Ok(vec![lit("{")]));
    assert_eq!(parse("}}"), Ok(vec![lit("}")]));
    assert_eq!(parse("{{{}}}"), Ok(vec![lit("{"), par(DisplayHint::Default), lit("}")]));
}

#[test]
fn adjacent_placeholders_have_no_literal_between() {
    assert_eq!(parse("{}{:x}"), Ok(vec![par(DisplayHint::Default), par(DisplayHint::LowerHex)]));
    assert_eq!(
        parse("{} {}"),
        Ok(vec![par(DisplayHint::Default), lit(" "), par(DisplayHint::Default)])
    );
}

#[test]
fn text_beyond_ascii_is_kept_byte_for_byte() {
    assert_eq!(parse("größe={}"), Ok(vec![lit("größe="), par(DisplayHint::Default)]));
}

#[test]
fn unterminated_placeholder() {
    assert_eq!(parse("foo { bar"), Err(ParseError::UnterminatedPlaceholder { at: 4 }));
    assert_eq!(parse("{"), Err(ParseError::UnterminatedPlaceholder { at: 0 }));
    assert_eq!(parse("a{:x"), Err(ParseError::UnterminatedPlaceholder { at: 1 }));
}

#[test]
fn unmatched_closing_brace() {
    assert_eq!(parse("foo } bar"), Err(ParseError::UnmatchedClose { at: 4 }));
    assert_eq!(parse("}"), Err(ParseError::UnmatchedClose { at: 0 }));
    assert_eq!(parse("{{}"), Err(ParseError::UnmatchedClose { at: 2 }));
    assert_eq!(parse("}{{}"), Err(ParseError::UnmatchedClose { at: 0 }));
    assert_eq!(parse("}}}"), Err(ParseError::UnmatchedClose { at: 2 }));
}

#[test]
fn missing_hint() {
    assert_eq!(parse("foo {:}"), Err(ParseError::MissingHint { at: 4 }));
}

#[test]
fn unknown_hint() {
    assert_eq!(parse("{:q}"), Err(ParseError::UnknownHint { at: 0 }));
    assert_eq!(parse("{:ipv4}"), Err(ParseError::UnknownHint { at: 0 }));
    assert_eq!(parse("{:Mac}"), Err(ParseError::UnknownHint { at: 0 }));
    assert_eq!(parse("{:xx}"), Err(ParseError::UnknownHint { at: 0 }));
    assert_eq!(parse("ab{:p}"), Err(ParseError::UnknownHint { at: 2 }));
}

#[test]
fn unexpected_content() {
    assert_eq!(parse("foo { bar }"), Err(ParseError::UnexpectedContent { at: 4 }));
    assert_eq!(parse("{0}"), Err(ParseError::UnexpectedContent { at: 0 }));
    assert_eq!(parse("{ {}"), Err(ParseError::UnexpectedContent { at: 0 }));
}

#[test]
fn first_error_from_the_left_wins() {
    assert_eq!(parse("} {:q}"), Err(ParseError::UnmatchedClose { at: 0 }));
    assert_eq!(parse("{:q} }"), Err(ParseError::UnknownHint { at: 0 }));
}

#[test]
fn parsing_is_deterministic() {
    let format = "a {} b {:mac} c";
    assert_eq!(parse(format), parse(format));
    assert_eq!(parse(format), parse_bytes(format.as_bytes()));
}

/// Writes fragments as a format string: braces twice, placeholders with
/// their specifier.
fn write(fragments: &[Fragment]) -> Vec<u8> {
    let mut out = Vec::new();
    for fragment in fragments {
        match fragment {
            Fragment::Literal(text) => {
                for b in text {
                    out.push(*b);
                    if *b == b'{' || *b == b'}' {
                        out.push(*b);
                    }
                }
            }
            Fragment::Parameter(hint) => {
                let specifier: &[u8] = match hint {
                    DisplayHint::Default => b"",
                    DisplayHint::LowerHex => b":x",
                    DisplayHint::UpperHex => b":X",
                    DisplayHint::Ip => b":ip",
                    DisplayHint::LowerMac => b":mac",
                    DisplayHint::UpperMac => b":MAC",
                };
                out.push(b'{');
                out.extend_from_slice(specifier);
                out.push(b'}');
            }
        }
    }
    out
}

#[test]
fn parsing_undoes_writing() {
    let templates = [
        vec![],
        vec![lit("{")],
        vec![lit("}"), par(DisplayHint::Default), lit("{")],
        vec![par(DisplayHint::Ip), par(DisplayHint::LowerMac), lit("}}{{")],
        vec![lit("a{b}c"), par(DisplayHint::UpperHex), lit(":x"), par(DisplayHint::UpperMac)],
        vec![par(DisplayHint::LowerHex), lit("}"), par(DisplayHint::Default)],
    ];
    for template in templates {
        assert_eq!(parse_bytes(&write(&template)), Ok(template));
    }
    assert_eq!(write(&[lit("a{b}c"), par(DisplayHint::Ip)]), b"a{{b}}c{:ip}".to_vec());
}
