use aya_log_core::binder::BindError;
use aya_log_core::expand::{
    debug, error, info, log, trace, warn, ArgsError, CallArg, Expansion, Instruction,
    LevelSource, LogArgs, LogError, TargetSource,
};
use aya_log_core::hint::DisplayHint;
use aya_log_core::level::Level;
use aya_log_core::parser::ParseError;

/// The expressions of the tests are numbers.
type Expr = usize;

fn e(id: usize) -> Expr {
    id
}

fn literal(id: usize, text: &str) -> CallArg<Expr> {
    CallArg::Literal { expr: e(id), text: text.to_string() }
}

fn args(format: &str, formatting_args: Option<Vec<Expr>>) -> LogArgs<Expr> {
    LogArgs {
        ctx: e(0),
        target: None,
        level: None,
        format_string: format.to_string(),
        formatting_args,
    }
}

#[test]
fn call_with_format_string_only() {
    let items = [CallArg::Other(e(0)), literal(1, "hello")];
    assert_eq!(LogArgs::parse(items.to_vec()), Ok(args("hello", None)));
}

#[test]
fn call_with_target_level_and_arguments() {
    let items = [
        CallArg::Other(e(0)),
        CallArg::Target(e(1)),
        CallArg::Other(e(2)),
        literal(3, "a {} b {}"),
        CallArg::Other(e(4)),
        literal(5, "a string as an argument"),
    ];
    assert_eq!(
        LogArgs::parse(items.to_vec()),
        Ok(LogArgs {
            ctx: e(0),
            target: Some(e(1)),
            level: Some(e(2)),
            format_string: "a {} b {}".to_string(),
            formatting_args: Some(vec![e(4), e(5)]),
        })
    );
}

#[test]
fn call_with_level_and_without_target() {
    let items = [CallArg::Other(e(0)), CallArg::Other(e(1)), literal(2, "x"), CallArg::Other(e(3))];
    assert_eq!(
        LogArgs::parse(items.to_vec()),
        Ok(LogArgs {
            ctx: e(0),
            target: None,
            level: Some(e(1)),
            format_string: "x".to_string(),
            formatting_args: Some(vec![e(3)]),
        })
    );
}

#[test]
fn a_string_literal_may_be_the_context() {
    let items = [literal(0, "ctx"), literal(1, "fmt")];
    assert_eq!(LogArgs::parse(items.to_vec()), Ok(args("fmt", None)));
}

#[test]
fn malformed_calls() {
    assert_eq!(LogArgs::parse(Vec::<CallArg<Expr>>::new()), Err(ArgsError::MissingContext));
    assert_eq!(LogArgs::parse(vec![CallArg::Other(e(0))]), Err(ArgsError::MissingFormatString));
    assert_eq!(
        LogArgs::parse(vec![CallArg::Other(e(0)), CallArg::Target(e(1))]),
        Err(ArgsError::MissingFormatString)
    );
    assert_eq!(
        LogArgs::parse(vec![CallArg::Other(e(0)), CallArg::Other(e(1))]),
        Err(ArgsError::MissingFormatString)
    );
    assert_eq!(
        LogArgs::parse(vec![CallArg::Other(e(0)), CallArg::Other(e(1)), CallArg::Other(e(2))]),
        Err(ArgsError::ExpectedFormatString { index: 2 })
    );
    assert_eq!(
        LogArgs::parse(vec![CallArg::Target(e(0)), literal(1, "x")]),
        Err(ArgsError::MisplacedTarget { index: 0 })
    );
    assert_eq!(
        LogArgs::parse(vec![CallArg::Other(e(0)), CallArg::Target(e(1)), CallArg::Target(e(2))]),
        Err(ArgsError::MisplacedTarget { index: 2 })
    );
    assert_eq!(
        LogArgs::parse(vec![CallArg::Other(e(0)), CallArg::Other(e(1)), CallArg::Target(e(2))]),
        Err(ArgsError::MisplacedTarget { index: 2 })
    );
    assert_eq!(
        LogArgs::parse(vec![
            CallArg::Other(e(0)),
            literal(1, "{} {}"),
            CallArg::Other(e(2)),
            CallArg::Target(e(3)),
        ]),
        Err(ArgsError::MisplacedTarget { index: 3 })
    );
}

#[test]
fn expansion_begins_with_the_header() {
    let expansion =
        log(args("hello {} at {:ip}!", Some(vec![e(7), e(8)])), Some(Level::Info)).unwrap();
    assert_eq!(
        expansion,
        Expansion {
            ctx: e(0),
            instructions: vec![
                Instruction::Header {
                    target: TargetSource::ModulePath,
                    level: LevelSource::Fixed(Level::Info),
                    num_args: 2,
                },
                Instruction::Literal(b"hello ".to_vec()),
                Instruction::Value { hint: DisplayHint::Default, arg: e(7) },
                Instruction::Literal(b" at ".to_vec()),
                Instruction::Value { hint: DisplayHint::Ip, arg: e(8) },
                Instruction::Literal(b"!".to_vec()),
            ],
        }
    );
}

#[test]
fn no_placeholders_and_no_arguments() {
    for formatting_args in [None, Some(vec![])] {
        let expansion = log(args("no args", formatting_args), Some(Level::Warn)).unwrap();
        assert_eq!(
            expansion.instructions,
            vec![
                Instruction::Header {
                    target: TargetSource::ModulePath,
                    level: LevelSource::Fixed(Level::Warn),
                    num_args: 0,
                },
                Instruction::Literal(b"no args".to_vec()),
            ]
        );
    }
}

#[test]
fn the_named_target_and_level_stand() {
    let mut a = args("x", None);
    a.target = Some(e(3));
    a.level = Some(e(4));
    for implied in [None, Some(Level::Error)] {
        let expansion = log(a.clone(), implied).unwrap();
        assert_eq!(
            expansion.instructions[0],
            Instruction::Header {
                target: TargetSource::Given(e(3)),
                level: LevelSource::Given(e(4)),
                num_args: 0,
            }
        );
    }
}

#[test]
fn missing_level() {
    assert_eq!(log(args("x", None), None), Err(LogError::MissingLevel));
    // the level is looked at first
    assert_eq!(log(args("{", None), None), Err(LogError::MissingLevel));
}

#[test]
fn format_string_that_does_not_parse() {
    assert_eq!(
        log(args("a {:nope}", Some(vec![e(1)])), Some(Level::Info)),
        Err(LogError::Parse(ParseError::UnknownHint { at: 2 }))
    );
    assert_eq!(
        log(args("a }", None), Some(Level::Info)),
        Err(LogError::Parse(ParseError::UnmatchedClose { at: 2 }))
    );
}

#[test]
fn arity_errors() {
    assert_eq!(
        log(args("{} {}", Some(vec![e(1)])), Some(Level::Info)),
        Err(LogError::Bind(BindError::MissingArgument { placeholders: 2, supplied: 1 }))
    );
    assert_eq!(
        log(args("{} {}", None), Some(Level::Info)),
        Err(LogError::Bind(BindError::NoArguments { placeholders: 2 }))
    );
    assert_eq!(
        log(args("{} {}", Some(vec![])), Some(Level::Info)),
        Err(LogError::Bind(BindError::MissingArgument { placeholders: 2, supplied: 0 }))
    );
    assert_eq!(
        log(args("{} {}", Some(vec![e(1), e(2), e(3)])), Some(Level::Info)),
        Err(LogError::Bind(BindError::TooManyArguments { placeholders: 2, supplied: 3 }))
    );
    assert_eq!(
        log(args("none", Some(vec![e(1)])), Some(Level::Info)),
        Err(LogError::Bind(BindError::TooManyArguments { placeholders: 0, supplied: 1 }))
    );
}

#[test]
fn level_specific_forms() {
    let forms: [(fn(LogArgs<Expr>) -> Result<Expansion<Expr>, LogError>, Level); 5] = [
        (error, Level::Error),
        (warn, Level::Warn),
        (info, Level::Info),
        (debug, Level::Debug),
        (trace, Level::Trace),
    ];
    for (form, level) in forms {
        let expansion = form(args("v={:x}", Some(vec![e(9)]))).unwrap();
        assert_eq!(expansion, log(args("v={:x}", Some(vec![e(9)])), Some(level)).unwrap());
        assert_eq!(
            expansion.instructions[0],
            Instruction::Header {
                target: TargetSource::ModulePath,
                level: LevelSource::Fixed(level),
                num_args: 1,
            }
        );
        assert_eq!(
            form(args("{}", None)),
            Err(LogError::Bind(BindError::NoArguments { placeholders: 1 }))
        );
    }
}

#[test]
fn expressions_of_any_type_are_carried_through() {
    let call = vec![
        CallArg::Other("ctx"),
        CallArg::Target("\"net\""),
        CallArg::Literal { expr: "\"{:mac} up\"", text: "{:mac} up".to_string() },
        CallArg::Other("iface.mac()"),
    ];
    let sorted = LogArgs::parse(call).unwrap();
    assert_eq!(sorted.ctx, "ctx");
    let expansion = info(sorted).unwrap();
    assert_eq!(expansion.ctx, "ctx");
    assert_eq!(
        expansion.instructions,
        vec![
            Instruction::Header {
                target: TargetSource::Given("\"net\""),
                level: LevelSource::Fixed(Level::Info),
                num_args: 1,
            },
            Instruction::Value { hint: DisplayHint::LowerMac, arg: "iface.mac()" },
            Instruction::Literal(b" up".to_vec()),
        ]
    );
}

#[test]
fn the_template_of_an_expansion_is_the_parsed_format_string() {
    for format in ["", "plain", "{}", "a {} b {:x}{:MAC} c {{}}", "{:ip}"] {
        let fragments = aya_log_core::parser::parse(format).unwrap();
        let count = fragments
            .iter()
            .filter(|f| matches!(f, aya_log_core::parser::Fragment::Parameter(_)))
            .count();
        let expansion = trace(args(format, Some((0..count).collect()))).unwrap();
        assert_eq!(expansion.template(), fragments);
        assert_eq!(expansion.instructions.len(), fragments.len() + 1);
    }
}
