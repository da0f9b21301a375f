//! The compile-time half of a logging call: the call's arguments are
//! sorted out, the level and target are resolved, the format string is
//! parsed, and each placeholder is paired with the next supplied expression.
//! The result is the instruction sequence that the call site carries out.
//!
//! A call has the shape
//! `(context, [target: <expr>,] [<level>,] "<format string>" [, <argument>]*)`.

use vstd::prelude::*;
use vstd::slice::*;
use vstd::utf8::encode_utf8;
use crate::binder::{arity, check_arity, hints_of, BindError};
use crate::hint::DisplayHint;
use crate::level::Level;
use crate::parser::{
    fragments_view, param_count, parse, parse_spec, Fragment, FragmentView, ParseError,
};

verus! {

/// One comma-separated item of a logging call. `E` is the type of the
/// caller's expressions, which are carried through and never looked into.
#[derive(Clone, Debug, PartialEq, Eq)]
pub enum CallArg<E> {
    /// `target: <expr>`.
    Target(E),
    /// An item that is nothing but a string literal, with the text it
    /// stands for.
    Literal { expr: E, text: String },
    /// Any other expression.
    Other(E),
}

/// A call item as a mathematical value.
pub enum CallArgView<E> {
    Target(E),
    Literal { expr: E, text: Seq<char> },
    Other(E),
}

impl<E> View for CallArg<E> {
    type V = CallArgView<E>;

    open spec fn view(&self) -> CallArgView<E> {
        match self {
            CallArg::Target(e) => CallArgView::Target(*e),
            CallArg::Literal { expr, text } => CallArgView::Literal { expr: *expr, text: text@ },
            CallArg::Other(e) => CallArgView::Other(*e),
        }
    }
}

impl<E> CallArgView<E> {
    /// The expression of this item.
    pub open spec fn expr(self) -> E {
        match self {
            CallArgView::Target(e) => e,
            CallArgView::Literal { expr, text } => expr,
            CallArgView::Other(e) => e,
        }
    }
}

/// The items of a call as mathematical values.
pub open spec fn items_view<E>(items: Seq<CallArg<E>>) -> Seq<CallArgView<E>> {
    items.map_values(|item: CallArg<E>| item@)
}

/// Why the items of a call do not make a logging call.
#[derive(Clone, Copy, Debug, PartialEq, Eq, Structural)]
pub enum ArgsError {
    /// The call has no items: the context is missing.
    MissingContext,
    /// The call ends before its format string.
    MissingFormatString,
    /// The item at `index` should be the format string and is no string
    /// literal.
    ExpectedFormatString { index: usize },
    /// `target:` stands at `index`, where no target can stand.
    MisplacedTarget { index: usize },
}

/// The arguments of a logging call, sorted out.
#[derive(Clone, Debug, PartialEq, Eq)]
pub struct LogArgs<E> {
    /// The execution context. It is threaded through and not otherwise used.
    pub ctx: E,
    /// The target, where the call names one.
    pub target: Option<E>,
    /// The level, where the call names one.
    pub level: Option<E>,
    /// The format string.
    pub format_string: String,
    /// The arguments for the placeholders; `None` where the call ends with
    /// the format string.
    pub formatting_args: Option<Vec<E>>,
}

/// The arguments of a logging call as mathematical values.
pub struct LogArgsView<E> {
    pub ctx: E,
    pub target: Option<E>,
    pub level: Option<E>,
    pub format_string: Seq<char>,
    pub formatting_args: Option<Seq<E>>,
}

impl<E> View for LogArgs<E> {
    type V = LogArgsView<E>;

    open spec fn view(&self) -> LogArgsView<E> {
        LogArgsView {
            ctx: self.ctx,
            target: self.target,
            level: self.level,
            format_string: self.format_string@,
            formatting_args: match self.formatting_args {
                Some(args) => Some(args@),
                None => None,
            },
        }
    }
}

/// The position of the first `target:` item at or behind `from`.
pub open spec fn first_target<E>(items: Seq<CallArgView<E>>, from: int) -> Option<int>
    decreases items.len() - from,
{
    if from < 0 || from >= items.len() {
        None
    } else if items[from] is Target {
        Some(from)
    } else {
        first_target(items, from + 1)
    }
}

/// The expressions of the items from `from` on.
pub open spec fn exprs_from<E>(items: Seq<CallArgView<E>>, from: int) -> Seq<E> {
    Seq::new((items.len() - from) as nat, |i: int| items[from + i].expr())
}

/// The call whose format string stands just before `from`.
pub open spec fn finish_call<E>(
    items: Seq<CallArgView<E>>,
    target: Option<E>,
    level: Option<E>,
    format_string: Seq<char>,
    from: int,
) -> Result<LogArgsView<E>, ArgsError> {
    match first_target(items, from) {
        Some(i) => Err(ArgsError::MisplacedTarget { index: i as usize }),
        None => Ok(
            LogArgsView {
                ctx: items[0].expr(),
                target,
                level,
                format_string,
                formatting_args: if from >= items.len() {
                    None
                } else {
                    Some(exprs_from(items, from))
                },
            },
        ),
    }
}

/// The call that `items` make, or why they make none.
pub open spec fn parse_call<E>(items: Seq<CallArgView<E>>) -> Result<LogArgsView<E>, ArgsError> {
    if items.len() == 0 {
        Err(ArgsError::MissingContext)
    } else if items[0] is Target {
        Err(ArgsError::MisplacedTarget { index: 0 })
    } else {
        let target = if items.len() > 1 && items[1] is Target {
            Some(items[1].expr())
        } else {
            None
        };
        let next: int = if target is Some {
            2
        } else {
            1
        };
        if next >= items.len() {
            Err(ArgsError::MissingFormatString)
        } else {
            match items[next] {
                CallArgView::Literal { expr, text } => finish_call(
                    items,
                    target,
                    None,
                    text,
                    next + 1,
                ),
                CallArgView::Target(_) => Err(ArgsError::MisplacedTarget { index: next as usize }),
                CallArgView::Other(level) => if next + 1 >= items.len() {
                    Err(ArgsError::MissingFormatString)
                } else {
                    match items[next + 1] {
                        CallArgView::Literal { expr, text } => finish_call(
                            items,
                            target,
                            Some(level),
                            text,
                            next + 2,
                        ),
                        CallArgView::Target(_) => Err(
                            ArgsError::MisplacedTarget { index: (next + 1) as usize },
                        ),
                        CallArgView::Other(_) => Err(
                            ArgsError::ExpectedFormatString { index: (next + 1) as usize },
                        ),
                    }
                },
            }
        }
    }
}

impl<E> CallArg<E> {
    /// Returns whether this item is a `target:` item.
    pub fn is_target(&self) -> (r: bool)
        ensures
            r == self@ is Target,
    {
        match self {
            CallArg::Target(_) => true,
            _ => false,
        }
    }

    /// Returns the expression of this item.
    pub fn into_expr(self) -> (e: E)
        ensures
            e == self@.expr(),
    {
        match self {
            CallArg::Target(e) => e,
            CallArg::Literal { expr, text } => expr,
            CallArg::Other(e) => e,
        }
    }
}

/// Taking the first item off leaves the items behind it.
proof fn lemma_rest_of_items<E>(items: Seq<CallArg<E>>, all: Seq<CallArgView<E>>, from: int)
    requires
        0 <= from < all.len(),
        items_view(items) == all.subrange(from, all.len() as int),
    ensures
        items.len() > 0,
        items[0]@ == all[from],
        items_view(items.remove(0)) == all.subrange(from + 1, all.len() as int),
{
    assert(items_view(items).len() == items.len());
    assert(items_view(items)[0] == items[0]@);
    assert(items_view(items.remove(0)) =~= all.subrange(from + 1, all.len() as int)) by {
        assert forall|i: int| 0 <= i < items.len() - 1 implies items_view(items.remove(0))[i]
            == all[from + 1 + i] by {
            assert(items.remove(0)[i] == items[i + 1]);
            assert(items_view(items)[i + 1] == items[i + 1]@);
        }
    }
}

impl<E> LogArgs<E> {
    /// Collects the arguments behind the format string. `rest` holds the
    /// items of the call from position `from` on.
    fn finish(
        ctx: E,
        target: Option<E>,
        level: Option<E>,
        format_string: String,
        rest: Vec<CallArg<E>>,
        Ghost(all): Ghost<Seq<CallArgView<E>>>,
        from: usize,
    ) -> (r: Result<LogArgs<E>, ArgsError>)
        requires
            0 < from <= all.len() <= usize::MAX,
            items_view(rest@) == all.subrange(from as int, all.len() as int),
            ctx == all[0].expr(),
        ensures
            match r {
                Ok(args) => finish_call(all, target, level, format_string@, from as int) == Ok::<
                    LogArgsView<E>,
                    ArgsError,
                >(args@),
                Err(e) => finish_call(all, target, level, format_string@, from as int) == Err::<
                    LogArgsView<E>,
                    ArgsError,
                >(e),
            },
    {
        let mut rest = rest;
        let mut args: Vec<E> = Vec::new();
        let mut i: usize = from;
        proof {
            assert(items_view(rest@).len() == rest@.len());
        }
        while rest.len() > 0
            invariant
                from <= i <= all.len() <= usize::MAX,
                rest@.len() == all.len() - i,
                items_view(rest@) == all.subrange(i as int, all.len() as int),
                first_target(all, from as int) == first_target(all, i as int),
                args@ == Seq::new((i - from) as nat, |k: int| all[from + k].expr()),
            decreases rest@.len(),
        {
            proof {
                lemma_rest_of_items(rest@, all, i as int);
            }
            let item = rest.remove(0);
            if item.is_target() {
                return Err(ArgsError::MisplacedTarget { index: i });
            }
            args.push(item.into_expr());
            i += 1;
            proof {
                assert(items_view(rest@).len() == rest@.len());
                assert(args@ =~= Seq::new((i - from) as nat, |k: int| all[from + k].expr()));
            }
        }
        proof {
            assert(args@ =~= exprs_from(all, from as int));
        }
        let formatting_args = if i == from {
            None
        } else {
            Some(args)
        };
        Ok(LogArgs { ctx, target, level, format_string, formatting_args })
    }

    /// Sorts out the items of a logging call: the context, then an optional
    /// `target:` item, then an optional level, then the format string,
    /// which is the first item at that place that is a string literal, then
    /// the arguments for the placeholders.
    pub fn parse(items: Vec<CallArg<E>>) -> (r: Result<LogArgs<E>, ArgsError>)
        ensures
            match r {
                Ok(args) => parse_call(items_view(items@)) == Ok::<LogArgsView<E>, ArgsError>(
                    args@,
                ),
                Err(e) => parse_call(items_view(items@)) == Err::<LogArgsView<E>, ArgsError>(e),
            },
    {
        let ghost all = items_view(items@);
        let mut items = items;
        let n: usize = items.len();
        proof {
            assert(all.len() == n);
            assert(all.subrange(0, all.len() as int) =~= all);
        }
        if n == 0 {
            return Err(ArgsError::MissingContext);
        }
        proof {
            lemma_rest_of_items(items@, all, 0);
        }
        let first = items.remove(0);
        if first.is_target() {
            return Err(ArgsError::MisplacedTarget { index: 0 });
        }
        let ctx = first.into_expr();
        let mut target: Option<E> = None;
        let mut next: usize = 1;
        if n > 1 {
            proof {
                lemma_rest_of_items(items@, all, 1);
            }
            if items[0].is_target() {
                target = Some(items.remove(0).into_expr());
                next = 2;
            }
        }
        if next >= n {
            return Err(ArgsError::MissingFormatString);
        }
        proof {
            lemma_rest_of_items(items@, all, next as int);
        }
        match items.remove(0) {
            CallArg::Literal { expr, text } => LogArgs::finish(
                ctx,
                target,
                None,
                text,
                items,
                Ghost(all),
                next + 1,
            ),
            CallArg::Target(_) => Err(ArgsError::MisplacedTarget { index: next }),
            CallArg::Other(level) => {
                if next + 1 >= n {
                    return Err(ArgsError::MissingFormatString);
                }
                proof {
                    lemma_rest_of_items(items@, all, next + 1);
                }
                match items.remove(0) {
                    CallArg::Literal { expr, text } => LogArgs::finish(
                        ctx,
                        target,
                        Some(level),
                        text,
                        items,
                        Ghost(all),
                        next + 2,
                    ),
                    CallArg::Target(_) => Err(ArgsError::MisplacedTarget { index: next + 1 }),
                    CallArg::Other(_) => Err(ArgsError::ExpectedFormatString { index: next + 1 }),
                }
            },
        }
    }
}

/// Where the target of a record comes from.
#[derive(Clone, Copy, Debug, PartialEq, Eq)]
pub enum TargetSource<E> {
    /// The call names no target: the path of the invoking module stands.
    ModulePath,
    /// The call names the target.
    Given(E),
}

/// Where the level of a record comes from.
#[derive(Clone, Copy, Debug, PartialEq, Eq)]
pub enum LevelSource<E> {
    /// The level that the call form implies.
    Fixed(Level),
    /// The level that the call names.
    Given(E),
}

/// One step of what a call site does.
#[derive(Clone, Debug, PartialEq, Eq)]
pub enum Instruction<E> {
    /// Emit the header. `num_args` is the number of values that follow.
    Header { target: TargetSource<E>, level: LevelSource<E>, num_args: usize },
    /// Emit literal text. It belongs to the call site's template and adds
    /// no bytes to the record.
    Literal(Vec<u8>),
    /// Emit the value of `arg`, tagged with `hint`. The value must have the
    /// capability that the hint asks for.
    Value { hint: DisplayHint, arg: E },
}

/// An instruction as a mathematical value.
pub enum InstructionView<E> {
    Header { target: TargetSource<E>, level: LevelSource<E>, num_args: usize },
    Literal(Seq<u8>),
    Value { hint: DisplayHint, arg: E },
}

impl<E> View for Instruction<E> {
    type V = InstructionView<E>;

    open spec fn view(&self) -> InstructionView<E> {
        match self {
            Instruction::Header { target, level, num_args } => InstructionView::Header {
                target: *target,
                level: *level,
                num_args: *num_args,
            },
            Instruction::Literal(text) => InstructionView::Literal(text@),
            Instruction::Value { hint, arg } => InstructionView::Value { hint: *hint, arg: *arg },
        }
    }
}

/// A sequence of instructions as mathematical values.
pub open spec fn instructions_view<E>(instructions: Seq<Instruction<E>>) -> Seq<
    InstructionView<E>,
> {
    instructions.map_values(|i: Instruction<E>| i@)
}

/// What a logging call expands to.
#[derive(Clone, Debug, PartialEq, Eq)]
pub struct Expansion<E> {
    /// The execution context of the call.
    pub ctx: E,
    /// The header instruction, then one instruction for each fragment of
    /// the format string, in order.
    pub instructions: Vec<Instruction<E>>,
}

/// An expansion as a mathematical value.
pub struct ExpansionView<E> {
    pub ctx: E,
    pub instructions: Seq<InstructionView<E>>,
}

impl<E> View for Expansion<E> {
    type V = ExpansionView<E>;

    open spec fn view(&self) -> ExpansionView<E> {
        ExpansionView { ctx: self.ctx, instructions: instructions_view(self.instructions@) }
    }
}

/// Why a logging call was rejected.
#[derive(Clone, Copy, Debug, PartialEq, Eq, Structural)]
pub enum LogError {
    /// The call names no level and its form implies none.
    MissingLevel,
    /// The format string was rejected.
    Parse(ParseError),
    /// The arguments do not match the placeholders.
    Bind(BindError),
}

/// The level of a call: the one that the call names; where it names none,
/// the one that its form implies.
pub open spec fn resolve_level<E>(named: Option<E>, implied: Option<Level>) -> Option<
    LevelSource<E>,
> {
    match named {
        Some(e) => Some(LevelSource::Given(e)),
        None => match implied {
            Some(l) => Some(LevelSource::Fixed(l)),
            None => None,
        },
    }
}

/// The target of a call: the one that the call names, else the module path.
pub open spec fn resolve_target<E>(named: Option<E>) -> TargetSource<E> {
    match named {
        Some(e) => TargetSource::Given(e),
        None => TargetSource::ModulePath,
    }
}

/// The instructions for `fragments`, each placeholder paired with the next
/// of `args`.
pub open spec fn bound<E>(fragments: Seq<FragmentView>, args: Seq<E>) -> Seq<InstructionView<E>>
    decreases fragments.len(),
{
    if fragments.len() == 0 {
        Seq::empty()
    } else {
        let before = fragments.drop_last();
        match fragments.last() {
            FragmentView::Literal(text) => bound(before, args).push(
                InstructionView::Literal(text),
            ),
            FragmentView::Parameter(hint) => bound(before, args).push(
                InstructionView::Value { hint, arg: args[param_count(before) as int] },
            ),
        }
    }
}

/// The number of arguments that a call supplies; `None` where it has no
/// argument list.
pub open spec fn supplied<E>(formatting_args: Option<Seq<E>>) -> Option<usize> {
    match formatting_args {
        Some(args) => Some(args.len() as usize),
        None => None,
    }
}

/// What a logging call expands to, or why it is rejected. A missing level
/// is reported first, then a format string that does not parse, then
/// arguments that do not match the placeholders.
pub open spec fn log_spec<E>(args: LogArgsView<E>, implied: Option<Level>) -> Result<
    ExpansionView<E>,
    LogError,
> {
    match resolve_level(args.level, implied) {
        None => Err(LogError::MissingLevel),
        Some(level) => match parse_spec(encode_utf8(args.format_string)) {
            Err(e) => Err(LogError::Parse(e)),
            Ok(fragments) => match arity(
                param_count(fragments) as usize,
                supplied(args.formatting_args),
            ) {
                Err(e) => Err(LogError::Bind(e)),
                Ok(()) => Ok(
                    ExpansionView {
                        ctx: args.ctx,
                        instructions: seq![
                            InstructionView::Header {
                                target: resolve_target(args.target),
                                level,
                                num_args: param_count(fragments) as usize,
                            },
                        ] + bound(
                            fragments,
                            match args.formatting_args {
                                Some(a) => a,
                                None => Seq::empty(),
                            },
                        ),
                    },
                ),
            },
        },
    }
}

/// Expands a logging call.
///
/// `level` is the level that the call form implies, if it implies one. A
/// level that the call names stands before it; a call that names none and
/// implies none is rejected. The format string is parsed, and the call must
/// supply exactly one argument for each of its placeholders. The target is
/// the one that the call names, else the path of the invoking module.
pub fn log<E>(args: LogArgs<E>, level: Option<Level>) -> (r: Result<Expansion<E>, LogError>)
    ensures
        match r {
            Ok(expansion) => log_spec(args@, level) == Ok::<ExpansionView<E>, LogError>(
                expansion@,
            ),
            Err(e) => log_spec(args@, level) == Err::<ExpansionView<E>, LogError>(e),
        },
{
    let LogArgs { ctx, target, level: named, format_string, formatting_args } = args;
    let level_source = match named {
        Some(e) => LevelSource::Given(e),
        None => match level {
            Some(l) => LevelSource::Fixed(l),
            None => {
                return Err(LogError::MissingLevel);
            },
        },
    };
    let target = match target {
        Some(e) => TargetSource::Given(e),
        None => TargetSource::ModulePath,
    };
    let fragments = match parse(format_string.as_str()) {
        Ok(fragments) => fragments,
        Err(e) => {
            return Err(LogError::Parse(e));
        },
    };
    let ghost all = fragments_view(fragments@);
    let hints = hints_of(fragments.as_slice());
    let num_args: usize = hints.len();
    let (count, mut exprs) = match formatting_args {
        Some(a) => (Some(a.len()), a),
        None => (None, Vec::new()),
    };
    let ghost supplied_exprs = exprs@;
    match check_arity(num_args, count) {
        Err(e) => {
            return Err(LogError::Bind(e));
        },
        Ok(()) => {},
    }
    let mut instructions: Vec<Instruction<E>> = Vec::new();
    instructions.push(Instruction::Header { target, level: level_source, num_args });
    let ghost header = instructions@[0]@;
    let mut i: usize = 0;
    let ghost mut k: int = 0;
    proof {
        assert(all.take(0) =~= Seq::<FragmentView>::empty());
        assert(instructions_view(instructions@) =~= seq![header] + bound(
            all.take(0),
            supplied_exprs,
        ));
        assert(exprs@ =~= supplied_exprs.subrange(0, supplied_exprs.len() as int));
    }
    while i < fragments.len()
        invariant
            i <= fragments@.len(),
            all == fragments_view(fragments@),
            k == param_count(all.take(i as int)),
            k <= param_count(all),
            param_count(all) == num_args,
            num_args > 0 ==> supplied_exprs.len() == num_args,
            k <= supplied_exprs.len() || num_args == 0,
            num_args > 0 ==> exprs@ == supplied_exprs.subrange(k, supplied_exprs.len() as int),
            instructions_view(instructions@) == seq![header] + bound(
                all.take(i as int),
                supplied_exprs,
            ),
        decreases fragments@.len() - i,
    {
        proof {
            assert(all.take(i + 1).drop_last() =~= all.take(i as int));
            assert(all.take(i + 1).last() == fragments@[i as int]@);
            lemma_param_count_prefix(all, i + 1);
        }
        let ghost before = instructions_view(instructions@);
        match &fragments[i] {
            Fragment::Literal(text) => {
                let copy = slice_to_vec(text.as_slice());
                instructions.push(Instruction::Literal(copy));
            },
            Fragment::Parameter(hint) => {
                let arg = exprs.remove(0);
                proof {
                    assert(arg == supplied_exprs[k]);
                    assert(exprs@ =~= supplied_exprs.subrange(
                        k + 1,
                        supplied_exprs.len() as int,
                    ));
                    k = k + 1;
                }
                instructions.push(Instruction::Value { hint: *hint, arg });
            },
        }
        i += 1;
        proof {
            assert(instructions_view(instructions@) =~= before.push(instructions@.last()@));
            assert(instructions_view(instructions@) =~= seq![header] + bound(
                all.take(i as int),
                supplied_exprs,
            ));
        }
    }
    proof {
        assert(all.take(i as int) =~= all);
    }
    Ok(Expansion { ctx, instructions })
}

/// The first `n` fragments hold no more placeholders than all of them.
pub proof fn lemma_param_count_prefix(fragments: Seq<FragmentView>, n: int)
    requires
        0 <= n <= fragments.len(),
    ensures
        param_count(fragments.take(n)) <= param_count(fragments),
    decreases fragments.len() - n,
{
    if n < fragments.len() {
        assert(fragments.take(n + 1).drop_last() =~= fragments.take(n));
        lemma_param_count_prefix(fragments, n + 1);
    } else {
        assert(fragments.take(n) =~= fragments);
    }
}

/// Expands a logging call at the level `Error`, unless the call names
/// another.
pub fn error<E>(args: LogArgs<E>) -> (r: Result<Expansion<E>, LogError>)
    ensures
        match r {
            Ok(expansion) => log_spec(args@, Some(Level::Error)) == Ok::<
                ExpansionView<E>,
                LogError,
            >(expansion@),
            Err(e) => log_spec(args@, Some(Level::Error)) == Err::<ExpansionView<E>, LogError>(e),
        },
{
    log(args, Some(Level::Error))
}

/// Expands a logging call at the level `Warn`, unless the call names
/// another.
pub fn warn<E>(args: LogArgs<E>) -> (r: Result<Expansion<E>, LogError>)
    ensures
        match r {
            Ok(expansion) => log_spec(args@, Some(Level::Warn)) == Ok::<
                ExpansionView<E>,
                LogError,
            >(expansion@),
            Err(e) => log_spec(args@, Some(Level::Warn)) == Err::<ExpansionView<E>, LogError>(e),
        },
{
    log(args, Some(Level::Warn))
}

/// Expands a logging call at the level `Info`, unless the call names
/// another.
pub fn info<E>(args: LogArgs<E>) -> (r: Result<Expansion<E>, LogError>)
    ensures
        match r {
            Ok(expansion) => log_spec(args@, Some(Level::Info)) == Ok::<
                ExpansionView<E>,
                LogError,
            >(expansion@),
            Err(e) => log_spec(args@, Some(Level::Info)) == Err::<ExpansionView<E>, LogError>(e),
        },
{
    log(args, Some(Level::Info))
}

/// Expands a logging call at the level `Debug`, unless the call names
/// another.
pub fn debug<E>(args: LogArgs<E>) -> (r: Result<Expansion<E>, LogError>)
    ensures
        match r {
            Ok(expansion) => log_spec(args@, Some(Level::Debug)) == Ok::<
                ExpansionView<E>,
                LogError,
            >(expansion@),
            Err(e) => log_spec(args@, Some(Level::Debug)) == Err::<ExpansionView<E>, LogError>(e),
        },
{
    log(args, Some(Level::Debug))
}

/// Expands a logging call at the level `Trace`, unless the call names
/// another.
pub fn trace<E>(args: LogArgs<E>) -> (r: Result<Expansion<E>, LogError>)
    ensures
        match r {
            Ok(expansion) => log_spec(args@, Some(Level::Trace)) == Ok::<
                ExpansionView<E>,
                LogError,
            >(expansion@),
            Err(e) => log_spec(args@, Some(Level::Trace)) == Err::<ExpansionView<E>, LogError>(e),
        },
{
    log(args, Some(Level::Trace))
}

/// The template that instructions stand for: the literal text and the
/// placeholders, in order. This is what the decoder renders a record into.
pub open spec fn template_of<E>(instructions: Seq<InstructionView<E>>) -> Seq<FragmentView>
    decreases instructions.len(),
{
    if instructions.len() == 0 {
        Seq::empty()
    } else {
        let before = template_of(instructions.drop_last());
        match instructions.last() {
            InstructionView::Header { target, level, num_args } => before,
            InstructionView::Literal(text) => before.push(FragmentView::Literal(text)),
            InstructionView::Value { hint, arg } => before.push(FragmentView::Parameter(hint)),
        }
    }
}

/// The instructions that fragments are bound to stand for these
/// fragments.
pub proof fn lemma_template_of_bound<E>(
    header: InstructionView<E>,
    fragments: Seq<FragmentView>,
    args: Seq<E>,
)
    requires
        header is Header,
    ensures
        template_of(seq![header] + bound(fragments, args)) == fragments,
    decreases fragments.len(),
{
    let instructions = seq![header] + bound(fragments, args);
    if fragments.len() == 0 {
        assert(instructions.drop_last() =~= Seq::<InstructionView<E>>::empty());
        assert(template_of(instructions.drop_last()) =~= Seq::<FragmentView>::empty());
        assert(template_of(instructions) =~= fragments);
    } else {
        let before = fragments.drop_last();
        lemma_template_of_bound(header, before, args);
        assert(instructions.drop_last() =~= seq![header] + bound(before, args));
        assert(template_of(instructions) =~= fragments);
    }
}

/// The template of an expansion is the parsed format string of its call:
/// the literal instructions carry exactly the text that the decoder puts
/// between the rendered values.
pub proof fn lemma_template_of_log<E>(args: LogArgsView<E>, implied: Option<Level>)
    ensures
        log_spec(args, implied) matches Ok(expansion) ==> parse_spec(
            encode_utf8(args.format_string),
        ) == Ok::<Seq<FragmentView>, ParseError>(template_of(expansion.instructions)),
{
    if let Ok(expansion) = log_spec(args, implied) {
        let fragments = parse_spec(encode_utf8(args.format_string)).unwrap();
        let supplied_args = match args.formatting_args {
            Some(a) => a,
            None => Seq::empty(),
        };
        lemma_template_of_bound(expansion.instructions[0], fragments, supplied_args);
    }
}

/// The arity rule of a call: where a level stands and the format string
/// parses, a call with an argument list expands if and only if the list
/// holds exactly one argument for each placeholder.
pub proof fn lemma_log_arity<E>(args: LogArgsView<E>, implied: Option<Level>)
    requires
        resolve_level(args.level, implied) is Some,
        parse_spec(encode_utf8(args.format_string)) is Ok,
        args.formatting_args is Some,
        args.formatting_args->0.len() <= usize::MAX,
        parse_spec(encode_utf8(args.format_string))->Ok_0.len() <= usize::MAX,
    ensures
        log_spec(args, implied) is Ok <==> args.formatting_args->0.len() == param_count(
            parse_spec(encode_utf8(args.format_string))->Ok_0,
        ),
{
    let fragments = parse_spec(encode_utf8(args.format_string))->Ok_0;
    crate::binder::lemma_param_hints_len(fragments);
}

impl<E> Expansion<E> {
    /// Returns the template of this expansion: its literal text and its
    /// placeholders, in order.
    pub fn template(&self) -> (fragments: Vec<Fragment>)
        ensures
            fragments_view(fragments@) == template_of(self@.instructions),
    {
        let ghost all = instructions_view(self.instructions@);
        let mut fragments: Vec<Fragment> = Vec::new();
        let mut i: usize = 0;
        proof {
            assert(all.take(0) =~= Seq::<InstructionView<E>>::empty());
            assert(fragments_view(fragments@) =~= template_of(all.take(0)));
        }
        while i < self.instructions.len()
            invariant
                i <= self.instructions@.len(),
                all == instructions_view(self.instructions@),
                fragments_view(fragments@) == template_of(all.take(i as int)),
            decreases self.instructions@.len() - i,
        {
            proof {
                assert(all.take(i + 1).drop_last() =~= all.take(i as int));
                assert(all.take(i + 1).last() == self.instructions@[i as int]@);
            }
            let ghost before = fragments_view(fragments@);
            match &self.instructions[i] {
                Instruction::Header { target, level, num_args } => {},
                Instruction::Literal(text) => {
                    fragments.push(Fragment::Literal(slice_to_vec(text.as_slice())));
                    proof {
                        assert(fragments_view(fragments@) =~= before.push(fragments@.last()@));
                    }
                },
                Instruction::Value { hint, arg } => {
                    fragments.push(Fragment::Parameter(*hint));
                    proof {
                        assert(fragments_view(fragments@) =~= before.push(fragments@.last()@));
                    }
                },
            }
            i += 1;
        }
        proof {
            assert(all.take(i as int) =~= all);
        }
        fragments
    }
}

} // verus!
