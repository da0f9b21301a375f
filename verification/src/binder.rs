//! The argument binder: each placeholder is paired with the next supplied
//! argument, one for one, and each value must have the capability that its
//! hint asks for.

use vstd::prelude::*;
use vstd::slice::*;
use crate::hint::{ArgKind, DisplayHint};
use crate::parser::{fragments_view, param_count, param_hints, Fragment, FragmentView};
use crate::value::Value;
use crate::wire::Binding;

verus! {

/// Why arguments could not be bound to the placeholders of a format string.
#[derive(Clone, Copy, Debug, PartialEq, Eq, Structural)]
pub enum BindError {
    /// The format string has placeholders and the call has no argument list.
    NoArguments { placeholders: usize },
    /// Fewer arguments than placeholders.
    MissingArgument { placeholders: usize, supplied: usize },
    /// More arguments than placeholders.
    TooManyArguments { placeholders: usize, supplied: usize },
    /// The argument at `index` is of a kind that its hint does not accept.
    Unsupported { index: usize, hint: DisplayHint, kind: ArgKind },
}

/// The arity rule: `supplied` arguments (`None`: no argument list at all)
/// for `placeholders` placeholders.
pub open spec fn arity(placeholders: usize, supplied: Option<usize>) -> Result<(), BindError> {
    match supplied {
        None => if placeholders == 0 {
            Ok(())
        } else {
            Err(BindError::NoArguments { placeholders })
        },
        Some(n) => if n < placeholders {
            Err(BindError::MissingArgument { placeholders, supplied: n })
        } else if n > placeholders {
            Err(BindError::TooManyArguments { placeholders, supplied: n })
        } else {
            Ok(())
        },
    }
}

/// The position of the first value whose kind its hint does not accept.
pub open spec fn first_unsupported(hints: Seq<DisplayHint>, values: Seq<Value>) -> Option<int>
    decreases hints.len(),
{
    if hints.len() == 0 || values.len() != hints.len() {
        None
    } else {
        match first_unsupported(hints.drop_last(), values.drop_last()) {
            Some(i) => Some(i),
            None => if hints.last().accepts(values.last().kind_of()) {
                None
            } else {
                Some(hints.len() - 1)
            },
        }
    }
}

/// The bindings of `values` to `hints`, position by position.
pub open spec fn zip(hints: Seq<DisplayHint>, values: Seq<Value>) -> Seq<Binding> {
    Seq::new(hints.len(), |i: int| Binding { hint: hints[i], value: values[i] })
}

/// What binding `values` to the placeholders of `fragments` gives.
pub open spec fn bind_spec(fragments: Seq<FragmentView>, values: Seq<Value>) -> Result<
    Seq<Binding>,
    BindError,
> {
    let hints = param_hints(fragments);
    match arity(hints.len() as usize, Some(values.len() as usize)) {
        Err(e) => Err(e),
        Ok(()) => match first_unsupported(hints, values) {
            Some(i) => Err(
                BindError::Unsupported {
                    index: i as usize,
                    hint: hints[i],
                    kind: values[i].kind_of(),
                },
            ),
            None => Ok(zip(hints, values)),
        },
    }
}

/// There are as many hints as placeholders.
pub proof fn lemma_param_hints_len(fragments: Seq<FragmentView>)
    ensures
        param_hints(fragments).len() == param_count(fragments),
        param_count(fragments) <= fragments.len(),
    decreases fragments.len(),
{
    if fragments.len() > 0 {
        lemma_param_hints_len(fragments.drop_last());
    }
}

/// Where no value is unsupported, every hint accepts its value, and the
/// other way round.
pub proof fn lemma_first_unsupported(hints: Seq<DisplayHint>, values: Seq<Value>)
    requires
        hints.len() == values.len(),
    ensures
        match first_unsupported(hints, values) {
            None => forall|i: int|
                0 <= i < hints.len() ==> (#[trigger] hints[i]).accepts(values[i].kind_of()),
            Some(k) => {
                &&& 0 <= k < hints.len()
                &&& !hints[k].accepts(values[k].kind_of())
                &&& forall|i: int| 0 <= i < k ==> (#[trigger] hints[i]).accepts(values[i].kind_of())
            },
        },
    decreases hints.len(),
{
    if hints.len() > 0 {
        let h = hints.drop_last();
        let v = values.drop_last();
        lemma_first_unsupported(h, v);
        assert forall|i: int| 0 <= i < h.len() implies h[i] == hints[i] && v[i] == values[i] by {}
        match first_unsupported(hints, values) {
            None => {
                assert forall|i: int| 0 <= i < hints.len() implies (#[trigger] hints[i]).accepts(
                    values[i].kind_of(),
                ) by {
                    if i < h.len() {
                        assert(h[i].accepts(v[i].kind_of()));
                    }
                }
            },
            Some(k) => {
                assert forall|i: int| 0 <= i < k implies (#[trigger] hints[i]).accepts(
                    values[i].kind_of(),
                ) by {
                    assert(h[i].accepts(v[i].kind_of()));
                }
            },
        }
    }
}

/// The arity rule is strict: binding succeeds with exactly as many
/// arguments as placeholders, and fails with one fewer or one more.
pub proof fn lemma_arity_exact(placeholders: usize, supplied: usize)
    ensures
        arity(placeholders, Some(supplied)) is Ok <==> supplied == placeholders,
        supplied + 1 == placeholders ==> arity(placeholders, Some(supplied))
            == Err::<(), BindError>(BindError::MissingArgument { placeholders, supplied }),
        supplied == placeholders + 1 ==> arity(placeholders, Some(supplied))
            == Err::<(), BindError>(BindError::TooManyArguments { placeholders, supplied }),
{
}

/// Binding by the number of arguments alone: with values that their hints
/// accept, binding succeeds if and only if there is exactly one value for
/// each placeholder.
pub proof fn lemma_bind_arity(fragments: Seq<FragmentView>, values: Seq<Value>)
    requires
        fragments.len() <= usize::MAX,
        values.len() <= usize::MAX,
        first_unsupported(param_hints(fragments), values) is None,
    ensures
        bind_spec(fragments, values) is Ok <==> values.len() == param_count(fragments),
{
    lemma_param_hints_len(fragments);
}

/// A value that its hint does not accept is rejected when it is bound.
pub proof fn lemma_bind_rejects_unsupported(
    fragments: Seq<FragmentView>,
    values: Seq<Value>,
    index: int,
)
    requires
        0 <= index < values.len(),
        values.len() == param_count(fragments),
        !param_hints(fragments)[index].accepts(values[index].kind_of()),
    ensures
        bind_spec(fragments, values) is Err,
{
    lemma_param_hints_len(fragments);
    lemma_first_unsupported(param_hints(fragments), values);
}

/// Checks the arity rule.
pub fn check_arity(placeholders: usize, supplied: Option<usize>) -> (r: Result<(), BindError>)
    ensures
        r == arity(placeholders, supplied),
{
    match supplied {
        None => if placeholders == 0 {
            Ok(())
        } else {
            Err(BindError::NoArguments { placeholders })
        },
        Some(n) => if n < placeholders {
            Err(BindError::MissingArgument { placeholders, supplied: n })
        } else if n > placeholders {
            Err(BindError::TooManyArguments { placeholders, supplied: n })
        } else {
            Ok(())
        },
    }
}

/// Returns the hints of the placeholders among `fragments`, in order.
pub fn hints_of(fragments: &[Fragment]) -> (hints: Vec<DisplayHint>)
    ensures
        hints@ == param_hints(fragments_view(fragments@)),
        hints@.len() == param_count(fragments_view(fragments@)),
{
    let ghost all = fragments_view(fragments@);
    let mut hints: Vec<DisplayHint> = Vec::new();
    let mut i: usize = 0;
    proof {
        assert(all.take(0) =~= Seq::<FragmentView>::empty());
    }
    while i < fragments.len()
        invariant
            i <= fragments@.len(),
            all == fragments_view(fragments@),
            hints@ == param_hints(all.take(i as int)),
        decreases fragments@.len() - i,
    {
        proof {
            assert(all.take(i + 1).drop_last() =~= all.take(i as int));
            assert(all.take(i + 1).last() == fragments@[i as int]@);
        }
        match &fragments[i] {
            Fragment::Parameter(hint) => {
                hints.push(*hint);
            },
            Fragment::Literal(_) => {},
        }
        i += 1;
    }
    proof {
        assert(all.take(i as int) =~= all);
        lemma_param_hints_len(all);
    }
    hints
}

/// Binds `values` to the placeholders of `fragments`, in order.
///
/// Succeeds if and only if there is exactly one value for each placeholder
/// and each value is of a kind that its hint accepts. An arity error comes
/// before a capability error; of several unsupported values the first is
/// reported.
pub fn bind_values(fragments: &[Fragment], values: &[Value]) -> (r: Result<
    Vec<Binding>,
    BindError,
>)
    ensures
        match r {
            Ok(bindings) => bind_spec(fragments_view(fragments@), values@) == Ok::<
                Seq<Binding>,
                BindError,
            >(bindings@),
            Err(e) => bind_spec(fragments_view(fragments@), values@) == Err::<
                Seq<Binding>,
                BindError,
            >(e),
        },
{
    let hints = hints_of(fragments);
    match check_arity(hints.len(), Some(values.len())) {
        Err(e) => {
            return Err(e);
        },
        Ok(()) => {},
    }
    let mut bindings: Vec<Binding> = Vec::new();
    let mut i: usize = 0;
    while i < hints.len()
        invariant
            i <= hints@.len() == values@.len(),
            hints@ == param_hints(fragments_view(fragments@)),
            bindings@ == zip(hints@.take(i as int), values@.take(i as int)),
            first_unsupported(hints@.take(i as int), values@.take(i as int)) is None,
        decreases hints@.len() - i,
    {
        let hint = hints[i];
        let value = values[i];
        proof {
            assert(hints@.take(i + 1).drop_last() =~= hints@.take(i as int));
            assert(values@.take(i + 1).drop_last() =~= values@.take(i as int));
        }
        if !hint.supports(value.kind()) {
            proof {
                assert(hints@.take(i + 1).last() == hint);
                assert(values@.take(i + 1).last() == value);
                assert(first_unsupported(hints@.take(i + 1), values@.take(i + 1)) == Some(
                    i as int,
                ));
                lemma_unsupported_prefix(hints@, values@, i + 1);
            }
            return Err(BindError::Unsupported { index: i, hint, kind: value.kind() });
        }
        bindings.push(Binding { hint, value });
        i += 1;
        proof {
            assert(bindings@ =~= zip(hints@.take(i as int), values@.take(i as int)));
        }
    }
    proof {
        assert(hints@.take(i as int) =~= hints@);
        assert(values@.take(i as int) =~= values@);
    }
    Ok(bindings)
}

/// An unsupported value among the first `n` is the first unsupported value
/// of all.
proof fn lemma_unsupported_prefix(hints: Seq<DisplayHint>, values: Seq<Value>, n: int)
    requires
        hints.len() == values.len(),
        0 <= n <= hints.len(),
        first_unsupported(hints.take(n), values.take(n)) is Some,
    ensures
        first_unsupported(hints, values) == first_unsupported(hints.take(n), values.take(n)),
    decreases hints.len() - n,
{
    if n < hints.len() {
        assert(hints.take(n + 1).drop_last() =~= hints.take(n));
        assert(values.take(n + 1).drop_last() =~= values.take(n));
        lemma_unsupported_prefix(hints, values, n + 1);
    } else {
        assert(hints.take(n) =~= hints);
        assert(values.take(n) =~= values);
    }
}

} // verus!
