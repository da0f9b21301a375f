//! The logical message of a record: what the decoder hands on once it has
//! read the record and rendered its values into the call site's template.

use vstd::prelude::*;
use vstd::slice::*;
use crate::binder::{bind_spec, hints_of, lemma_first_unsupported, lemma_param_hints_len};
use crate::decoder::{decode_record, lemma_parse_record_of_bytes, parse_record};
use crate::hint::DisplayHint;
use crate::level::Level;
use crate::parser::{fragments_view, param_count, param_hints, Fragment, FragmentView};
use crate::render::{push_value, render_text};
use crate::value::Value;
use crate::wire::{
    entries_of, record_bytes, valid_record, Binding, HeaderView, LogRecordHeader, WireEntry,
};

verus! {

/// A decoded log message.
#[derive(Clone, Debug, PartialEq, Eq)]
pub struct Message {
    pub target: Vec<u8>,
    pub level: Level,
    pub module: Vec<u8>,
    pub file: Vec<u8>,
    pub line: u32,
    /// The rendered text.
    pub text: Vec<u8>,
}

/// A message as a mathematical value.
pub struct MessageView {
    pub target: Seq<u8>,
    pub level: Level,
    pub module: Seq<u8>,
    pub file: Seq<u8>,
    pub line: u32,
    pub text: Seq<u8>,
}

impl View for Message {
    type V = MessageView;

    open spec fn view(&self) -> MessageView {
        MessageView {
            target: self.target@,
            level: self.level,
            module: self.module@,
            file: self.file@,
            line: self.line,
            text: self.text@,
        }
    }
}

/// The hints of `bindings`, in order.
pub open spec fn binding_hints(bindings: Seq<Binding>) -> Seq<DisplayHint> {
    bindings.map_values(|b: Binding| b.hint)
}

/// Whether `bindings` are what the template `fragments` asks for: one
/// binding for each placeholder, with the placeholder's hint.
pub open spec fn matches_template(fragments: Seq<FragmentView>, bindings: Seq<Binding>) -> bool {
    param_hints(fragments) == binding_hints(bindings)
}

/// The message that a record stands for under the template `fragments`.
pub open spec fn message_of(
    header: HeaderView,
    fragments: Seq<FragmentView>,
    bindings: Seq<Binding>,
) -> MessageView {
    MessageView {
        target: header.target,
        level: header.level,
        module: header.module,
        file: header.file,
        line: header.line,
        text: render_text(fragments, bindings),
    }
}

/// The bindings that `entries` carry.
pub open spec fn bindings_of(entries: Seq<WireEntry>) -> Seq<Binding> {
    choose|bindings: Seq<Binding>| entries_of(bindings) == entries
}

/// The message that `bytes` stand for under the template `fragments`:
/// `None` where `bytes` hold no record, or one that the template does not
/// ask for.
pub open spec fn decode_spec(fragments: Seq<FragmentView>, bytes: Seq<u8>) -> Option<
    MessageView,
> {
    match parse_record(bytes) {
        None => None,
        Some((header, entries)) => {
            let bindings = bindings_of(entries);
            if matches_template(fragments, bindings) {
                Some(message_of(header, fragments, bindings))
            } else {
                None
            }
        },
    }
}

/// Bindings are known by their entries: two sequences of bindings with the
/// same entries are the same.
pub proof fn lemma_entries_injective(a: Seq<Binding>, b: Seq<Binding>)
    requires
        entries_of(a) == entries_of(b),
    ensures
        a == b,
{
    assert(a.len() == entries_of(a).len());
    assert(b.len() == entries_of(b).len());
    assert forall|i: int| 0 <= i < a.len() implies a[i] == b[i] by {
        assert(entries_of(a)[i] == a[i].entry());
        assert(entries_of(b)[i] == b[i].entry());
        Value::lemma_payload_injective(a[i].value, b[i].value);
    }
    assert(a =~= b);
}

/// The bindings that the entries of `bindings` carry are `bindings`.
pub proof fn lemma_bindings_of_entries(bindings: Seq<Binding>)
    ensures
        bindings_of(entries_of(bindings)) == bindings,
{
    let found = bindings_of(entries_of(bindings));
    assert(entries_of(bindings) == entries_of(bindings));
    lemma_entries_injective(found, bindings);
}

/// The entries of well-typed bindings, under a header that counts them,
/// make a valid record.
pub proof fn lemma_bindings_valid(header: HeaderView, bindings: Seq<Binding>)
    requires
        header.encodable(),
        header.num_args as nat == bindings.len(),
        forall|i: int| 0 <= i < bindings.len() ==> (#[trigger] bindings[i]).well_typed(),
    ensures
        valid_record(header, entries_of(bindings)),
{
    let entries = entries_of(bindings);
    assert forall|i: int| 0 <= i < entries.len() implies (#[trigger] entries[i]).well_formed() by {
        assert(bindings[i].well_typed());
        bindings[i].value.lemma_payload_len();
    }
}

/// Round trip: the bytes of a record decode, under the template that the
/// record was bound to, to the message that the record stands for: its
/// target, level, module, file and line, and its rendered text.
pub proof fn lemma_round_trip(
    header: HeaderView,
    fragments: Seq<FragmentView>,
    bindings: Seq<Binding>,
)
    requires
        header.encodable(),
        header.num_args as nat == bindings.len(),
        forall|i: int| 0 <= i < bindings.len() ==> (#[trigger] bindings[i]).well_typed(),
        matches_template(fragments, bindings),
    ensures
        decode_spec(fragments, record_bytes(header, entries_of(bindings))) == Some(
            message_of(header, fragments, bindings),
        ),
{
    lemma_bindings_valid(header, bindings);
    lemma_parse_record_of_bytes(header, entries_of(bindings));
    lemma_bindings_of_entries(bindings);
}

/// A record without values is its header and nothing more.
pub proof fn lemma_no_args_is_header_only(header: HeaderView)
    ensures
        record_bytes(header, entries_of(Seq::<Binding>::empty())) == header.bytes(),
{
    let entries = entries_of(Seq::<Binding>::empty());
    assert(entries =~= Seq::<WireEntry>::empty());
    assert(record_bytes(header, entries) =~= header.bytes());
}

/// Round trip from the binder on: whatever values the binder accepts for
/// a template, the record that carries them decodes under that template to
/// the message that was logged.
pub proof fn lemma_bound_round_trip(
    header: HeaderView,
    fragments: Seq<FragmentView>,
    values: Seq<Value>,
)
    requires
        fragments.len() <= usize::MAX,
        values.len() <= usize::MAX,
        header.encodable(),
        header.num_args as nat == values.len(),
        bind_spec(fragments, values) is Ok,
    ensures
        bind_spec(fragments, values) matches Ok(bindings) && decode_spec(
            fragments,
            record_bytes(header, entries_of(bindings)),
        ) == Some(message_of(header, fragments, bindings)),
{
    let bindings = bind_spec(fragments, values)->Ok_0;
    lemma_bound_fits(fragments, values);
    lemma_param_hints_len(fragments);
    lemma_round_trip(header, fragments, bindings);
}

/// What the binder hands out fits its template: the bindings match the
/// template's placeholders, and each value has the capability that its hint
/// asks for.
pub proof fn lemma_bound_fits(fragments: Seq<FragmentView>, values: Seq<Value>)
    requires
        fragments.len() <= usize::MAX,
        values.len() <= usize::MAX,
    ensures
        bind_spec(fragments, values) matches Ok(bindings) ==> {
            &&& bindings.len() == param_count(fragments)
            &&& matches_template(fragments, bindings)
            &&& forall|i: int| 0 <= i < bindings.len() ==> (#[trigger] bindings[i]).well_typed()
        },
{
    if let Ok(bindings) = bind_spec(fragments, values) {
        let hints = param_hints(fragments);
        lemma_param_hints_len(fragments);
        lemma_first_unsupported(hints, values);
        assert(binding_hints(bindings) =~= hints);
        assert forall|i: int| 0 <= i < bindings.len() implies (
        #[trigger] bindings[i]).well_typed() by {
            assert(hints[i].accepts(values[i].kind_of()));
        }
    }
}

/// Renders the text of a record: the literal text of the template
/// `fragments`, with the text of each bound value in the place of its
/// placeholder. Returns `None` where `bindings` are not what the template
/// asks for.
pub fn render(fragments: &[Fragment], bindings: &[Binding]) -> (r: Option<Vec<u8>>)
    ensures
        match r {
            Some(text) => {
                &&& matches_template(fragments_view(fragments@), bindings@)
                &&& text@ == render_text(fragments_view(fragments@), bindings@)
            },
            None => !matches_template(fragments_view(fragments@), bindings@),
        },
{
    let ghost all = fragments_view(fragments@);
    let hints = hints_of(fragments);
    if hints.len() != bindings.len() {
        return None;
    }
    let mut j: usize = 0;
    while j < hints.len()
        invariant
            j <= hints@.len() == bindings@.len(),
            hints@ == param_hints(fragments_view(fragments@)),
            forall|m: int| 0 <= m < j ==> hints@[m] == (#[trigger] bindings@[m]).hint,
        decreases hints@.len() - j,
    {
        if hints[j] != bindings[j].hint {
            proof {
                assert(binding_hints(bindings@)[j as int] == bindings@[j as int].hint);
            }
            return None;
        }
        j += 1;
    }
    proof {
        assert(hints@ =~= binding_hints(bindings@));
    }
    let mut text: Vec<u8> = Vec::new();
    let mut i: usize = 0;
    let mut k: usize = 0;
    proof {
        assert(all.take(0) =~= Seq::<FragmentView>::empty());
    }
    while i < fragments.len()
        invariant
            i <= fragments@.len(),
            all == fragments_view(fragments@),
            k == param_count(all.take(i as int)),
            param_count(all) == bindings@.len(),
            text@ == render_text(all.take(i as int), bindings@),
        decreases fragments@.len() - i,
    {
        proof {
            assert(all.take(i + 1).drop_last() =~= all.take(i as int));
            assert(all.take(i + 1).last() == fragments@[i as int]@);
            crate::expand::lemma_param_count_prefix(all, i + 1);
        }
        match &fragments[i] {
            Fragment::Literal(literal) => {
                let mut m: usize = 0;
                let ghost before = text@;
                while m < literal.len()
                    invariant
                        m <= literal@.len(),
                        text@ == before + literal@.take(m as int),
                    decreases literal@.len() - m,
                {
                    text.push(literal[m]);
                    m += 1;
                    assert(text@ =~= before + literal@.take(m as int));
                }
                assert(literal@.take(m as int) =~= literal@);
            },
            Fragment::Parameter(_) => {
                let binding = &bindings[k];
                push_value(&mut text, binding.hint, &binding.value);
                k += 1;
            },
        }
        i += 1;
    }
    proof {
        assert(all.take(i as int) =~= all);
    }
    Some(text)
}

/// Decodes one message: reads the record that `bytes` hold and renders it
/// into the template `fragments`. Returns `None`, and the record is to be
/// discarded, where `bytes` hold no record or one that the template does
/// not ask for.
pub fn decode(fragments: &[Fragment], bytes: &[u8]) -> (r: Option<Message>)
    ensures
        match r {
            Some(message) => decode_spec(fragments_view(fragments@), bytes@) == Some(message@),
            None => decode_spec(fragments_view(fragments@), bytes@) is None,
        },
{
    let record = match decode_record(bytes) {
        Some(record) => record,
        None => {
            return None;
        },
    };
    proof {
        lemma_bindings_of_entries(record.args@);
    }
    let text = match render(fragments, record.args.as_slice()) {
        Some(text) => text,
        None => {
            return None;
        },
    };
    let LogRecordHeader { target, level, module, file, line, num_args } = record.header;
    Some(Message { target, level, module, file, line, text })
}

} // verus!
