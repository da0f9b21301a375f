//! The decoder's side of the wire: reading a record back from its bytes.
//!
//! A record with an unknown tag, a hint bound to a kind that it does not
//! accept, a field that runs past the end, or bytes left over is corrupt and
//! is discarded as a whole.

use vstd::prelude::*;
use vstd::slice::*;
use crate::bytes::{
    get_le, le_bytes, le_value, lemma_le_bytes_len, lemma_le_bytes_of_value, lemma_le_round_trip,
    lemma_le_value_bound, lemma_pow256_values,
};
use crate::hint::{ArgKind, DisplayHint};
use crate::level::Level;
use crate::text::copy_of;
use crate::value::Value;
use crate::wire::{
    entries_bytes, entries_len, entries_of, lemma_entries_bytes_len, lemma_header_bytes_len,
    lemma_text_bytes_len, record_bytes, text_bytes, valid_record, Binding, HeaderView,
    LogRecordHeader, WireEntry, MAX_TEXT_LEN,
};

verus! {

/// A decoded record: the header and the bound values, in order.
#[derive(Clone, Debug, PartialEq, Eq)]
pub struct Record {
    pub header: LogRecordHeader,
    pub args: Vec<Binding>,
}

impl Record {
    /// The entries that carry this record's values.
    pub open spec fn entries(self) -> Seq<WireEntry> {
        entries_of(self.args@)
    }
}

/// The text field that starts at `at`, and the position behind it.
pub open spec fn parse_text(bytes: Seq<u8>, at: int) -> Option<(Seq<u8>, int)> {
    if 0 <= at && at + 2 <= bytes.len() {
        let n = le_value(bytes.subrange(at, at + 2));
        if at + 2 + n <= bytes.len() {
            Some((bytes.subrange(at + 2, at + 2 + n), at + 2 + n))
        } else {
            None
        }
    } else {
        None
    }
}

/// The header at the start of `bytes`, and the position behind it.
pub open spec fn parse_header(bytes: Seq<u8>) -> Option<(HeaderView, int)> {
    match parse_text(bytes, 0) {
        None => None,
        Some((target, level_at)) => if level_at + 1 > bytes.len() {
            None
        } else {
            match (Level::of_wire(bytes[level_at]), parse_text(bytes, level_at + 1)) {
                (Some(level), Some((module, file_at))) => match parse_text(bytes, file_at) {
                    None => None,
                    Some((file, line_at)) => if line_at + 8 > bytes.len() {
                        None
                    } else {
                        Some(
                            (
                                HeaderView {
                                    target,
                                    level,
                                    module,
                                    file,
                                    line: le_value(bytes.subrange(line_at, line_at + 4)) as u32,
                                    num_args: le_value(
                                        bytes.subrange(line_at + 4, line_at + 8),
                                    ) as u32,
                                },
                                line_at + 8,
                            ),
                        )
                    },
                },
                _ => None,
            }
        },
    }
}

/// The entry that starts at `at`, and the position behind it.
pub open spec fn parse_entry(bytes: Seq<u8>, at: int) -> Option<(WireEntry, int)> {
    if 0 <= at && at + 2 <= bytes.len() {
        match (DisplayHint::of_wire(bytes[at]), ArgKind::of_wire(bytes[at + 1])) {
            (Some(hint), Some(kind)) => if hint.accepts(kind) && at + 2 + kind.payload_len()
                <= bytes.len() {
                Some(
                    (
                        WireEntry {
                            hint,
                            kind,
                            payload: bytes.subrange(at + 2, at + 2 + kind.payload_len()),
                        },
                        at + 2 + kind.payload_len(),
                    ),
                )
            } else {
                None
            },
            _ => None,
        }
    } else {
        None
    }
}

/// The `count` entries that start at `at`, and the position behind them.
pub open spec fn parse_entries(bytes: Seq<u8>, at: int, count: nat) -> Option<
    (Seq<WireEntry>, int),
>
    decreases count,
{
    if count == 0 {
        Some((Seq::empty(), at))
    } else {
        match parse_entry(bytes, at) {
            None => None,
            Some((first, next)) => match parse_entries(bytes, next, (count - 1) as nat) {
                None => None,
                Some((rest, end)) => Some((seq![first] + rest, end)),
            },
        }
    }
}

/// The record that `bytes` hold, if they hold exactly one.
pub open spec fn parse_record(bytes: Seq<u8>) -> Option<(HeaderView, Seq<WireEntry>)> {
    match parse_header(bytes) {
        None => None,
        Some((header, at)) => match parse_entries(bytes, at, header.num_args as nat) {
            None => None,
            Some((entries, end)) => if end == bytes.len() {
                Some((header, entries))
            } else {
                None
            },
        },
    }
}

/// `parsed`, with `done` put in front of the entries where there are any.
pub open spec fn after(done: Seq<WireEntry>, parsed: Option<(Seq<WireEntry>, int)>) -> Option<
    (Seq<WireEntry>, int),
> {
    match parsed {
        None => None,
        Some((rest, end)) => Some((done + rest, end)),
    }
}

/// A text field that lies at `at` is read back as it was written.
pub proof fn lemma_parse_text_of_bytes(bytes: Seq<u8>, at: int, text: Seq<u8>)
    requires
        0 <= at,
        text.len() <= MAX_TEXT_LEN,
        at + 2 + text.len() <= bytes.len(),
        bytes.subrange(at, at + 2 + text.len()) == text_bytes(text),
    ensures
        parse_text(bytes, at) == Some((text, at + 2 + text.len())),
{
    let field = bytes.subrange(at, at + 2 + text.len());
    lemma_le_bytes_len(text.len(), 2);
    lemma_pow256_values();
    lemma_le_round_trip(text.len(), 2);
    assert(bytes.subrange(at, at + 2) =~= field.subrange(0, 2));
    assert(field.subrange(0, 2) =~= le_bytes(text.len(), 2));
    assert(bytes.subrange(at + 2, at + 2 + text.len()) =~= field.subrange(
        2,
        2 + text.len() as int,
    ));
    assert(field.subrange(2, 2 + text.len() as int) =~= text);
}

/// A header that lies at the start of `bytes` is read back as it was
/// written.
pub proof fn lemma_parse_header_of_bytes(bytes: Seq<u8>, header: HeaderView)
    requires
        header.encodable(),
        header.len() <= bytes.len(),
        bytes.subrange(0, header.len() as int) == header.bytes(),
    ensures
        parse_header(bytes) == Some((header, header.len() as int)),
{
    let hb = header.bytes();
    let n = header.len() as int;
    let level_at = 2 + header.target.len() as int;
    let file_at = level_at + 1 + 2 + header.module.len() as int;
    let line_at = file_at + 2 + header.file.len() as int;
    lemma_header_bytes_len(header);
    lemma_text_bytes_len(header.target);
    lemma_text_bytes_len(header.module);
    lemma_text_bytes_len(header.file);
    lemma_le_bytes_len(header.line as nat, 4);
    lemma_le_bytes_len(header.num_args as nat, 4);
    lemma_pow256_values();
    assert(bytes.subrange(0, level_at) =~= hb.subrange(0, level_at));
    assert(hb.subrange(0, level_at) =~= text_bytes(header.target));
    lemma_parse_text_of_bytes(bytes, 0, header.target);
    assert(bytes[level_at] == hb[level_at]);
    assert(hb[level_at] == header.level.wire_value());
    header.level.lemma_wire_round_trip();
    assert(bytes.subrange(level_at + 1, file_at) =~= hb.subrange(level_at + 1, file_at));
    assert(hb.subrange(level_at + 1, file_at) =~= text_bytes(header.module));
    lemma_parse_text_of_bytes(bytes, level_at + 1, header.module);
    assert(bytes.subrange(file_at, line_at) =~= hb.subrange(file_at, line_at));
    assert(hb.subrange(file_at, line_at) =~= text_bytes(header.file));
    lemma_parse_text_of_bytes(bytes, file_at, header.file);
    assert(bytes.subrange(line_at, line_at + 4) =~= hb.subrange(line_at, line_at + 4));
    assert(hb.subrange(line_at, line_at + 4) =~= le_bytes(header.line as nat, 4));
    lemma_le_round_trip(header.line as nat, 4);
    assert(bytes.subrange(line_at + 4, line_at + 8) =~= hb.subrange(line_at + 4, line_at + 8));
    assert(hb.subrange(line_at + 4, line_at + 8) =~= le_bytes(header.num_args as nat, 4));
    lemma_le_round_trip(header.num_args as nat, 4);
}

/// Entries that lie at `at` are read back as they were written.
pub proof fn lemma_parse_entries_of_bytes(bytes: Seq<u8>, at: int, entries: Seq<WireEntry>)
    requires
        0 <= at,
        at + entries_len(entries) <= bytes.len(),
        bytes.subrange(at, at + entries_len(entries)) == entries_bytes(entries),
        forall|i: int| 0 <= i < entries.len() ==> (#[trigger] entries[i]).well_formed(),
    ensures
        parse_entries(bytes, at, entries.len()) == Some((entries, at + entries_len(entries))),
    decreases entries.len(),
{
    if entries.len() == 0 {
        assert(entries =~= Seq::<WireEntry>::empty());
    } else {
        let first = entries[0];
        let rest = entries.drop_first();
        let all = entries_bytes(entries);
        let width = first.payload.len() as int;
        let next = at + 2 + width;
        lemma_entries_bytes_len(entries);
        lemma_entries_bytes_len(rest);
        assert(first.well_formed());
        assert(bytes[at] == all[0]);
        assert(bytes[at + 1] == all[1]);
        first.hint.lemma_wire_round_trip();
        first.kind.lemma_wire_round_trip();
        assert(bytes.subrange(at + 2, next) =~= all.subrange(2, 2 + width));
        assert(all.subrange(2, 2 + width) =~= first.payload);
        assert(parse_entry(bytes, at) == Some((first, next)));
        assert(bytes.subrange(next, next + entries_len(rest)) =~= all.subrange(
            2 + width,
            all.len() as int,
        ));
        assert(all.subrange(2 + width, all.len() as int) =~= entries_bytes(rest));
        assert forall|i: int| 0 <= i < rest.len() implies (#[trigger] rest[i]).well_formed() by {
            assert(rest[i] == entries[i + 1]);
        }
        lemma_parse_entries_of_bytes(bytes, next, rest);
        assert(seq![first] + rest =~= entries);
    }
}

/// Round trip on the wire: the bytes of a record are read back as the
/// record that wrote them.
pub proof fn lemma_parse_record_of_bytes(header: HeaderView, entries: Seq<WireEntry>)
    requires
        valid_record(header, entries),
    ensures
        parse_record(record_bytes(header, entries)) == Some((header, entries)),
{
    let bytes = record_bytes(header, entries);
    lemma_header_bytes_len(header);
    lemma_entries_bytes_len(entries);
    assert(bytes.subrange(0, header.len() as int) =~= header.bytes());
    lemma_parse_header_of_bytes(bytes, header);
    assert(bytes.subrange(header.len() as int, (header.len() + entries_len(entries)) as int)
        =~= entries_bytes(entries));
    lemma_parse_entries_of_bytes(bytes, header.len() as int, entries);
}

/// A text field that is read lies on the wire as its own bytes.
pub proof fn lemma_parse_text_sound(bytes: Seq<u8>, at: int)
    ensures
        parse_text(bytes, at) matches Some((text, next)) ==> {
            &&& text.len() <= MAX_TEXT_LEN
            &&& next == at + 2 + text.len()
            &&& 0 <= at && next <= bytes.len()
            &&& bytes.subrange(at, next) == text_bytes(text)
        },
{
    if let Some((text, next)) = parse_text(bytes, at) {
        let prefix = bytes.subrange(at, at + 2);
        lemma_le_value_bound(prefix);
        lemma_le_bytes_of_value(prefix);
        lemma_pow256_values();
        assert(bytes.subrange(at, next) =~= text_bytes(text));
    }
}

/// A header that is read lies at the start of `bytes` as its own bytes.
pub proof fn lemma_parse_header_sound(bytes: Seq<u8>)
    ensures
        parse_header(bytes) matches Some((header, end)) ==> {
            &&& header.encodable()
            &&& end == header.len()
            &&& end <= bytes.len()
            &&& bytes.subrange(0, end) == header.bytes()
        },
{
    if let Some((header, end)) = parse_header(bytes) {
        let level_at = 2 + header.target.len() as int;
        let file_at = level_at + 1 + 2 + header.module.len() as int;
        let line_at = file_at + 2 + header.file.len() as int;
        lemma_parse_text_sound(bytes, 0);
        lemma_parse_text_sound(bytes, level_at + 1);
        lemma_parse_text_sound(bytes, file_at);
        Level::lemma_of_wire_sound(bytes[level_at]);
        let line = bytes.subrange(line_at, line_at + 4);
        let count = bytes.subrange(line_at + 4, line_at + 8);
        lemma_le_value_bound(line);
        lemma_le_value_bound(count);
        lemma_le_bytes_of_value(line);
        lemma_le_bytes_of_value(count);
        lemma_pow256_values();
        assert(bytes.subrange(0, end) =~= bytes.subrange(0, level_at) + seq![bytes[level_at]]
            + bytes.subrange(level_at + 1, file_at) + bytes.subrange(file_at, line_at) + line
            + count);
    }
}

/// Entries that are read are well formed and lie on the wire as their own
/// bytes.
pub proof fn lemma_parse_entries_sound(bytes: Seq<u8>, at: int, count: nat)
    ensures
        parse_entries(bytes, at, count) matches Some((entries, end)) ==> {
            &&& entries.len() == count
            &&& forall|i: int| 0 <= i < entries.len() ==> (#[trigger] entries[i]).well_formed()
            &&& end == at + entries_len(entries)
            &&& (count > 0 ==> 0 <= at && end <= bytes.len())
            &&& (count > 0 ==> bytes.subrange(at, end) == entries_bytes(entries))
            &&& (count == 0 ==> entries_bytes(entries) == Seq::<u8>::empty())
        },
    decreases count,
{
    if let Some((entries, end)) = parse_entries(bytes, at, count) {
        if count > 0 {
            let (first, next) = parse_entry(bytes, at).unwrap();
            let (rest, end2) = parse_entries(bytes, next, (count - 1) as nat).unwrap();
            lemma_parse_entries_sound(bytes, next, (count - 1) as nat);
            DisplayHint::lemma_of_wire_sound(bytes[at]);
            ArgKind::lemma_of_wire_sound(bytes[at + 1]);
            assert(entries.drop_first() =~= rest);
            assert(entries[0] == first);
            assert forall|i: int| 0 <= i < entries.len() implies (
            #[trigger] entries[i]).well_formed() by {
                if i > 0 {
                    assert(entries[i] == rest[i - 1]);
                }
            }
            assert(bytes.subrange(at, next) =~= first.bytes());
            if count > 1 {
                assert(bytes.subrange(at, end) =~= bytes.subrange(at, next) + bytes.subrange(
                    next,
                    end,
                ));
            } else {
                assert(bytes.subrange(at, end) =~= first.bytes() + Seq::<u8>::empty());
            }
        } else {
            assert(entries =~= Seq::<WireEntry>::empty());
        }
    }
}

/// The decoder accepts nothing but records: whatever is read from `bytes`
/// is a valid record whose bytes are `bytes`.
pub proof fn lemma_parse_record_sound(bytes: Seq<u8>)
    ensures
        parse_record(bytes) matches Some((header, entries)) ==> {
            &&& valid_record(header, entries)
            &&& record_bytes(header, entries) == bytes
        },
{
    if let Some((header, entries)) = parse_record(bytes) {
        lemma_parse_header_sound(bytes);
        let at = header.len() as int;
        lemma_parse_entries_sound(bytes, at, header.num_args as nat);
        if header.num_args > 0 {
            assert(bytes =~= bytes.subrange(0, at) + bytes.subrange(at, bytes.len() as int));
        } else {
            assert(bytes =~= bytes.subrange(0, at) + Seq::<u8>::empty());
        }
    }
}

/// Reads the text field that starts at `at`.
fn read_text(bytes: &[u8], at: usize) -> (r: Option<(Vec<u8>, usize)>)
    ensures
        match r {
            Some((text, next)) => parse_text(bytes@, at as int) == Some((text@, next as int)),
            None => parse_text(bytes@, at as int) is None,
        },
{
    let len: usize = bytes.len();
    if at > len || len - at < 2 {
        return None;
    }
    let n = get_le(bytes, at, 2);
    proof {
        lemma_le_value_bound(bytes@.subrange(at as int, at + 2));
        lemma_pow256_values();
    }
    let n: usize = n as usize;
    if len - at - 2 < n {
        return None;
    }
    let text = copy_of(bytes, at + 2, at + 2 + n);
    Some((text, at + 2 + n))
}

/// Reads the header at the start of `bytes`: the fields in their fixed
/// order. Returns the header and the position at which the entries begin;
/// `None` where a field runs past the end or the level is unknown.
pub fn decode_header(bytes: &[u8]) -> (r: Option<(LogRecordHeader, usize)>)
    ensures
        match r {
            Some((header, at)) => parse_header(bytes@) == Some((header@, at as int)) && at
                <= bytes@.len(),
            None => parse_header(bytes@) is None,
        },
{
    let len: usize = bytes.len();
    let (target, level_at) = match read_text(bytes, 0) {
        Some(x) => x,
        None => {
            return None;
        },
    };
    if level_at >= len {
        return None;
    }
    let level = match Level::from_u8(bytes[level_at]) {
        Some(l) => l,
        None => {
            return None;
        },
    };
    let (module, file_at) = match read_text(bytes, level_at + 1) {
        Some(x) => x,
        None => {
            return None;
        },
    };
    let (file, line_at) = match read_text(bytes, file_at) {
        Some(x) => x,
        None => {
            return None;
        },
    };
    if len - line_at < 8 {
        return None;
    }
    proof {
        lemma_le_value_bound(bytes@.subrange(line_at as int, line_at + 4));
        lemma_le_value_bound(bytes@.subrange(line_at + 4, line_at + 8));
        lemma_pow256_values();
    }
    let line = get_le(bytes, line_at, 4) as u32;
    let num_args = get_le(bytes, line_at + 4, 4) as u32;
    Some((LogRecordHeader { target, level, module, file, line, num_args }, line_at + 8))
}

/// Reads one record back from its bytes.
///
/// Returns the record that `bytes` hold; `None` when they hold none, in
/// which case the record is corrupt and to be discarded.
pub fn decode_record(bytes: &[u8]) -> (r: Option<Record>)
    ensures
        match r {
            Some(record) => {
                &&& parse_record(bytes@) == Some((record.header@, record.entries()))
                &&& forall|i: int|
                    0 <= i < record.args@.len() ==> (#[trigger] record.args@[i]).well_typed()
            },
            None => parse_record(bytes@) is None,
        },
{
    let len: usize = bytes.len();
    let (header, start) = match decode_header(bytes) {
        Some(read) => read,
        None => {
            return None;
        },
    };
    let count = header.num_args;
    let mut pos: usize = start;
    let mut args: Vec<Binding> = Vec::new();
    let mut i: u32 = 0;
    proof {
        assert(entries_of(args@) =~= Seq::<WireEntry>::empty());
        match parse_entries(bytes@, pos as int, count as nat) {
            Some((rest, end)) => {
                assert(Seq::<WireEntry>::empty() + rest =~= rest);
            },
            None => {},
        }
    }
    while i < count
        invariant
            i <= count,
            len == bytes@.len(),
            parse_header(bytes@) == Some((header@, start as int)),
            header.num_args == count,
            pos <= len,
            args@.len() == i,
            forall|j: int| 0 <= j < args@.len() ==> (#[trigger] args@[j]).well_typed(),
            parse_entries(bytes@, start as int, count as nat) == after(
                entries_of(args@),
                parse_entries(bytes@, pos as int, (count - i) as nat),
            ),
        decreases count - i,
    {
        if len - pos < 2 {
            return None;
        }
        let hint = match DisplayHint::from_tag(bytes[pos]) {
            Some(h) => h,
            None => {
                return None;
            },
        };
        let kind = match ArgKind::from_tag(bytes[pos + 1]) {
            Some(k) => k,
            None => {
                return None;
            },
        };
        if !hint.supports(kind) {
            return None;
        }
        let width = kind.width();
        if len - pos - 2 < width {
            return None;
        }
        let value = Value::read_payload(kind, bytes, pos + 2);
        let binding = Binding { hint, value };
        let ghost done = entries_of(args@);
        let ghost tail = parse_entries(bytes@, pos + 2 + width, (count - i - 1) as nat);
        args.push(binding);
        proof {
            assert(parse_entry(bytes@, pos as int) == Some((binding.entry(), pos + 2 + width)));
            assert(entries_of(args@) =~= done.push(binding.entry()));
            match tail {
                Some((rest, end)) => {
                    assert(done + (seq![binding.entry()] + rest) =~= done.push(binding.entry())
                        + rest);
                },
                None => {},
            }
        }
        pos = pos + 2 + width;
        i += 1;
    }
    if pos != len {
        return None;
    }
    proof {
        assert(entries_of(args@) + Seq::<WireEntry>::empty() =~= entries_of(args@));
    }
    Some(Record { header, args })
}

} // verus!
