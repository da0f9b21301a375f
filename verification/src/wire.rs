//! The byte layout of a log record.
//!
//! A record is a header followed by one entry for each bound value:
//!
//! ```text
//! header := text(target) level:u8 text(module) text(file) line:u32le count:u32le
//! text   := len:u16le bytes[len]
//! entry  := hint_tag:u8 kind_tag:u8 payload[width(kind)]
//! ```
//!
//! Literal text of the format string never travels: the decoder knows it
//! from the call site and substitutes the rendered values into it. An entry
//! has no length field, so the two tag bytes alone fix how many payload
//! bytes follow.
//!
//! | level   | byte |   | hint       | tag |   | kind   | tag | payload bytes       |
//! |---------|------|---|------------|-----|---|--------|-----|---------------------|
//! | `Error` | 1    |   | `Default`  | 1   |   | `U8`   | 1   | 1                   |
//! | `Warn`  | 2    |   | `LowerHex` | 2   |   | `U16`  | 2   | 2, little-endian    |
//! | `Info`  | 3    |   | `UpperHex` | 3   |   | `U32`  | 3   | 4, little-endian    |
//! | `Debug` | 4    |   | `Ip`       | 4   |   | `U64`  | 4   | 8, little-endian    |
//! | `Trace` | 5    |   | `LowerMac` | 5   |   | `I8`   | 5   | 1, two's complement |
//! |         |      |   | `UpperMac` | 6   |   | `I16`  | 6   | 2, two's complement |
//! |         |      |   |            |     |   | `I32`  | 7   | 4, two's complement |
//! |         |      |   |            |     |   | `I64`  | 8   | 8, two's complement |
//! |         |      |   |            |     |   | `Ipv4` | 9   | 4, first octet first |
//! |         |      |   |            |     |   | `Ipv6` | 10  | 16, first octet first |
//! |         |      |   |            |     |   | `Mac`  | 11  | 6, first octet first |
//!
//! A change to a tag, to the order of the fields or to a width breaks the
//! agreement between encoder and decoder.

use vstd::prelude::*;
use crate::bytes::{le_bytes, lemma_le_bytes_len};
use crate::hint::{ArgKind, DisplayHint};
use crate::level::Level;
use crate::value::Value;

verus! {

/// The longest text that a header field can hold.
pub const MAX_TEXT_LEN: usize = 0xffff;

/// The header bytes that do not belong to a text: three length prefixes, the
/// level, the line and the argument count.
pub const HEADER_FIXED_LEN: usize = 15;

/// The fields of a record header, as mathematical values.
pub struct HeaderView {
    pub target: Seq<u8>,
    pub level: Level,
    pub module: Seq<u8>,
    pub file: Seq<u8>,
    pub line: u32,
    pub num_args: u32,
}

/// The header of a record: where the record comes from, and how many
/// values follow.
#[derive(Clone, Debug, PartialEq, Eq)]
pub struct LogRecordHeader {
    pub target: Vec<u8>,
    pub level: Level,
    pub module: Vec<u8>,
    pub file: Vec<u8>,
    pub line: u32,
    pub num_args: u32,
}

impl View for LogRecordHeader {
    type V = HeaderView;

    open spec fn view(&self) -> HeaderView {
        HeaderView {
            target: self.target@,
            level: self.level,
            module: self.module@,
            file: self.file@,
            line: self.line,
            num_args: self.num_args,
        }
    }
}

/// One entry of a record, as it lies on the wire.
pub struct WireEntry {
    pub hint: DisplayHint,
    pub kind: ArgKind,
    pub payload: Seq<u8>,
}

/// A value bound to a hint.
#[derive(Clone, Copy, Debug, PartialEq, Eq)]
pub struct Binding {
    pub hint: DisplayHint,
    pub value: Value,
}

impl Binding {
    /// The entry that carries this binding.
    pub open spec fn entry(self) -> WireEntry {
        WireEntry { hint: self.hint, kind: self.value.kind_of(), payload: self.value.payload() }
    }

    /// Whether the value has the capability that the hint asks for.
    pub open spec fn well_typed(self) -> bool {
        self.hint.accepts(self.value.kind_of())
    }
}

impl WireEntry {
    /// Whether this entry can stand in a record: the hint accepts the kind
    /// and the payload has the kind's width.
    pub open spec fn well_formed(self) -> bool {
        &&& self.hint.accepts(self.kind)
        &&& self.payload.len() == self.kind.payload_len()
    }

    /// The bytes of this entry.
    pub open spec fn bytes(self) -> Seq<u8> {
        seq![self.hint.wire_tag(), self.kind.wire_tag()] + self.payload
    }
}

/// The entries that carry `bindings`, in order.
pub open spec fn entries_of(bindings: Seq<Binding>) -> Seq<WireEntry> {
    bindings.map_values(|b: Binding| b.entry())
}

/// The bytes of a text field: its length in two bytes, then the text.
pub open spec fn text_bytes(text: Seq<u8>) -> Seq<u8> {
    le_bytes(text.len(), 2) + text
}

impl HeaderView {
    /// Whether each text is short enough for its length prefix.
    pub open spec fn encodable(self) -> bool {
        &&& self.target.len() <= MAX_TEXT_LEN
        &&& self.module.len() <= MAX_TEXT_LEN
        &&& self.file.len() <= MAX_TEXT_LEN
    }

    /// The number of bytes of the header.
    pub open spec fn len(self) -> nat {
        self.target.len() + self.module.len() + self.file.len() + HEADER_FIXED_LEN as nat
    }

    /// The bytes of the header.
    pub open spec fn bytes(self) -> Seq<u8> {
        text_bytes(self.target) + seq![self.level.wire_value()] + text_bytes(self.module)
            + text_bytes(self.file) + le_bytes(self.line as nat, 4) + le_bytes(
            self.num_args as nat,
            4,
        )
    }
}

/// The bytes of `entries`, one after the other.
pub open spec fn entries_bytes(entries: Seq<WireEntry>) -> Seq<u8>
    decreases entries.len(),
{
    if entries.len() == 0 {
        Seq::empty()
    } else {
        entries[0].bytes() + entries_bytes(entries.drop_first())
    }
}

/// The number of bytes of `entries` on the wire.
pub open spec fn entries_len(entries: Seq<WireEntry>) -> nat
    decreases entries.len(),
{
    if entries.len() == 0 {
        0
    } else {
        2 + entries[0].payload.len() + entries_len(entries.drop_first())
    }
}

/// Whether a header and entries make a record: the texts fit, the header
/// counts the entries, and each entry is well formed.
pub open spec fn valid_record(header: HeaderView, entries: Seq<WireEntry>) -> bool {
    &&& header.encodable()
    &&& header.num_args as nat == entries.len()
    &&& forall|i: int| 0 <= i < entries.len() ==> (#[trigger] entries[i]).well_formed()
}

/// The bytes of a record.
pub open spec fn record_bytes(header: HeaderView, entries: Seq<WireEntry>) -> Seq<u8> {
    header.bytes() + entries_bytes(entries)
}

/// The number of bytes of a record.
pub open spec fn record_len(header: HeaderView, entries: Seq<WireEntry>) -> nat {
    header.len() + entries_len(entries)
}

/// A text field is two bytes longer than its text.
pub proof fn lemma_text_bytes_len(text: Seq<u8>)
    ensures
        text_bytes(text).len() == text.len() + 2,
{
    lemma_le_bytes_len(text.len(), 2);
}

/// The bytes of a header are as many as its length says.
pub proof fn lemma_header_bytes_len(header: HeaderView)
    ensures
        header.bytes().len() == header.len(),
{
    lemma_text_bytes_len(header.target);
    lemma_text_bytes_len(header.module);
    lemma_text_bytes_len(header.file);
    lemma_le_bytes_len(header.line as nat, 4);
    lemma_le_bytes_len(header.num_args as nat, 4);
}

/// The bytes of entries are as many as their length says.
pub proof fn lemma_entries_bytes_len(entries: Seq<WireEntry>)
    ensures
        entries_bytes(entries).len() == entries_len(entries),
    decreases entries.len(),
{
    if entries.len() > 0 {
        lemma_entries_bytes_len(entries.drop_first());
    }
}

/// One more entry at the end adds its bytes at the end.
pub proof fn lemma_entries_bytes_push(entries: Seq<WireEntry>, last: WireEntry)
    ensures
        entries_bytes(entries.push(last)) == entries_bytes(entries) + last.bytes(),
        entries_len(entries.push(last)) == entries_len(entries) + 2 + last.payload.len(),
    decreases entries.len(),
{
    if entries.len() == 0 {
        let rest = entries.push(last).drop_first();
        assert(rest =~= Seq::<WireEntry>::empty());
        assert(entries_bytes(rest) =~= Seq::<u8>::empty());
        assert(entries_len(rest) == 0);
        assert(entries_bytes(entries.push(last)) =~= entries_bytes(entries) + last.bytes());
    } else {
        lemma_entries_bytes_push(entries.drop_first(), last);
        assert(entries.push(last).drop_first() =~= entries.drop_first().push(last));
        assert(entries_bytes(entries.push(last)) =~= entries_bytes(entries) + last.bytes());
    }
}

/// A record grows with each entry: its first `k` entries take no more
/// bytes than all of them.
pub proof fn lemma_entries_len_monotone(entries: Seq<WireEntry>, k: int)
    requires
        0 <= k <= entries.len(),
    ensures
        entries_len(entries.take(k)) <= entries_len(entries),
    decreases entries.len() - k,
{
    if k < entries.len() {
        lemma_entries_len_monotone(entries, k + 1);
        lemma_entries_bytes_push(entries.take(k), entries[k]);
        assert(entries.take(k + 1) =~= entries.take(k).push(entries[k]));
    } else {
        assert(entries.take(k) =~= entries);
    }
}

} // verus!
