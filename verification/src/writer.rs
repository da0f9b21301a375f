//! The bounded writer: every write is checked against the space that is
//! left, and a record that does not fit is dropped as a whole.

use vstd::prelude::*;
use vstd::slice::*;
use vstd::string::StringSliceAdditionalSpecFns;
use crate::bytes::{
    copy_at, le_bytes, lemma_le_bytes_len, lemma_splice_append, lemma_splice_one,
    lemma_splice_tail, put_le, splice,
};
use crate::hint::DisplayHint;
use crate::level::Level;
use crate::value::Value;
use crate::wire::{
    entries_of, lemma_entries_bytes_len, lemma_entries_bytes_push, lemma_entries_len_monotone,
    lemma_header_bytes_len, lemma_text_bytes_len, record_bytes, record_len, text_bytes, Binding,
    HeaderView, WireEntry, HEADER_FIXED_LEN, MAX_TEXT_LEN,
};

verus! {

/// Writes a text field into `buf` from position `at` on.
fn put_text(buf: &mut [u8], at: usize, text: &[u8])
    requires
        text@.len() <= MAX_TEXT_LEN,
        at + 2 + text@.len() <= old(buf)@.len(),
    ensures
        final(buf)@ == splice(old(buf)@, at as int, text_bytes(text@)),
        final(buf)@.len() == old(buf)@.len(),
{
    let n: usize = text.len();
    let capacity: usize = buf.len();
    proof {
        lemma_le_bytes_len(n as nat, 2);
    }
    put_le(buf, at, n as u64, 2);
    let fitted = copy_at(buf, at + 2, text);
    assert(buf@ =~= splice(old(buf)@, at as int, text_bytes(text@)));
}

/// Writes the record header at the start of `buf`.
///
/// Returns the offset at which the entries begin. Returns `None`, and
/// leaves `buf` as it was, when a text is longer than [`MAX_TEXT_LEN`] bytes
/// or `buf` is smaller than the header.
pub fn write_header(
    buf: &mut [u8],
    target: &str,
    level: Level,
    module: &str,
    file: &str,
    line: u32,
    arg_count: u32,
) -> (offset: Option<usize>)
    ensures
        final(buf)@.len() == old(buf)@.len(),
        ({
            let header = HeaderView {
                target: target.spec_bytes(),
                level,
                module: module.spec_bytes(),
                file: file.spec_bytes(),
                line,
                num_args: arg_count,
            };
            match offset {
                Some(n) => {
                    &&& header.encodable()
                    &&& n == header.len()
                    &&& n <= old(buf)@.len()
                    &&& final(buf)@ == splice(old(buf)@, 0, header.bytes())
                },
                None => {
                    &&& !header.encodable() || header.len() > old(buf)@.len()
                    &&& final(buf)@ == old(buf)@
                },
            }
        }),
{
    let target = target.as_bytes();
    let module = module.as_bytes();
    let file = file.as_bytes();
    if target.len() > MAX_TEXT_LEN || module.len() > MAX_TEXT_LEN || file.len() > MAX_TEXT_LEN {
        return None;
    }
    let total: usize = target.len() + module.len() + file.len() + HEADER_FIXED_LEN;
    if total > buf.len() {
        return None;
    }
    let ghost header = HeaderView {
        target: target@,
        level,
        module: module@,
        file: file@,
        line,
        num_args: arg_count,
    };
    proof {
        lemma_text_bytes_len(target@);
        lemma_text_bytes_len(module@);
        lemma_text_bytes_len(file@);
        lemma_le_bytes_len(line as nat, 4);
        lemma_le_bytes_len(arg_count as nat, 4);
    }
    let ghost start = buf@;
    put_text(buf, 0, target);
    let ghost acc = text_bytes(target@);
    let level_at: usize = 2 + target.len();
    buf[level_at] = level.to_u8();
    proof {
        lemma_splice_one(splice(start, 0, acc), level_at as int, level.wire_value());
        lemma_splice_append(start, acc, seq![level.wire_value()]);
        acc = acc + seq![level.wire_value()];
    }
    put_text(buf, level_at + 1, module);
    proof {
        lemma_splice_append(start, acc, text_bytes(module@));
        acc = acc + text_bytes(module@);
    }
    let file_at: usize = level_at + 1 + 2 + module.len();
    put_text(buf, file_at, file);
    proof {
        lemma_splice_append(start, acc, text_bytes(file@));
        acc = acc + text_bytes(file@);
    }
    let line_at: usize = file_at + 2 + file.len();
    put_le(buf, line_at, line as u64, 4);
    proof {
        lemma_splice_append(start, acc, le_bytes(line as nat, 4));
        acc = acc + le_bytes(line as nat, 4);
    }
    put_le(buf, line_at + 4, arg_count as u64, 4);
    proof {
        lemma_splice_append(start, acc, le_bytes(arg_count as nat, 4));
        acc = acc + le_bytes(arg_count as nat, 4);
        assert(acc == header.bytes());
    }
    Some(total)
}

/// Writes one entry, the two tags and the payload of `value`, at the start
/// of `buf`, which is the part of the record buffer that is still free.
///
/// Returns the number of bytes written. Returns `None`, and leaves `buf` as
/// it was, when the entry does not fit.
pub fn write_value(buf: &mut [u8], hint: DisplayHint, value: &Value) -> (written: Option<usize>)
    ensures
        final(buf)@.len() == old(buf)@.len(),
        ({
            let entry = (Binding { hint, value: *value }).entry();
            match written {
                Some(n) => {
                    &&& n == 2 + entry.payload.len()
                    &&& n <= old(buf)@.len()
                    &&& final(buf)@ == splice(old(buf)@, 0, entry.bytes())
                },
                None => {
                    &&& 2 + entry.payload.len() > old(buf)@.len()
                    &&& final(buf)@ == old(buf)@
                },
            }
        }),
{
    let kind = value.kind();
    let width = kind.width();
    if buf.len() < 2 + width {
        proof {
            value.lemma_payload_len();
        }
        return None;
    }
    let ghost start = buf@;
    let ghost tags = seq![hint.wire_tag(), kind.wire_tag()];
    buf[0] = hint.tag();
    buf[1] = kind.tag();
    assert(buf@ =~= splice(start, 0, tags));
    value.write_payload(buf, 2);
    proof {
        value.lemma_payload_len();
        lemma_splice_append(start, tags, value.payload());
    }
    Some(2 + width)
}

/// The header that [`encode_record`] writes for these arguments.
pub open spec fn header_for(
    target: &str,
    level: Level,
    module: &str,
    file: &str,
    line: u32,
    bindings: Seq<Binding>,
) -> HeaderView {
    HeaderView {
        target: target.spec_bytes(),
        level,
        module: module.spec_bytes(),
        file: file.spec_bytes(),
        line,
        num_args: bindings.len() as u32,
    }
}

/// Whether a record with this header and these bindings can be written
/// into a buffer of `capacity` bytes.
pub open spec fn fits(header: HeaderView, bindings: Seq<Binding>, capacity: nat) -> bool {
    &&& header.encodable()
    &&& bindings.len() <= u32::MAX
    &&& record_len(header, entries_of(bindings)) <= capacity
}

/// What a buffer holds once a record was dropped. A record that cannot be
/// written at all, or whose header does not fit, leaves the buffer as it
/// was. Otherwise the buffer holds the header and the entries that were
/// written before the first entry that did not fit.
pub open spec fn dropped(
    before: Seq<u8>,
    header: HeaderView,
    entries: Seq<WireEntry>,
    after: Seq<u8>,
) -> bool {
    if !header.encodable() || entries.len() > u32::MAX || header.len() > before.len() {
        after == before
    } else {
        exists|k: int|
            {
                &&& 0 <= k < entries.len()
                &&& record_len(header, entries.take(k)) <= before.len()
                &&& before.len() < record_len(header, #[trigger] entries.take(k + 1))
                &&& after == splice(before, 0, record_bytes(header, entries.take(k)))
            }
    }
}

/// Bounded write: a record that is longer than the buffer does not fit, so
/// that [`encode_record`] hands out nothing for it.
pub proof fn lemma_oversize_is_dropped(header: HeaderView, bindings: Seq<Binding>, capacity: nat)
    requires
        record_len(header, entries_of(bindings)) > capacity,
    ensures
        !fits(header, bindings, capacity),
{
}

/// A record that fits is as long as its bytes.
pub proof fn lemma_record_len(header: HeaderView, bindings: Seq<Binding>)
    ensures
        record_bytes(header, entries_of(bindings)).len() == record_len(
            header,
            entries_of(bindings),
        ),
{
    lemma_header_bytes_len(header);
    lemma_entries_bytes_len(entries_of(bindings));
}

/// Writes a whole record at the start of `buf`: the header, then one entry
/// for each binding, each write checked against the space that is left.
///
/// Returns the length of the record, which then fills `buf[..length]`, if
/// and only if the record fits. Otherwise the record is dropped: `None`
/// comes back, and `buf` holds what was written before the write that did
/// not fit.
pub fn encode_record(
    buf: &mut [u8],
    target: &str,
    level: Level,
    module: &str,
    file: &str,
    line: u32,
    bindings: &[Binding],
) -> (length: Option<usize>)
    ensures
        final(buf)@.len() == old(buf)@.len(),
        length is Some <==> fits(
            header_for(target, level, module, file, line, bindings@),
            bindings@,
            old(buf)@.len(),
        ),
        ({
            let header = header_for(target, level, module, file, line, bindings@);
            let entries = entries_of(bindings@);
            match length {
                Some(n) => {
                    &&& n == record_len(header, entries)
                    &&& final(buf)@ == splice(old(buf)@, 0, record_bytes(header, entries))
                },
                None => dropped(old(buf)@, header, entries, final(buf)@),
            }
        }),
{
    let count: usize = bindings.len();
    if count > u32::MAX as usize {
        return None;
    }
    let ghost header = header_for(target, level, module, file, line, bindings@);
    let ghost entries = entries_of(bindings@);
    let ghost start = buf@;
    let mut pos: usize = match write_header(buf, target, level, module, file, line, count as u32) {
        Some(n) => n,
        None => {
            proof {
                lemma_entries_len_monotone(entries, 0);
            }
            return None;
        },
    };
    proof {
        assert(entries.take(0) =~= Seq::<WireEntry>::empty());
        lemma_header_bytes_len(header);
        assert(record_bytes(header, entries.take(0)) =~= header.bytes());
    }
    let capacity: usize = buf.len();
    let mut i: usize = 0;
    while i < count
        invariant
            i <= count == bindings@.len(),
            capacity == buf@.len(),
            entries == entries_of(bindings@),
            header.encodable(),
            count <= u32::MAX,
            start == old(buf)@,
            header == header_for(target, level, module, file, line, bindings@),
            buf@.len() == start.len(),
            pos == record_len(header, entries.take(i as int)),
            pos <= buf@.len(),
            buf@ == splice(start, 0, record_bytes(header, entries.take(i as int))),
        decreases count - i,
    {
        let binding = &bindings[i];
        let ghost done = entries.take(i as int);
        let ghost acc = record_bytes(header, done);
        proof {
            assert(entries[i as int] == binding.entry());
            assert(entries.take(i + 1) =~= done.push(entries[i as int]));
            lemma_entries_bytes_push(done, entries[i as int]);
            lemma_entries_bytes_len(done);
            lemma_header_bytes_len(header);
            lemma_entries_len_monotone(entries, i + 1);
            binding.value.lemma_payload_len();
            assert(acc.len() == pos);
        }
        let ghost before = buf@;
        let (_, rest) = buf.split_at_mut(pos);
        let written = write_value(rest, binding.hint, &binding.value);
        match written {
            None => {
                proof {
                    assert(buf@ =~= before);
                    assert(record_len(header, entries.take(i + 1)) > start.len());
                }
                return None;
            },
            Some(n) => {
                proof {
                    assert(buf@ =~= before.subrange(0, pos as int) + splice(
                        before.subrange(pos as int, before.len() as int),
                        0,
                        entries[i as int].bytes(),
                    ));
                    assert(n <= before.len() - pos);
                    lemma_splice_tail(start, acc, entries[i as int].bytes());
                    assert(acc + entries[i as int].bytes() =~= record_bytes(
                        header,
                        entries.take(i + 1),
                    ));
                }
                pos = pos + n;
            },
        }
        i += 1;
    }
    proof {
        assert(entries.take(count as int) =~= entries);
    }
    Some(pos)
}

} // verus!
