//! The record buffers: a fixed-capacity byte region for each execution
//! unit, handed out without locking and never shared between units.

use vstd::prelude::*;
use vstd::slice::*;
use crate::bytes::splice;
use crate::level::Level;
use crate::wire::{entries_of, record_bytes, record_len, Binding};
use crate::writer::{dropped, encode_record, fits, header_for, lemma_record_len};

verus! {

/// The capacity that a record buffer has by custom.
pub const LOG_BUF_CAPACITY: usize = 8192;

/// A fixed-capacity byte region in which one record at a time is built.
#[derive(Debug)]
pub struct LogBuf {
    buf: Vec<u8>,
}

impl View for LogBuf {
    type V = Seq<u8>;

    closed spec fn view(&self) -> Seq<u8> {
        self.buf@
    }
}

impl LogBuf {
    /// Makes a buffer of `capacity` bytes, all zero.
    pub fn new(capacity: usize) -> (b: LogBuf)
        ensures
            b@.len() == capacity,
            forall|i: int| 0 <= i < capacity ==> b@[i] == 0,
    {
        let mut buf: Vec<u8> = Vec::new();
        let mut i: usize = 0;
        while i < capacity
            invariant
                i <= capacity,
                buf@.len() == i,
                forall|j: int| 0 <= j < i ==> buf@[j] == 0,
            decreases capacity - i,
        {
            buf.push(0);
            i += 1;
        }
        LogBuf { buf }
    }

    /// Returns the capacity of the buffer, which never changes.
    pub fn capacity(&self) -> (c: usize)
        ensures
            c == self@.len(),
    {
        self.buf.len()
    }

    /// Builds a record at the start of the buffer.
    ///
    /// Returns the length of the record if and only if the record fits;
    /// the record is then `self.filled(length)`. Otherwise the record is
    /// dropped.
    pub fn write_record(
        &mut self,
        target: &str,
        level: Level,
        module: &str,
        file: &str,
        line: u32,
        bindings: &[Binding],
    ) -> (length: Option<usize>)
        ensures
            final(self)@.len() == old(self)@.len(),
            length is Some <==> fits(
                header_for(target, level, module, file, line, bindings@),
                bindings@,
                old(self)@.len(),
            ),
            ({
                let header = header_for(target, level, module, file, line, bindings@);
                let entries = entries_of(bindings@);
                match length {
                    Some(n) => {
                        &&& n == record_len(header, entries)
                        &&& final(self)@ == splice(old(self)@, 0, record_bytes(header, entries))
                    },
                    None => dropped(old(self)@, header, entries, final(self)@),
                }
            }),
    {
        encode_record(self.buf.as_mut_slice(), target, level, module, file, line, bindings)
    }

    /// Returns the first `length` bytes of the buffer: the record, where
    /// `length` is what [`LogBuf::write_record`] returned. Returns `None`
    /// where the buffer is shorter than that.
    pub fn filled(&self, length: usize) -> (r: Option<&[u8]>)
        ensures
            match r {
                Some(bytes) => length <= self@.len() && bytes@ == self@.subrange(0, length as int),
                None => length > self@.len(),
            },
    {
        if length <= self.buf.len() {
            Some(slice_subrange(self.buf.as_slice(), 0, length))
        } else {
            None
        }
    }
}

/// Whether `answer` is what `submit` returned for the bytes `record` and
/// the flags `0`.
pub open spec fn submitted<R, F: FnOnce(&[u8], u64) -> R>(
    submit: F,
    record: Seq<u8>,
    answer: R,
) -> bool {
    exists|bytes: &[u8]| bytes@ == record && #[trigger] call_ensures(submit, (bytes, 0u64), answer)
}

/// The buffers of all execution units. Each unit has a slot of its own; a
/// slot is empty until a buffer is installed in it and while its buffer is
/// out.
#[derive(Debug)]
pub struct BufferPool {
    slots: Vec<Option<LogBuf>>,
}

impl BufferPool {
    /// The number of execution units.
    pub closed spec fn units(&self) -> nat {
        self.slots@.len()
    }

    /// The content of the buffer that lies in the slot of `unit`, if one
    /// lies there.
    pub closed spec fn slot(&self, unit: int) -> Option<Seq<u8>> {
        if 0 <= unit < self.slots@.len() {
            match self.slots@[unit] {
                Some(b) => Some(b@),
                None => None,
            }
        } else {
            None
        }
    }

    /// Makes a pool for `units` execution units, with no buffer installed.
    pub fn new(units: usize) -> (pool: BufferPool)
        ensures
            pool.units() == units,
            forall|u: int| pool.slot(u) is None,
    {
        let mut slots: Vec<Option<LogBuf>> = Vec::new();
        let mut i: usize = 0;
        while i < units
            invariant
                i <= units,
                slots@.len() == i,
                forall|j: int| 0 <= j < i ==> slots@[j] is None,
            decreases units - i,
        {
            slots.push(None);
            i += 1;
        }
        BufferPool { slots }
    }

    /// Puts `buf` into the slot of `unit`: to install the unit's buffer, or
    /// to give it back after use. Hands `buf` back where the unit does not
    /// exist or its slot is taken.
    pub fn release(&mut self, unit: usize, buf: LogBuf) -> (rejected: Option<LogBuf>)
        ensures
            final(self).units() == old(self).units(),
            forall|u: int| u != unit ==> final(self).slot(u) == old(self).slot(u),
            match rejected {
                Some(b) => {
                    &&& unit >= old(self).units() || old(self).slot(unit as int) is Some
                    &&& b@ == buf@
                    &&& final(self).slot(unit as int) == old(self).slot(unit as int)
                },
                None => {
                    &&& unit < old(self).units()
                    &&& old(self).slot(unit as int) is None
                    &&& final(self).slot(unit as int) == Some(buf@)
                },
            },
    {
        if unit >= self.slots.len() {
            return Some(buf);
        }
        if self.slots[unit].is_some() {
            return Some(buf);
        }
        self.slots[unit] = Some(buf);
        None
    }

    /// Takes the buffer of `unit` out of its slot.
    ///
    /// Returns `None`, in which case the whole log call is to do nothing,
    /// where the unit does not exist, no buffer was installed for it, or its
    /// buffer is out already.
    pub fn acquire_buffer(&mut self, unit: usize) -> (buf: Option<LogBuf>)
        ensures
            final(self).units() == old(self).units(),
            forall|u: int| u != unit ==> final(self).slot(u) == old(self).slot(u),
            final(self).slot(unit as int) is None,
            match buf {
                Some(b) => old(self).slot(unit as int) == Some(b@),
                None => old(self).slot(unit as int) is None,
            },
    {
        if unit >= self.slots.len() {
            return None;
        }
        self.slots[unit].take()
    }

    /// The run-time half of a log call, up to the hand-over: takes the
    /// buffer of `unit` and builds the record in it.
    ///
    /// Returns the buffer and the length of the record if and only if the
    /// unit's buffer is there and the record fits. The caller then submits
    /// `buffer.filled(length)` to the output channel, once, and gives the
    /// buffer back with [`BufferPool::release`]. Otherwise nothing is to be
    /// submitted: the record is dropped, and a buffer that was taken is
    /// back in its slot.
    pub fn build_record(
        &mut self,
        unit: usize,
        target: &str,
        level: Level,
        module: &str,
        file: &str,
        line: u32,
        bindings: &[Binding],
    ) -> (r: Option<(LogBuf, usize)>)
        ensures
            final(self).units() == old(self).units(),
            forall|u: int| u != unit ==> final(self).slot(u) == old(self).slot(u),
            r is Some <==> (old(self).slot(unit as int) matches Some(before) && fits(
                header_for(target, level, module, file, line, bindings@),
                bindings@,
                before.len(),
            )),
            match r {
                Some((buffer, length)) => {
                    let header = header_for(target, level, module, file, line, bindings@);
                    let before = old(self).slot(unit as int)->0;
                    &&& final(self).slot(unit as int) is None
                    &&& length == record_len(header, entries_of(bindings@))
                    &&& buffer@ == splice(before, 0, record_bytes(header, entries_of(bindings@)))
                },
                None => match old(self).slot(unit as int) {
                    Some(before) => final(self).slot(unit as int) matches Some(after) && dropped(
                        before,
                        header_for(target, level, module, file, line, bindings@),
                        entries_of(bindings@),
                        after,
                    ),
                    None => final(self).slot(unit as int) is None,
                },
            },
    {
        let mut buffer = match self.acquire_buffer(unit) {
            Some(buffer) => buffer,
            None => {
                return None;
            },
        };
        match buffer.write_record(target, level, module, file, line, bindings) {
            Some(length) => Some((buffer, length)),
            None => {
                let rejected = self.release(unit, buffer);
                None
            },
        }
    }

    /// A whole log call at run time: takes the buffer of `unit`, builds the
    /// record in it, hands the record to `submit` with the flags `0`, and
    /// puts the buffer back.
    ///
    /// `submit` is called once, with exactly the bytes of the record, if
    /// and only if the unit's buffer is there and the record fits; what it
    /// returns comes back. Otherwise `submit` is not called, the record is
    /// dropped, and `None` comes back. Either way the caller goes on.
    pub fn submit_record<R, F: FnOnce(&[u8], u64) -> R>(
        &mut self,
        unit: usize,
        target: &str,
        level: Level,
        module: &str,
        file: &str,
        line: u32,
        bindings: &[Binding],
        submit: F,
    ) -> (r: Option<R>)
        requires
            forall|bytes: &[u8], flags: u64| call_requires(submit, (bytes, flags)),
        ensures
            final(self).units() == old(self).units(),
            forall|u: int| u != unit ==> final(self).slot(u) == old(self).slot(u),
            r is Some <==> (old(self).slot(unit as int) matches Some(before) && fits(
                header_for(target, level, module, file, line, bindings@),
                bindings@,
                before.len(),
            )),
            r is Some ==> final(self).slot(unit as int) == Some(
                splice(
                    old(self).slot(unit as int)->0,
                    0,
                    record_bytes(
                        header_for(target, level, module, file, line, bindings@),
                        entries_of(bindings@),
                    ),
                ),
            ),
            r matches Some(answer) ==> submitted(
                submit,
                record_bytes(
                    header_for(target, level, module, file, line, bindings@),
                    entries_of(bindings@),
                ),
                answer,
            ),
            r is None ==> match old(self).slot(unit as int) {
                Some(before) => final(self).slot(unit as int) matches Some(after) && dropped(
                    before,
                    header_for(target, level, module, file, line, bindings@),
                    entries_of(bindings@),
                    after,
                ),
                None => final(self).slot(unit as int) is None,
            },
    {
        let (buffer, length) = match self.build_record(
            unit,
            target,
            level,
            module,
            file,
            line,
            bindings,
        ) {
            Some(built) => built,
            None => {
                return None;
            },
        };
        proof {
            lemma_record_len(
                header_for(target, level, module, file, line, bindings@),
                bindings@,
            );
        }
        let ghost header = header_for(target, level, module, file, line, bindings@);
        let ghost record = record_bytes(header, entries_of(bindings@));
        proof {
            let before = old(self).slot(unit as int)->0;
            assert(record.len() == length);
            assert(length <= before.len());
            assert(buffer@.len() == before.len());
        }
        let bytes = slice_subrange(buffer.buf.as_slice(), 0, length);
        let ghost sent = bytes;
        assert(sent@ =~= record);
        let answer = submit(bytes, 0);
        let ghost content = buffer@;
        let rejected = self.release(unit, buffer);
        proof {
            assert(rejected is None);
            assert(call_ensures(submit, (sent, 0u64), answer));
            assert(self.slot(unit as int) == Some(content));
            assert(content == splice(old(self).slot(unit as int)->0, 0, record));
            assert(submitted(submit, record, answer));
        }
        Some(answer)
    }
}

} // verus!
