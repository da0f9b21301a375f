//! The values that can be bound to a placeholder, and their payload bytes.

use vstd::prelude::*;
use vstd::slice::*;
use crate::bytes::{
    copy_at, get_le, le_bytes, lemma_le_bytes_len, lemma_le_bytes_of_value,
    lemma_le_round_trip, lemma_le_value_bound, lemma_pow256_positive, lemma_pow256_values, pow256,
    put_le, splice,
};
use crate::hint::ArgKind;

verus! {

/// A value bound to a placeholder.
#[derive(Clone, Copy, Debug, PartialEq, Eq)]
pub enum Value {
    U8(u8),
    U16(u16),
    U32(u32),
    U64(u64),
    I8(i8),
    I16(i16),
    I32(i32),
    I64(i64),
    /// An IPv4 address, first octet first.
    Ipv4([u8; 4]),
    /// An IPv6 address, first octet first.
    Ipv6([u8; 16]),
    /// A hardware address, first octet first.
    Mac([u8; 6]),
}

/// The unsigned number that stands for `x` in `width` bytes of two's
/// complement.
pub open spec fn twos_complement(x: int, width: nat) -> nat {
    if x >= 0 {
        x as nat
    } else {
        (x + pow256(width)) as nat
    }
}

impl Value {
    /// The type class of this value.
    pub open spec fn kind_of(self) -> ArgKind {
        match self {
            Value::U8(_) => ArgKind::U8,
            Value::U16(_) => ArgKind::U16,
            Value::U32(_) => ArgKind::U32,
            Value::U64(_) => ArgKind::U64,
            Value::I8(_) => ArgKind::I8,
            Value::I16(_) => ArgKind::I16,
            Value::I32(_) => ArgKind::I32,
            Value::I64(_) => ArgKind::I64,
            Value::Ipv4(_) => ArgKind::Ipv4,
            Value::Ipv6(_) => ArgKind::Ipv6,
            Value::Mac(_) => ArgKind::Mac,
        }
    }

    /// The number that an integer value holds; `0` for an address.
    pub open spec fn number(self) -> int {
        match self {
            Value::U8(x) => x as int,
            Value::U16(x) => x as int,
            Value::U32(x) => x as int,
            Value::U64(x) => x as int,
            Value::I8(x) => x as int,
            Value::I16(x) => x as int,
            Value::I32(x) => x as int,
            Value::I64(x) => x as int,
            _ => 0,
        }
    }

    /// The unsigned number that an integer value's payload holds: the value
    /// itself, in two's complement where it is negative.
    pub open spec fn bits(self) -> nat {
        twos_complement(self.number(), self.kind_of().payload_len())
    }

    /// The bytes of an address value, first octet first; empty for an
    /// integer.
    pub open spec fn octets(self) -> Seq<u8> {
        match self {
            Value::Ipv4(a) => a@,
            Value::Ipv6(a) => a@,
            Value::Mac(a) => a@,
            _ => Seq::empty(),
        }
    }

    /// The payload bytes of this value on the wire: an integer in
    /// little-endian two's complement, an address as its octets.
    pub open spec fn payload(self) -> Seq<u8> {
        if self.kind_of().is_integer() {
            le_bytes(self.bits(), self.kind_of().payload_len())
        } else {
            self.octets()
        }
    }

    /// Returns the type class of this value.
    pub fn kind(&self) -> (k: ArgKind)
        ensures
            k == self.kind_of(),
    {
        match self {
            Value::U8(_) => ArgKind::U8,
            Value::U16(_) => ArgKind::U16,
            Value::U32(_) => ArgKind::U32,
            Value::U64(_) => ArgKind::U64,
            Value::I8(_) => ArgKind::I8,
            Value::I16(_) => ArgKind::I16,
            Value::I32(_) => ArgKind::I32,
            Value::I64(_) => ArgKind::I64,
            Value::Ipv4(_) => ArgKind::Ipv4,
            Value::Ipv6(_) => ArgKind::Ipv6,
            Value::Mac(_) => ArgKind::Mac,
        }
    }

    /// Returns the unsigned number that the payload of an integer value
    /// holds; `0` for an address.
    pub fn to_bits(&self) -> (r: u64)
        ensures
            r as nat == self.bits(),
    {
        proof {
            lemma_pow256_values();
        }
        match self {
            Value::U8(x) => *x as u64,
            Value::U16(x) => *x as u64,
            Value::U32(x) => *x as u64,
            Value::U64(x) => *x,
            Value::I8(x) => if *x >= 0 {
                *x as u64
            } else {
                (*x as i64 + 0x100) as u64
            },
            Value::I16(x) => if *x >= 0 {
                *x as u64
            } else {
                (*x as i64 + 0x1_0000) as u64
            },
            Value::I32(x) => if *x >= 0 {
                *x as u64
            } else {
                (*x as i64 + 0x1_0000_0000) as u64
            },
            Value::I64(x) => if *x >= 0 {
                *x as u64
            } else {
                (*x - i64::MIN) as u64 + 0x8000_0000_0000_0000
            },
            _ => 0,
        }
    }

    /// Writes the payload of this value into `buf` from position `at` on.
    pub(crate) fn write_payload(&self, buf: &mut [u8], at: usize)
        requires
            at + self.kind_of().payload_len() <= old(buf)@.len(),
        ensures
            final(buf)@ == splice(old(buf)@, at as int, self.payload()),
            final(buf)@.len() == old(buf)@.len(),
    {
        match self {
            Value::Ipv4(a) => {
                let ok = copy_at(buf, at, a.as_slice());
            },
            Value::Ipv6(a) => {
                let ok = copy_at(buf, at, a.as_slice());
            },
            Value::Mac(a) => {
                let ok = copy_at(buf, at, a.as_slice());
            },
            _ => {
                let width = self.kind().width();
                put_le(buf, at, self.to_bits(), width);
            },
        }
    }

    /// Reads the value of `kind` whose payload lies in `buf` from position
    /// `at` on.
    pub(crate) fn read_payload(kind: ArgKind, buf: &[u8], at: usize) -> (v: Value)
        requires
            at + kind.payload_len() <= buf@.len(),
        ensures
            v.kind_of() == kind,
            v.payload() == buf@.subrange(at as int, at + kind.payload_len()),
    {
        let ghost bytes = buf@.subrange(at as int, at + kind.payload_len());
        proof {
            lemma_pow256_values();
            lemma_le_value_bound(bytes);
            lemma_le_bytes_of_value(bytes);
        }
        match kind {
            ArgKind::Ipv4 => {
                let a: [u8; 4] = [buf[at], buf[at + 1], buf[at + 2], buf[at + 3]];
                assert(a@ =~= bytes);
                Value::Ipv4(a)
            },
            ArgKind::Mac => {
                let a: [u8; 6] = [
                    buf[at],
                    buf[at + 1],
                    buf[at + 2],
                    buf[at + 3],
                    buf[at + 4],
                    buf[at + 5],
                ];
                assert(a@ =~= bytes);
                Value::Mac(a)
            },
            ArgKind::Ipv6 => {
                let a: [u8; 16] = [
                    buf[at],
                    buf[at + 1],
                    buf[at + 2],
                    buf[at + 3],
                    buf[at + 4],
                    buf[at + 5],
                    buf[at + 6],
                    buf[at + 7],
                    buf[at + 8],
                    buf[at + 9],
                    buf[at + 10],
                    buf[at + 11],
                    buf[at + 12],
                    buf[at + 13],
                    buf[at + 14],
                    buf[at + 15],
                ];
                assert(a@ =~= bytes);
                Value::Ipv6(a)
            },
            ArgKind::U8 => Value::U8(get_le(buf, at, 1) as u8),
            ArgKind::U16 => Value::U16(get_le(buf, at, 2) as u16),
            ArgKind::U32 => Value::U32(get_le(buf, at, 4) as u32),
            ArgKind::U64 => Value::U64(get_le(buf, at, 8)),
            ArgKind::I8 => {
                let r = get_le(buf, at, 1);
                if r >= 0x80 {
                    Value::I8((r as i64 - 0x100) as i8)
                } else {
                    Value::I8(r as i8)
                }
            },
            ArgKind::I16 => {
                let r = get_le(buf, at, 2);
                if r >= 0x8000 {
                    Value::I16((r as i64 - 0x1_0000) as i16)
                } else {
                    Value::I16(r as i16)
                }
            },
            ArgKind::I32 => {
                let r = get_le(buf, at, 4);
                if r >= 0x8000_0000 {
                    Value::I32((r as i64 - 0x1_0000_0000) as i32)
                } else {
                    Value::I32(r as i32)
                }
            },
            ArgKind::I64 => {
                let r = get_le(buf, at, 8);
                if r >= 0x8000_0000_0000_0000 {
                    Value::I64((r - 0x8000_0000_0000_0000) as i64 + i64::MIN)
                } else {
                    Value::I64(r as i64)
                }
            },
        }
    }

    /// The payload is as long as the value's kind says.
    pub proof fn lemma_payload_len(self)
        ensures
            self.payload().len() == self.kind_of().payload_len(),
    {
        lemma_le_bytes_len(self.bits(), self.kind_of().payload_len());
    }

    /// The unsigned number of an integer value fits its payload.
    pub proof fn lemma_bits_bound(self)
        ensures
            self.bits() < pow256(self.kind_of().payload_len()),
    {
        lemma_pow256_values();
        lemma_pow256_positive(self.kind_of().payload_len());
    }

    /// Two values of one kind with the same payload are the same value.
    pub proof fn lemma_payload_injective(a: Value, b: Value)
        requires
            a.kind_of() == b.kind_of(),
            a.payload() == b.payload(),
        ensures
            a == b,
    {
        if a.kind_of().is_integer() {
            let w = a.kind_of().payload_len();
            a.lemma_bits_bound();
            b.lemma_bits_bound();
            lemma_le_round_trip(a.bits(), w);
            lemma_le_round_trip(b.bits(), w);
            lemma_pow256_values();
            assert(a.bits() == b.bits());
            assert(a.number() == b.number());
        } else {
            match (a, b) {
                (Value::Ipv4(x), Value::Ipv4(y)) => {
                    assert(x =~= y);
                },
                (Value::Ipv6(x), Value::Ipv6(y)) => {
                    assert(x =~= y);
                },
                (Value::Mac(x), Value::Mac(y)) => {
                    assert(x =~= y);
                },
                _ => {},
            }
        }
    }
}

} // verus!
