//! The closed set of display hints, the capability each one asks of the
//! value bound to it, and the tags that stand for them on the wire.
//!
//! | hint       | specifier      | wire tag | accepted values              |
//! |------------|----------------|----------|------------------------------|
//! | `Default`  | none           | 1        | integers, IPv4, IPv6         |
//! | `LowerHex` | `:x`           | 2        | integers                     |
//! | `UpperHex` | `:X`           | 3        | integers                     |
//! | `Ip`       | `:ip`, `:i`    | 4        | IPv4, IPv6, `u32`            |
//! | `LowerMac` | `:mac`         | 5        | 6-byte hardware address      |
//! | `UpperMac` | `:MAC`         | 6        | 6-byte hardware address      |

use vstd::prelude::*;

verus! {

/// The type class of a value that can be bound to a placeholder. It fixes
/// how many payload bytes the value takes on the wire.
#[derive(Clone, Copy, Debug, PartialEq, Eq, Hash, Structural)]
pub enum ArgKind {
    U8,
    U16,
    U32,
    U64,
    I8,
    I16,
    I32,
    I64,
    /// Four address bytes.
    Ipv4,
    /// Sixteen address bytes.
    Ipv6,
    /// Six hardware-address bytes.
    Mac,
}

impl ArgKind {
    /// The tag that stands for this kind on the wire.
    pub open spec fn wire_tag(self) -> u8 {
        match self {
            ArgKind::U8 => 1,
            ArgKind::U16 => 2,
            ArgKind::U32 => 3,
            ArgKind::U64 => 4,
            ArgKind::I8 => 5,
            ArgKind::I16 => 6,
            ArgKind::I32 => 7,
            ArgKind::I64 => 8,
            ArgKind::Ipv4 => 9,
            ArgKind::Ipv6 => 10,
            ArgKind::Mac => 11,
        }
    }

    /// The kind that a wire tag stands for, if any.
    pub open spec fn of_wire(t: u8) -> Option<ArgKind> {
        if t == 1 {
            Some(ArgKind::U8)
        } else if t == 2 {
            Some(ArgKind::U16)
        } else if t == 3 {
            Some(ArgKind::U32)
        } else if t == 4 {
            Some(ArgKind::U64)
        } else if t == 5 {
            Some(ArgKind::I8)
        } else if t == 6 {
            Some(ArgKind::I16)
        } else if t == 7 {
            Some(ArgKind::I32)
        } else if t == 8 {
            Some(ArgKind::I64)
        } else if t == 9 {
            Some(ArgKind::Ipv4)
        } else if t == 10 {
            Some(ArgKind::Ipv6)
        } else if t == 11 {
            Some(ArgKind::Mac)
        } else {
            None
        }
    }

    /// The number of payload bytes of a value of this kind.
    pub open spec fn payload_len(self) -> nat {
        match self {
            ArgKind::U8 | ArgKind::I8 => 1,
            ArgKind::U16 | ArgKind::I16 => 2,
            ArgKind::U32 | ArgKind::I32 | ArgKind::Ipv4 => 4,
            ArgKind::U64 | ArgKind::I64 => 8,
            ArgKind::Mac => 6,
            ArgKind::Ipv6 => 16,
        }
    }

    /// Whether values of this kind are integers.
    pub open spec fn is_integer(self) -> bool {
        !(self is Ipv4 || self is Ipv6 || self is Mac)
    }

    /// Whether values of this kind are signed integers.
    pub open spec fn is_signed(self) -> bool {
        self is I8 || self is I16 || self is I32 || self is I64
    }

    /// Returns the tag written on the wire for this kind.
    pub fn tag(self) -> (t: u8)
        ensures
            t == self.wire_tag(),
    {
        match self {
            ArgKind::U8 => 1,
            ArgKind::U16 => 2,
            ArgKind::U32 => 3,
            ArgKind::U64 => 4,
            ArgKind::I8 => 5,
            ArgKind::I16 => 6,
            ArgKind::I32 => 7,
            ArgKind::I64 => 8,
            ArgKind::Ipv4 => 9,
            ArgKind::Ipv6 => 10,
            ArgKind::Mac => 11,
        }
    }

    /// Reads a kind back from its wire tag; `None` for an unknown tag.
    pub fn from_tag(t: u8) -> (k: Option<ArgKind>)
        ensures
            k == ArgKind::of_wire(t),
    {
        match t {
            1 => Some(ArgKind::U8),
            2 => Some(ArgKind::U16),
            3 => Some(ArgKind::U32),
            4 => Some(ArgKind::U64),
            5 => Some(ArgKind::I8),
            6 => Some(ArgKind::I16),
            7 => Some(ArgKind::I32),
            8 => Some(ArgKind::I64),
            9 => Some(ArgKind::Ipv4),
            10 => Some(ArgKind::Ipv6),
            11 => Some(ArgKind::Mac),
            _ => None,
        }
    }

    /// Returns the number of payload bytes of a value of this kind.
    pub fn width(self) -> (w: usize)
        ensures
            w == self.payload_len(),
            1 <= w <= 16,
    {
        match self {
            ArgKind::U8 | ArgKind::I8 => 1,
            ArgKind::U16 | ArgKind::I16 => 2,
            ArgKind::U32 | ArgKind::I32 | ArgKind::Ipv4 => 4,
            ArgKind::U64 | ArgKind::I64 => 8,
            ArgKind::Mac => 6,
            ArgKind::Ipv6 => 16,
        }
    }

    /// Returns whether values of this kind are integers.
    pub fn integer(self) -> (r: bool)
        ensures
            r == self.is_integer(),
    {
        match self {
            ArgKind::Ipv4 | ArgKind::Ipv6 | ArgKind::Mac => false,
            _ => true,
        }
    }

    /// Returns whether values of this kind are signed integers.
    pub fn signed(self) -> (r: bool)
        ensures
            r == self.is_signed(),
    {
        match self {
            ArgKind::I8 | ArgKind::I16 | ArgKind::I32 | ArgKind::I64 => true,
            _ => false,
        }
    }

    /// A kind's tag names that kind.
    pub proof fn lemma_wire_round_trip(self)
        ensures
            ArgKind::of_wire(self.wire_tag()) == Some(self),
    {
    }

    /// Every tag that names a kind is that kind's own tag.
    pub proof fn lemma_of_wire_sound(t: u8)
        ensures
            ArgKind::of_wire(t) matches Some(k) ==> k.wire_tag() == t,
    {
    }
}

/// The formatting capability that a hint asks of the value bound to it.
#[derive(Clone, Copy, Debug, PartialEq, Eq, Hash, Structural)]
pub enum Formatter {
    Default,
    LowerHex,
    UpperHex,
    Ip,
    LowerMac,
    UpperMac,
}

impl Formatter {
    /// Whether values of `kind` have this capability.
    pub open spec fn accepts(self, kind: ArgKind) -> bool {
        match self {
            Formatter::Default => kind.is_integer() || kind is Ipv4 || kind is Ipv6,
            Formatter::LowerHex | Formatter::UpperHex => kind.is_integer(),
            Formatter::Ip => kind is Ipv4 || kind is Ipv6 || kind is U32,
            Formatter::LowerMac | Formatter::UpperMac => kind is Mac,
        }
    }

    /// Returns whether values of `kind` have this capability.
    pub fn supports(self, kind: ArgKind) -> (r: bool)
        ensures
            r == self.accepts(kind),
    {
        match self {
            Formatter::Default => kind.integer() || match kind {
                ArgKind::Ipv4 | ArgKind::Ipv6 => true,
                _ => false,
            },
            Formatter::LowerHex | Formatter::UpperHex => kind.integer(),
            Formatter::Ip => match kind {
                ArgKind::Ipv4 | ArgKind::Ipv6 | ArgKind::U32 => true,
                _ => false,
            },
            Formatter::LowerMac | Formatter::UpperMac => match kind {
                ArgKind::Mac => true,
                _ => false,
            },
        }
    }
}

/// How a placeholder's value is rendered by the decoder.
#[derive(Clone, Copy, Debug, PartialEq, Eq, Hash, Structural)]
pub enum DisplayHint {
    /// `{}`: the value's natural representation.
    Default,
    /// `{:x}`: lower-case hexadecimal.
    LowerHex,
    /// `{:X}`: upper-case hexadecimal.
    UpperHex,
    /// `{:ip}` or `{:i}`: a network address.
    Ip,
    /// `{:mac}`: a hardware address, lower-case.
    LowerMac,
    /// `{:MAC}`: a hardware address, upper-case.
    UpperMac,
}

impl DisplayHint {
    /// The tag that stands for this hint on the wire.
    pub open spec fn wire_tag(self) -> u8 {
        match self {
            DisplayHint::Default => 1,
            DisplayHint::LowerHex => 2,
            DisplayHint::UpperHex => 3,
            DisplayHint::Ip => 4,
            DisplayHint::LowerMac => 5,
            DisplayHint::UpperMac => 6,
        }
    }

    /// The hint that a wire tag stands for, if any.
    pub open spec fn of_wire(t: u8) -> Option<DisplayHint> {
        if t == 1 {
            Some(DisplayHint::Default)
        } else if t == 2 {
            Some(DisplayHint::LowerHex)
        } else if t == 3 {
            Some(DisplayHint::UpperHex)
        } else if t == 4 {
            Some(DisplayHint::Ip)
        } else if t == 5 {
            Some(DisplayHint::LowerMac)
        } else if t == 6 {
            Some(DisplayHint::UpperMac)
        } else {
            None
        }
    }

    /// The capability that this hint asks of its value.
    pub open spec fn capability(self) -> Formatter {
        match self {
            DisplayHint::Default => Formatter::Default,
            DisplayHint::LowerHex => Formatter::LowerHex,
            DisplayHint::UpperHex => Formatter::UpperHex,
            DisplayHint::Ip => Formatter::Ip,
            DisplayHint::LowerMac => Formatter::LowerMac,
            DisplayHint::UpperMac => Formatter::UpperMac,
        }
    }

    /// Whether a value of `kind` may be bound to this hint.
    pub open spec fn accepts(self, kind: ArgKind) -> bool {
        self.capability().accepts(kind)
    }

    /// Returns the tag written on the wire for this hint. The same hint
    /// gives the same tag on every call.
    pub fn tag(self) -> (t: u8)
        ensures
            t == self.wire_tag(),
    {
        match self {
            DisplayHint::Default => 1,
            DisplayHint::LowerHex => 2,
            DisplayHint::UpperHex => 3,
            DisplayHint::Ip => 4,
            DisplayHint::LowerMac => 5,
            DisplayHint::UpperMac => 6,
        }
    }

    /// Reads a hint back from its wire tag; `None` for an unknown tag.
    pub fn from_tag(t: u8) -> (h: Option<DisplayHint>)
        ensures
            h == DisplayHint::of_wire(t),
    {
        match t {
            1 => Some(DisplayHint::Default),
            2 => Some(DisplayHint::LowerHex),
            3 => Some(DisplayHint::UpperHex),
            4 => Some(DisplayHint::Ip),
            5 => Some(DisplayHint::LowerMac),
            6 => Some(DisplayHint::UpperMac),
            _ => None,
        }
    }

    /// Returns the capability that this hint asks of its value.
    pub fn formatter(self) -> (f: Formatter)
        ensures
            f == self.capability(),
    {
        match self {
            DisplayHint::Default => Formatter::Default,
            DisplayHint::LowerHex => Formatter::LowerHex,
            DisplayHint::UpperHex => Formatter::UpperHex,
            DisplayHint::Ip => Formatter::Ip,
            DisplayHint::LowerMac => Formatter::LowerMac,
            DisplayHint::UpperMac => Formatter::UpperMac,
        }
    }

    /// Returns whether a value of `kind` may be bound to this hint.
    pub fn supports(self, kind: ArgKind) -> (r: bool)
        ensures
            r == self.accepts(kind),
    {
        self.formatter().supports(kind)
    }

    /// Two hints with the same wire tag are the same hint.
    pub proof fn lemma_tag_injective(a: DisplayHint, b: DisplayHint)
        requires
            a.wire_tag() == b.wire_tag(),
        ensures
            a == b,
    {
    }

    /// Two hints that ask for the same capability are the same hint.
    pub proof fn lemma_capability_injective(a: DisplayHint, b: DisplayHint)
        requires
            a.capability() == b.capability(),
        ensures
            a == b,
    {
    }

    /// A hint's tag names that hint.
    pub proof fn lemma_wire_round_trip(self)
        ensures
            DisplayHint::of_wire(self.wire_tag()) == Some(self),
    {
    }

    /// Every tag that names a hint is that hint's own tag.
    pub proof fn lemma_of_wire_sound(t: u8)
        ensures
            DisplayHint::of_wire(t) matches Some(h) ==> h.wire_tag() == t,
    {
    }

    /// A hexadecimal hint accepts integers and nothing else.
    pub proof fn lemma_hex_needs_integer(kind: ArgKind)
        ensures
            DisplayHint::LowerHex.accepts(kind) == kind.is_integer(),
            DisplayHint::UpperHex.accepts(kind) == kind.is_integer(),
    {
    }
}

} // verus!
