//! Severity levels.

use vstd::prelude::*;

verus! {

/// The severity of a log record. Declared from most to least severe, so the
/// derived order is `Error < Warn < Info < Debug < Trace`.
#[derive(Clone, Copy, Debug, PartialEq, Eq, PartialOrd, Ord, Hash, Structural)]
pub enum Level {
    /// Very serious errors.
    Error,
    /// Hazardous situations.
    Warn,
    /// Useful information.
    Info,
    /// Lower priority information.
    Debug,
    /// Very low priority, often extremely verbose, information.
    Trace,
}

impl Level {
    /// The byte that stands for this level on the wire; it grows as the
    /// severity falls.
    pub open spec fn wire_value(self) -> u8 {
        match self {
            Level::Error => 1,
            Level::Warn => 2,
            Level::Info => 3,
            Level::Debug => 4,
            Level::Trace => 5,
        }
    }

    /// The level that a wire byte stands for, if any.
    pub open spec fn of_wire(b: u8) -> Option<Level> {
        if b == 1 {
            Some(Level::Error)
        } else if b == 2 {
            Some(Level::Warn)
        } else if b == 3 {
            Some(Level::Info)
        } else if b == 4 {
            Some(Level::Debug)
        } else if b == 5 {
            Some(Level::Trace)
        } else {
            None
        }
    }

    /// Returns the byte written on the wire for this level.
    pub fn to_u8(self) -> (b: u8)
        ensures
            b == self.wire_value(),
    {
        match self {
            Level::Error => 1,
            Level::Warn => 2,
            Level::Info => 3,
            Level::Debug => 4,
            Level::Trace => 5,
        }
    }

    /// Reads a level back from its wire byte; `None` for a byte that stands
    /// for no level.
    pub fn from_u8(b: u8) -> (l: Option<Level>)
        ensures
            l == Level::of_wire(b),
    {
        match b {
            1 => Some(Level::Error),
            2 => Some(Level::Warn),
            3 => Some(Level::Info),
            4 => Some(Level::Debug),
            5 => Some(Level::Trace),
            _ => None,
        }
    }

    /// Whether this level is at least as severe as `other`.
    pub fn at_least(self, other: Level) -> (r: bool)
        ensures
            r == (self.wire_value() <= other.wire_value()),
    {
        self.to_u8() <= other.to_u8()
    }

    /// A wire byte names the level that wrote it, and nothing else does.
    pub proof fn lemma_wire_round_trip(self)
        ensures
            Level::of_wire(self.wire_value()) == Some(self),
    {
    }

    /// Every byte that names a level is that level's own wire byte.
    pub proof fn lemma_of_wire_sound(b: u8)
        ensures
            Level::of_wire(b) matches Some(l) ==> l.wire_value() == b,
    {
    }
}

} // verus!
