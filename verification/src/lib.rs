//! Segment-encoding and numeric-formatting engine for a 4-character,
//! 14-segment-plus-dot alphanumeric LED display.
//!
//! The engine translates digits, ASCII characters, decimal points and signed
//! decimal numbers into per-segment on/off bit patterns, staged one bit at a
//! time into a display buffer. The buffer itself is a capability the engine
//! consumes: anything implementing [`display::SegmentDisplay`] — the verified
//! in-memory [`display::BufferModel`], or a hardware driver adapter.

use vstd::prelude::*;

pub mod display;
pub mod encode;
pub mod fonts;
pub mod format;
pub mod hw;

verus! {

/// Possible errors returned by this crate.
#[derive(Clone, Copy, Debug, PartialEq, Eq, Structural)]
pub enum Error {
    /// There aren't enough digits available to display the given value.
    InsufficientDigits,
}

/// The index of one of the display's 4 character slots, left to right.
#[derive(Clone, Copy, Debug, PartialEq, Eq, Structural)]
pub enum Index {
    /// First slot
    One,
    /// Second slot
    Two,
    /// Third slot
    Three,
    /// Fourth slot
    Four,
}

impl Index {
    /// The slot as a number 0..=3.
    pub open spec fn spec_value(self) -> int {
        match self {
            Index::One => 0,
            Index::Two => 1,
            Index::Three => 2,
            Index::Four => 3,
        }
    }

    /// The slot as a number 0..=3.
    pub fn value(self) -> (r: u8)
        ensures
            r as int == self.spec_value(),
    {
        match self {
            Index::One => 0,
            Index::Two => 1,
            Index::Three => 2,
            Index::Four => 3,
        }
    }

    /// Validating constructor: only values 0..=3 name a slot.
    pub fn from_value(v: u8) -> (r: Index)
        requires
            v < 4,
        ensures
            r.spec_value() == v as int,
    {
        if v == 0 {
            Index::One
        } else if v == 1 {
            Index::Two
        } else if v == 2 {
            Index::Three
        } else {
            Index::Four
        }
    }
}

} // verus!
