//! Logical timestamps: an opaque 64-bit composite of a physical
//! millisecond part and a logical counter.

use vstd::prelude::*;

verus! {

/// Number of low bits reserved for the logical counter.
pub const TS_PHYSICAL_SHIFT_BITS: u64 = 18;

/// A 64-bit logical timestamp, totally ordered by its numeric value.
#[derive(Clone, Copy, Debug, PartialEq, Eq, Structural)]
pub struct TimeStamp(pub u64);

impl TimeStamp {
    /// Wraps a numeric timestamp value.
    pub fn new(v: u64) -> (r: TimeStamp)
        ensures
            r.0 == v,
    {
        TimeStamp(v)
    }

    /// The timestamp zero, smaller than every other timestamp.
    pub fn zero() -> (r: TimeStamp)
        ensures
            r.0 == 0,
    {
        TimeStamp(0)
    }

    /// The raw numeric value.
    pub fn into_inner(self) -> (r: u64)
        ensures
            r == self.0,
    {
        self.0
    }

    /// True exactly for the zero timestamp.
    pub fn is_zero(self) -> (r: bool)
        ensures
            r == (self.0 == 0),
    {
        self.0 == 0
    }

    /// The physical (millisecond) component.
    pub fn physical(self) -> (r: u64)
        ensures
            r == self.0 >> TS_PHYSICAL_SHIFT_BITS,
    {
        self.0 >> TS_PHYSICAL_SHIFT_BITS
    }

    /// Composes a timestamp from a physical millisecond count and a
    /// logical counter.
    pub fn compose(physical: u64, logical: u64) -> (r: TimeStamp)
        requires
            physical <= u64::MAX >> TS_PHYSICAL_SHIFT_BITS,
            logical < (1u64 << TS_PHYSICAL_SHIFT_BITS),
        ensures
            r.0 == ((physical << TS_PHYSICAL_SHIFT_BITS) | logical),
    {
        TimeStamp((physical << TS_PHYSICAL_SHIFT_BITS) | logical)
    }
}

} // verus!
