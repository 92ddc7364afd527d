//! Time, measured in ticks.

use vstd::prelude::*;

verus! {

/// A position in time within a pattern, measured in ticks.
///
/// Wraps at the pattern's own length — like a clock face, a tick past the end is the same
/// position on the next lap, not a new one.
#[derive(Debug, Clone, Copy, PartialEq, Eq, Structural, PartialOrd, Ord, Hash)]
pub struct Tick(pub u16);

impl Default for Tick {
    /// The very first tick.
    fn default() -> (t: Tick)
        ensures
            t == Tick(0),
    {
        Tick(0)
    }
}

/// A span of time, measured in ticks — a note's duration, or a whole pattern's loop length.
#[derive(Debug, Clone, Copy, PartialEq, Eq, Structural, PartialOrd, Ord, Hash)]
pub struct Length(pub u8);

impl Length {
    /// The longest a single span can be.
    ///
    /// Also the widest window a "what's sounding right now" search ever needs to look backward —
    /// nothing can still be sounding from further back than this and still cover the tick being
    /// asked about.
    pub fn max_value() -> (l: Length)
        ensures
            l == Length(255),
    {
        Length(255)
    }
}

} // verus!
