//! The visible window of the grid.

use std::ops::RangeInclusive;

use vstd::prelude::*;

use crate::pitch::Pitch;
use crate::time::Tick;

verus! {

/// `RangeInclusive::start`: the lower bound the range was built with.
#[verifier::external_body]
pub(crate) fn lowest_of(pitches: &RangeInclusive<Pitch>) -> (p: Pitch)
    ensures
        p == pitches@.start,
{
    *pitches.start()
}

/// `RangeInclusive::end`: the upper bound the range was built with.
#[verifier::external_body]
pub(crate) fn highest_of(pitches: &RangeInclusive<Pitch>) -> (p: Pitch)
    ensures
        p == pitches@.end,
{
    *pitches.end()
}

/// The visible window of the grid: as many pitches and ticks as fit on screen, centered on A4.
///
/// No scrolling yet — this is simply sized to the terminal, not bigger than it, recomputed every
/// frame so a resize is reflected immediately.
#[derive(Debug, PartialEq, Eq)]
pub struct Viewport {
    /// The pitch rows shown, high to low.
    pub pitches: RangeInclusive<Pitch>,
    /// The tick columns shown.
    pub ticks: std::ops::Range<Tick>,
}

/// How many pitch rows a terminal `height` rows tall shows: one row goes to the status line,
/// at least one row is always shown, and never more than there are pitches.
pub open spec fn rows_for(height: u16) -> int {
    let rows: int = if height >= 2 { height - 1 } else { 1 };
    if rows > 255 { 255 } else { rows }
}

/// The lowest pitch row shown when `rows` rows fit: half of them below A4.
pub open spec fn lowest_row(rows: int) -> int {
    if 69 >= rows / 2 { 69 - rows / 2 } else { 0 }
}

/// The highest pitch row shown when `rows` rows fit, counting up from [`lowest_row`].
pub open spec fn highest_row(rows: int) -> int {
    let high = lowest_row(rows) + rows - 1;
    if high > 255 { 255 } else { high }
}

impl Viewport {
    /// Fit as many rows and columns as `(width, height)` allows.
    pub fn fit(width: u16, height: u16) -> (v: Viewport)
        ensures
            v.pitches@.start == Pitch(lowest_row(rows_for(height)) as u8),
            v.pitches@.end == Pitch(highest_row(rows_for(height)) as u8),
            v.ticks.start == Tick(0),
            v.ticks.end == Tick(if width >= 1 { width } else { 1 }),
    {
        // One row is reserved for the status line.
        let rows: u16 = if height.saturating_sub(1) >= 1 { height.saturating_sub(1) } else { 1 };
        let rows: u8 = if rows <= 255 { rows as u8 } else { 255 };
        let half: u8 = rows / 2;
        let low: u8 = Pitch::a4().0.saturating_sub(half);
        let high: u8 = low.saturating_add(rows.saturating_sub(1));
        Viewport {
            pitches: RangeInclusive::new(Pitch(low), Pitch(high)),
            ticks: std::ops::Range { start: Tick(0), end: Tick(if width >= 1 { width } else { 1 }) },
        }
    }

}

impl Clone for Viewport {
    /// The same rows and columns.
    fn clone(&self) -> (v: Viewport)
        ensures
            v.pitches@.start == self.pitches@.start,
            v.pitches@.end == self.pitches@.end,
            v.ticks == self.ticks,
    {
        Viewport {
            pitches: RangeInclusive::new(lowest_of(&self.pitches), highest_of(&self.pitches)),
            ticks: std::ops::Range { start: self.ticks.start, end: self.ticks.end },
        }
    }
}

} // verus!
