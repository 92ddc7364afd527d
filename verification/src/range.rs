//! A selectable span of one track's grid.

use vstd::prelude::*;

use crate::pitch::Pitch;
use crate::time::{Length, Tick};
use crate::track::Position;

verus! {

/// One pitch row, spanning ticks from `anchor` to `head` (either order — extending "backward" is
/// just `head < anchor`).
///
/// This is the spreadsheet sense of "range" (as in `A1:C5`), not a text editor's linear span:
/// a range never crosses rows. A chord is several independent ranges (one per pitch, i.e.
/// multi-cursor), not one range spanning them.
#[derive(Debug, Clone, Copy, PartialEq, Eq, Structural)]
pub struct Range {
    /// The row this range lives on.
    pub pitch: Pitch,
    /// Where the range was started from.
    pub anchor: Tick,
    /// The moving end.
    pub head: Tick,
}

impl Range {
    /// A single-tick range at `position`, collapsed (`anchor == head`).
    pub fn at(position: Position) -> (r: Range)
        ensures
            r == (Range { pitch: position.pitch, anchor: position.tick, head: position.tick }),
    {
        Range { pitch: position.pitch, anchor: position.tick, head: position.tick }
    }

    /// The earliest tick the range covers.
    #[verifier::allow_in_spec]
    pub fn start(self) -> Tick
        returns
            (if self.anchor.0 <= self.head.0 { self.anchor } else { self.head }),
    {
        if self.anchor.0 <= self.head.0 {
            self.anchor
        } else {
            self.head
        }
    }

    /// The latest tick the range covers.
    #[verifier::allow_in_spec]
    pub fn end(self) -> Tick
        returns
            (if self.anchor.0 <= self.head.0 { self.head } else { self.anchor }),
    {
        if self.anchor.0 <= self.head.0 {
            self.head
        } else {
            self.anchor
        }
    }

    /// How many ticks the range spans, inclusive of both ends, capped at `Length::MAX` — this is
    /// what sets a new note's length when inserting at this range.
    #[verifier::allow_in_spec]
    pub fn length(self) -> Length
        returns
            Length(
                (if self.end().0 - self.start().0 + 1 < 255 {
                    self.end().0 - self.start().0 + 1
                } else {
                    255
                }) as u8,
            ),
    {
        let span: u32 = self.end().0 as u32 - self.start().0 as u32 + 1;
        let ticks: u8 = if span < 255 { span as u8 } else { 255 };
        Length(ticks)
    }

    /// The grid coordinate this range starts from.
    #[verifier::allow_in_spec]
    pub fn position(self) -> Position
        returns
            (Position { tick: self.start(), pitch: self.pitch }),
    {
        Position { tick: self.start(), pitch: self.pitch }
    }

    /// Whether `self` and `other` overlap or touch on the same pitch (mergeable into one range).
    #[verifier::allow_in_spec]
    pub fn touches(self, other: Range) -> bool
        returns
            self.pitch == other.pitch
                && self.start().0 <= other.end().0.saturating_add(1)
                && other.start().0 <= self.end().0.saturating_add(1),
    {
        self.pitch == other.pitch && self.start().0 <= other.end().0.saturating_add(1)
            && other.start().0 <= self.end().0.saturating_add(1)
    }

    /// The smallest range covering both `self` and `other`.
    ///
    /// Only meaningful when [`Range::touches`] holds — merging two unrelated ranges would silently
    /// pull in whatever lies between them.
    #[verifier::allow_in_spec]
    pub fn merged(self, other: Range) -> Range
        returns
            (Range {
                pitch: self.pitch,
                anchor: if self.start().0 <= other.start().0 { self.start() } else { other.start() },
                head: if self.end().0 >= other.end().0 { self.end() } else { other.end() },
            }),
    {
        let a = self.start();
        let b = other.start();
        let c = self.end();
        let d = other.end();
        Range {
            pitch: self.pitch,
            anchor: if a.0 <= b.0 { a } else { b },
            head: if c.0 >= d.0 { c } else { d },
        }
    }

    /// Whether this range covers the grid cell at `position`.
    #[verifier::allow_in_spec]
    pub fn covers(self, position: Position) -> bool
        returns
            position.pitch == self.pitch && self.start().0 <= position.tick.0
                && position.tick.0 <= self.end().0,
    {
        position.pitch == self.pitch && self.start().0 <= position.tick.0
            && position.tick.0 <= self.end().0
    }

    /// Move the head to `head`: with `extend` the anchor stays where it is (the range grows or
    /// shrinks, as in visual mode), otherwise the range collapses onto the new head.
    #[verifier::allow_in_spec]
    pub fn moved(self, head: Tick, extend: bool) -> Range
        returns
            (Range { pitch: self.pitch, anchor: if extend { self.anchor } else { head }, head }),
    {
        Range { pitch: self.pitch, anchor: if extend { self.anchor } else { head }, head }
    }

    /// The same span, moved to another pitch row.
    #[verifier::allow_in_spec]
    pub fn with_pitch(self, pitch: Pitch) -> Range
        returns
            (Range { pitch, anchor: self.anchor, head: self.head }),
    {
        Range { pitch, anchor: self.anchor, head: self.head }
    }
}

/// Touching is symmetric: which of the two ranges asks does not matter.
pub proof fn lemma_touches_symmetric(a: Range, b: Range)
    ensures
        a.touches(b) == b.touches(a),
{
}

/// Merging two touching ranges covers exactly the cells either of them covers.
pub proof fn lemma_merged_covers_union(a: Range, b: Range, p: Position)
    requires
        a.touches(b),
    ensures
        a.merged(b).covers(p) <==> (a.covers(p) || b.covers(p)),
{
}

} // verus!
