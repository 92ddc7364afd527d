//! A pattern: one loop's worth of notes placed in pitch and time.

use vstd::prelude::*;

use crate::grid::lemma_key_order;
use crate::pitch::Pitch;
use crate::time::{Length, Tick};
use crate::track::{lists_notes, note_at, NoteFilter, Track};

pub use crate::track::Position;

verus! {

/// Whether a note at `position` lasting `length` is sounding at `tick`: from its start, up to
/// (not including) the tick its length runs out at.
#[verifier::allow_in_spec]
pub fn covers(position: Position, length: Length, tick: Tick) -> bool
    returns
        position.tick.0 <= tick.0 && tick.0 < position.tick.0 + length.0,
{
    position.tick.0 <= tick.0 && (tick.0 as u32) < position.tick.0 as u32 + length.0 as u32
}

/// Notes sounding at `tick`.
pub open spec fn pattern_covering(tick: Tick) -> spec_fn(crate::track::Note) -> bool {
    |n: crate::track::Note| covers(n.position, n.length, tick)
}

/// Notes at `pitch` overlapping `[at, at + length)`.
pub open spec fn pattern_overlapping(pitch: Pitch, at: Tick, length: Length) -> spec_fn(
    crate::track::Note,
) -> bool {
    |n: crate::track::Note|
        n.position.pitch == pitch && n.position.tick.0 < at.0 + length.0 && at.0 < n.position.tick.0
            + n.length.0
}

/// The notes a listing of `(position, length)` pairs stands for.
pub open spec fn as_notes(r: Seq<(Position, Length)>) -> Seq<crate::track::Note> {
    r.map_values(|e: (Position, Length)| crate::track::Note { position: e.0, length: e.1 })
}

/// One loop's worth of notes: a sorted map from where each note starts to how long it lasts, plus
/// the pattern's own loop length.
#[derive(Debug, Clone)]
pub struct Pattern {
    /// The notes, each at most once per grid position. Reachable only through `Track`'s own
    /// operations, which keep it well formed.
    pub notes: Track,
    /// How long one loop of this pattern is, in ticks.
    ///
    /// Independent of the notes, not derived from them — an empty pattern still needs a length to
    /// have a grid to place notes into.
    pub length: Tick,
}

impl View for Pattern {
    type V = Map<Position, Length>;

    open spec fn view(&self) -> Map<Position, Length> {
        self.notes@
    }
}

/// The narrowest span of grid positions that could hold anything covering `from` — bounded by
/// `Length::MAX`, since nothing sounding for longer than that could still start further back.
fn window(from: Position) -> (w: (Position, Position))
    ensures
        w.0 == (Position { tick: Tick(from.tick.0.saturating_sub(254)), pitch: Pitch(0) }),
        w.1 == (Position { tick: from.tick, pitch: Pitch(255) }),
{
    let earliest = Tick(from.tick.0.saturating_sub((Length::max_value().0 - 1) as u16));
    let lower = Position { tick: earliest, pitch: Pitch(0) };
    let upper = Position { tick: from.tick, pitch: Pitch(255) };
    (lower, upper)
}

/// The `(position, length)` pairs of `notes`, in the same order.
fn pairs(notes: &Vec<crate::track::Note>) -> (r: Vec<(Position, Length)>)
    ensures
        as_notes(r@) == notes@,
{
    let mut out: Vec<(Position, Length)> = Vec::new();
    let mut i: usize = 0;
    while i < notes.len()
        invariant
            i <= notes.len(),
            out@.len() == i,
            forall|j: int| 0 <= j < i ==> #[trigger] out@[j] == (notes@[j].position, notes@[j].length),
        decreases notes.len() - i,
    {
        out.push((notes[i].position, notes[i].length));
        i = i + 1;
    }
    proof {
        assert(as_notes(out@) =~= notes@);
    }
    out
}

impl Pattern {
    /// Every grid position holds a note at most once.
    pub open spec fn wf(&self) -> bool {
        self.notes.wf()
    }

    /// An empty pattern, `length` ticks long.
    pub fn new(length: Tick) -> (p: Pattern)
        ensures
            p.wf(),
            p@ == Map::<Position, Length>::empty(),
            p.length == length,
    {
        Pattern { notes: Track::new(), length }
    }

    /// Every note whose span covers `tick`, at any pitch — zero, one, or several (a chord).
    pub fn sounding_at(&self, tick: Tick) -> (r: Vec<(Position, Length)>)
        requires
            self.wf(),
        ensures
            lists_notes(as_notes(r@), self@, pattern_covering(tick)),
    {
        let (lower, upper) = window(Position { tick, pitch: Pitch(0) });
        let filter = NoteFilter::PatternCovering(tick);
        proof {
            assert forall|p: Position|
                self.notes@.contains_key(p) && #[trigger] filter.pred()(note_at(self.notes@, p))
                    implies crate::grid::key(lower) <= crate::grid::key(p) <= crate::grid::key(upper) by {
                lemma_key_order(lower, p);
                lemma_key_order(p, upper);
            }
        }
        let notes = self.notes.matching_in_window(lower, upper, filter);
        pairs(&notes)
    }

    /// Every note at `pitch` overlapping `[at, at + length)`.
    fn overlapping(&self, pitch: Pitch, at: Tick, length: Length) -> (r: Vec<(Position, Length)>)
        requires
            self.wf(),
        ensures
            lists_notes(as_notes(r@), self@, pattern_overlapping(pitch, at, length)),
    {
        let past: u32 = at.0 as u32 + length.0 as u32;
        let last: u16 = if past == 0 { 0 } else if past - 1 > 0xffff { 0xffff } else { (past - 1) as u16 };
        let (lower, _) = window(Position { tick: at, pitch });
        let (_, upper) = window(Position { tick: Tick(last), pitch });
        let filter = NoteFilter::PatternOverlapping(pitch, at, length);
        proof {
            assert forall|p: Position|
                self.notes@.contains_key(p) && #[trigger] filter.pred()(note_at(self.notes@, p))
                    implies crate::grid::key(lower) <= crate::grid::key(p) <= crate::grid::key(upper) by {
                lemma_key_order(lower, p);
                lemma_key_order(p, upper);
            }
        }
        let notes = self.notes.matching_in_window(lower, upper, filter);
        pairs(&notes)
    }

    /// Place a note at `at`, removing (and returning) whatever same-pitch notes it overlaps —
    /// two notes of the same pitch sounding at once in one pattern isn't a sound, it's an
    /// undefined one; a chord is several *different* pitches, not overlapping copies of one.
    pub fn insert(&mut self, at: Position, length: Length) -> (removed: Vec<(Position, Length)>)
        requires
            old(self).wf(),
        ensures
            final(self).wf(),
            final(self).length == old(self).length,
            lists_notes(as_notes(removed@), old(self)@, pattern_overlapping(at.pitch, at.tick, length)),
            final(self)@ == Map::new(
                |p: Position|
                    old(self)@.contains_key(p) && !pattern_overlapping(at.pitch, at.tick, length)(
                        note_at(old(self)@, p),
                    ),
                |p: Position| old(self)@[p],
            ).insert(at, length),
    {
        let removed = self.overlapping(at.pitch, at.tick, length);
        let mut notes: Vec<crate::track::Note> = Vec::new();
        let mut i: usize = 0;
        while i < removed.len()
            invariant
                i <= removed.len(),
                notes@ == as_notes(removed@).take(i as int),
            decreases removed.len() - i,
        {
            let (position, length) = removed[i];
            notes.push(crate::track::Note { position, length });
            i = i + 1;
            proof {
                assert(notes@ =~= as_notes(removed@).take(i as int));
            }
        }
        proof {
            assert(as_notes(removed@).take(removed@.len() as int) =~= as_notes(removed@));
        }
        self.notes.replace(&notes, at, length);
        proof {
            let pred = pattern_overlapping(at.pitch, at.tick, length);
            let rs = as_notes(removed@);
            assert forall|p: Position| old(self)@.contains_key(p) implies (pred(note_at(old(self)@, p))
                <==> exists|i: int| 0 <= i < notes@.len() && #[trigger] notes@[i].position == p) by {
                if exists|i: int| 0 <= i < notes@.len() && #[trigger] notes@[i].position == p {
                    let i = choose|i: int| 0 <= i < notes@.len() && #[trigger] notes@[i].position == p;
                    assert(rs[i] == note_at(old(self)@, p));
                }
                if pred(note_at(old(self)@, p)) {
                    let i = choose|i: int| 0 <= i < rs.len() && #[trigger] rs[i].position == p;
                    assert(notes@[i].position == p);
                }
            }
            assert(self@ =~= Map::new(
                |p: Position|
                    old(self)@.contains_key(p) && !pred(note_at(old(self)@, p)),
                |p: Position| old(self)@[p],
            ).insert(at, length));
        }
        removed
    }

    /// Remove the note at `at`, if any, returning its length.
    pub fn remove(&mut self, at: Position) -> (r: Option<Length>)
        requires
            old(self).wf(),
        ensures
            final(self).wf(),
            final(self).length == old(self).length,
            final(self)@ == old(self)@.remove(at),
            r == (if old(self)@.contains_key(at) { Some(old(self)@[at]) } else { None::<Length> }),
    {
        self.notes.remove(at)
    }
}

} // verus!
