//! A track: notes placed in pitch and time.

use std::collections::BTreeMap;

use vstd::prelude::*;

use crate::grid::{
    entries_between, key, key_bound, key_of, lemma_key_order, lemma_key_roundtrip,
    lemma_position_roundtrip, lists_entries, position_at, position_of,
};
use crate::pattern::{covers, pattern_covering, pattern_overlapping};
use crate::pitch::Pitch;
use crate::time::{Length, Tick};

verus! {

/// A coordinate in a track's grid.
#[derive(Debug, Clone, Copy, PartialEq, Eq, Structural, PartialOrd, Ord, Hash)]
pub struct Position {
    /// When the note starts.
    pub tick: Tick,
    /// Which pitch it's at.
    pub pitch: Pitch,
}

/// A placed note: where it starts, and how long it lasts.
#[derive(Debug, Clone, Copy, PartialEq, Eq, Structural)]
pub struct Note {
    /// Where it starts.
    pub position: Position,
    /// How long it lasts.
    pub length: Length,
}

impl Note {
    /// The last tick this note covers: the tick before the one its length runs out at, kept
    /// within the tick range.
    #[verifier::allow_in_spec]
    pub fn end(self) -> Tick
        returns
            Tick(within_ticks(self.position.tick.0 + self.length.0 - 1) as u16),
    {
        let past: u32 = self.position.tick.0 as u32 + self.length.0 as u32;
        Tick(if past == 0 { 0 } else if past - 1 > 0xffff { 0xffff } else { (past - 1) as u16 })
    }

    /// Whether this note's span covers `tick`.
    #[verifier::allow_in_spec]
    pub fn covers(self, tick: Tick) -> bool
        returns
            self.position.tick.0 <= tick.0 && tick.0 <= self.end().0,
    {
        self.position.tick.0 <= tick.0 && tick.0 <= self.end().0
    }
}

/// `t`, kept within the tick range `[0, 0xffff]`.
pub open spec fn within_ticks(t: int) -> int {
    if t < 0 {
        0
    } else if t > 0xffff {
        0xffff
    } else {
        t
    }
}

/// `a` comes strictly before `b` in grid order: by tick, then by pitch.
pub open spec fn position_lt(a: Position, b: Position) -> bool {
    a.tick.0 < b.tick.0 || (a.tick.0 == b.tick.0 && a.pitch.0 < b.pitch.0)
}

/// The note `m` has at `p`.
pub open spec fn note_at(m: Map<Position, Length>, p: Position) -> Note {
    Note { position: p, length: m[p] }
}

/// `r` lists, in grid order, exactly the notes of `m` satisfying `pred`.
pub open spec fn lists_notes(r: Seq<Note>, m: Map<Position, Length>, pred: spec_fn(Note) -> bool) -> bool {
    &&& forall|i: int, j: int|
        0 <= i < j < r.len() ==> position_lt(#[trigger] r[i].position, #[trigger] r[j].position)
    &&& forall|i: int|
        0 <= i < r.len() ==> m.contains_key(#[trigger] r[i].position) && m[r[i].position]
            == r[i].length && pred(r[i])
    &&& forall|p: Position|
        m.contains_key(p) && pred(note_at(m, p)) ==> exists|i: int|
            0 <= i < r.len() && #[trigger] r[i].position == p
}

/// `r` lists, in grid order, exactly the positions of the notes of `m` satisfying `pred`.
pub open spec fn lists_positions(
    r: Seq<Position>,
    m: Map<Position, Length>,
    pred: spec_fn(Note) -> bool,
) -> bool {
    &&& forall|i: int, j: int| 0 <= i < j < r.len() ==> position_lt(#[trigger] r[i], #[trigger] r[j])
    &&& forall|i: int| 0 <= i < r.len() ==> m.contains_key(#[trigger] r[i]) && pred(note_at(m, r[i]))
    &&& forall|p: Position|
        m.contains_key(p) && pred(note_at(m, p)) ==> exists|i: int| 0 <= i < r.len() && #[trigger] r[i] == p
}

/// Notes whose span covers `tick`.
pub open spec fn covering(tick: Tick) -> spec_fn(Note) -> bool {
    |n: Note| n.covers(tick)
}

/// Notes at `pitch`.
pub open spec fn at_pitch(pitch: Pitch) -> spec_fn(Note) -> bool {
    |n: Note| n.position.pitch == pitch
}

/// Notes at `pitch` starting within `[start, end]`.
pub open spec fn starting_within(pitch: Pitch, start: Tick, end: Tick) -> spec_fn(Note) -> bool {
    |n: Note| n.position.pitch == pitch && start.0 <= n.position.tick.0 && n.position.tick.0 <= end.0
}

/// The tick just past `[at, at + length)` — one past the tick range itself when the span
/// reaches its last tick.
pub open spec fn span_end(at: Tick, length: Length) -> int {
    at.0 + length.0
}

/// Same-pitch notes a new note at `at` lasting `length` would sound over: starting before the
/// new note is over, and still sounding once it starts.
pub open spec fn conflicting(at: Position, length: Length) -> spec_fn(Note) -> bool {
    |n: Note|
        n.position.pitch == at.pitch && n.position.tick.0 < span_end(at.tick, length) && at.tick.0
            <= n.end().0
}

/// What placing a note at `at` lasting `length` leaves: every note it conflicts with gone, and
/// the new note in place.
pub open spec fn inserted(m: Map<Position, Length>, at: Position, length: Length) -> Map<
    Position,
    Length,
> {
    Map::new(
        |p: Position| m.contains_key(p) && !conflicting(at, length)(note_at(m, p)),
        |p: Position| m[p],
    ).insert(at, length)
}

/// A note at least one tick long, ending within the tick range.
pub open spec fn fits(n: Note) -> bool {
    n.length.0 >= 1 && n.position.tick.0 + n.length.0 <= 0x10000
}

/// Two same-pitch notes sounding at some common tick.
pub open spec fn overlap(a: Note, b: Note) -> bool {
    a.position.pitch == b.position.pitch && a.position.tick.0 < b.position.tick.0 + b.length.0
        && b.position.tick.0 < a.position.tick.0 + a.length.0
}

/// `r` is the start of the latest note of `m` at `pitch` starting before `tick`, or `None` when
/// there is no such note.
pub open spec fn previous_start_is(m: Map<Position, Length>, pitch: Pitch, tick: Tick, r: Option<Tick>) -> bool {
    match r {
        None => forall|p: Position| m.contains_key(p) && p.pitch == pitch ==> p.tick.0 >= tick.0,
        Some(t) => {
            &&& t.0 < tick.0
            &&& m.contains_key(Position { tick: t, pitch })
            &&& forall|p: Position|
                m.contains_key(p) && p.pitch == pitch && p.tick.0 < tick.0 ==> p.tick.0 <= t.0
        },
    }
}

/// `r` is the earliest last covered tick, after `tick`, of a note of `m` at `pitch`, or `None`
/// when no note there ends after `tick`.
pub open spec fn next_end_is(m: Map<Position, Length>, pitch: Pitch, tick: Tick, r: Option<Tick>) -> bool {
    match r {
        None => forall|p: Position| m.contains_key(p) && p.pitch == pitch ==> note_at(m, p).end().0 <= tick.0,
        Some(e) => {
            &&& e.0 > tick.0
            &&& exists|p: Position| m.contains_key(p) && p.pitch == pitch && #[trigger] note_at(m, p).end() == e
            &&& forall|p: Position|
                m.contains_key(p) && p.pitch == pitch && note_at(m, p).end().0 > tick.0 ==> e.0 <= note_at(
                    m,
                    p,
                ).end().0
        },
    }
}

/// Every note fits, and no two same-pitch notes sound at once.
pub open spec fn tidy(m: Map<Position, Length>) -> bool {
    &&& forall|p: Position| m.contains_key(p) ==> fits(#[trigger] note_at(m, p))
    &&& forall|p: Position, q: Position|
        m.contains_key(p) && m.contains_key(q) && p != q ==> !overlap(
            #[trigger] note_at(m, p),
            #[trigger] note_at(m, q),
        )
}

/// For notes that fit, conflicting with a new note is exactly overlapping it.
pub proof fn lemma_conflicting_is_overlap(n: Note, other: Note)
    requires
        fits(n),
        fits(other),
    ensures
        conflicting(n.position, n.length)(other) <==> overlap(n, other),
        overlap(n, other) <==> overlap(other, n),
{
}

/// Placing a note that fits into a tidy map leaves it tidy, holding the new note, with every
/// other pitch's notes as they were.
pub proof fn lemma_inserted_tidy(m: Map<Position, Length>, at: Position, length: Length)
    requires
        tidy(m),
        fits(Note { position: at, length }),
    ensures
        tidy(inserted(m, at, length)),
        inserted(m, at, length).contains_key(at) && inserted(m, at, length)[at] == length,
        forall|p: Position|
            p.pitch != at.pitch ==> (#[trigger] inserted(m, at, length).contains_key(p) <==> m.contains_key(p))
                && (m.contains_key(p) ==> inserted(m, at, length)[p] == m[p]),
{
    let r = inserted(m, at, length);
    let n = Note { position: at, length };
    assert forall|p: Position| r.contains_key(p) implies fits(#[trigger] note_at(r, p)) by {
        if p != at {
            assert(note_at(r, p) == note_at(m, p));
        }
    }
    assert forall|p: Position, q: Position|
        r.contains_key(p) && r.contains_key(q) && p != q implies !overlap(
        #[trigger] note_at(r, p),
        #[trigger] note_at(r, q),
    ) by {
        if p == at {
            assert(note_at(r, q) == note_at(m, q));
            lemma_conflicting_is_overlap(n, note_at(m, q));
        } else if q == at {
            assert(note_at(r, p) == note_at(m, p));
            lemma_conflicting_is_overlap(n, note_at(m, p));
        } else {
            assert(note_at(r, p) == note_at(m, p));
            assert(note_at(r, q) == note_at(m, q));
        }
    }
}

/// Removing a note from a tidy map leaves it tidy.
pub proof fn lemma_removed_tidy(m: Map<Position, Length>, at: Position)
    requires
        tidy(m),
    ensures
        tidy(m.remove(at)),
{
    let r = m.remove(at);
    assert forall|p: Position| r.contains_key(p) implies fits(#[trigger] note_at(r, p)) by {
        assert(note_at(r, p) == note_at(m, p));
    }
    assert forall|p: Position, q: Position|
        r.contains_key(p) && r.contains_key(q) && p != q implies !overlap(
        #[trigger] note_at(r, p),
        #[trigger] note_at(r, q),
    ) by {
        assert(note_at(r, p) == note_at(m, p));
        assert(note_at(r, q) == note_at(m, q));
    }
}

/// A sorted map from where each note starts to how long it lasts.
///
/// The value only carries data about the note *other* than its pitch (currently just how long it
/// lasts) — the pitch is already the other half of the key. A track is just an open, unbounded
/// timeline of notes; how much of it plays, loops, or is shown is a separate concern.
#[derive(Debug)]
pub struct Track {
    notes: BTreeMap<u32, Length>,
}

/// The notes a key-to-length map stands for, by position.
pub open spec fn notes_view(m: Map<u32, Length>) -> Map<Position, Length> {
    Map::new(|p: Position| m.contains_key(key(p) as u32), |p: Position| m[key(p) as u32])
}

impl Clone for Track {
    /// The same notes.
    fn clone(&self) -> (t: Track)
        ensures
            t@ == self@,
            t.wf() == self.wf(),
    {
        let notes = self.notes.clone();
        assert(notes@ == self.notes@);
        Track { notes }
    }
}

impl View for Track {
    type V = Map<Position, Length>;

    closed spec fn view(&self) -> Map<Position, Length> {
        notes_view(self.notes@)
    }
}

/// The narrowest span of grid positions that could hold a note starting anywhere from
/// `Length::MAX` ticks before `earliest_start` (any earlier and even the longest possible note
/// couldn't start late enough to still matter) through `latest_start`, at any pitch.
pub(crate) fn window(earliest_start: Tick, latest_start: Tick) -> (w: (Position, Position))
    ensures
        w.0 == (Position { tick: Tick(earliest_start.0.saturating_sub(254)), pitch: Pitch(0) }),
        w.1 == (Position { tick: latest_start, pitch: Pitch(255) }),
{
    let lower = Position {
        tick: Tick(earliest_start.0.saturating_sub((Length::max_value().0 - 1) as u16)),
        pitch: Pitch(0),
    };
    let upper = Position { tick: latest_start, pitch: Pitch(255) };
    (lower, upper)
}

/// The note an entry of the map stands for.
pub open spec fn entry_note(e: (u32, Length)) -> Note {
    Note { position: position_of(e.0 as int), length: e.1 }
}

/// Reading a window of the map's entries as notes, then keeping those satisfying `pred`, lists
/// every such note, so long as none of them lies outside the window.
proof fn lemma_window_listing(
    entries: Seq<(u32, Length)>,
    m: Map<u32, Length>,
    lo: u32,
    hi: u32,
    pred: spec_fn(Note) -> bool,
)
    requires
        lists_entries(entries, m, lo, hi),
        forall|k: u32| m.contains_key(k) ==> k < key_bound(),
        forall|p: Position|
            notes_view(m).contains_key(p) && #[trigger] pred(note_at(notes_view(m), p)) ==> lo <= key(p)
                <= hi,
    ensures
        lists_notes(entries.map_values(|e: (u32, Length)| entry_note(e)).filter(pred), notes_view(m), pred),
{
    let ns = entries.map_values(|e: (u32, Length)| entry_note(e));
    let view = notes_view(m);
    assert forall|i: int, j: int| 0 <= i < j < ns.len() implies position_lt(ns[i].position, ns[j].position) by {
        lemma_key_order(ns[i].position, ns[j].position);
        lemma_position_roundtrip(entries[i].0 as int);
        lemma_position_roundtrip(entries[j].0 as int);
    }
    lemma_filter_sorted(ns, pred);
    #[allow(deprecated)]
    ns.filter_lemma(pred);
    let r = ns.filter(pred);
    assert forall|i: int| 0 <= i < r.len() implies view.contains_key(#[trigger] r[i].position)
        && view[r[i].position] == r[i].length && pred(r[i]) by {
        let j = choose|j: int| 0 <= j < ns.len() && ns[j] == #[trigger] r[i];
        lemma_position_roundtrip(entries[j].0 as int);
    }
    assert forall|p: Position| view.contains_key(p) && pred(note_at(view, p)) implies exists|i: int|
        0 <= i < r.len() && #[trigger] r[i].position == p by {
        lemma_key_roundtrip(p);
        let k = key(p) as u32;
        let j = choose|j: int| 0 <= j < entries.len() && #[trigger] entries[j].0 == k;
        assert(ns[j].position == p);
        assert(ns[j] == note_at(view, p));
        assert(pred(ns[j]));
        assert(r.contains(ns[j]));
        let idx = choose|idx: int| 0 <= idx < r.len() && r[idx] == ns[j];
        assert(r[idx].position == p);
    }
}

/// Keeping only some notes of a listing in grid order leaves it in grid order, and every kept
/// note comes from the listing.
pub proof fn lemma_filter_sorted(ns: Seq<Note>, pred: spec_fn(Note) -> bool)
    requires
        forall|i: int, j: int| 0 <= i < j < ns.len() ==> position_lt(ns[i].position, ns[j].position),
    ensures
        forall|i: int, j: int|
            0 <= i < j < ns.filter(pred).len() ==> position_lt(
                #[trigger] ns.filter(pred)[i].position,
                #[trigger] ns.filter(pred)[j].position,
            ),
        forall|i: int|
            0 <= i < ns.filter(pred).len() ==> exists|j: int|
                0 <= j < ns.len() && ns[j] == #[trigger] ns.filter(pred)[i],
    decreases ns.len(),
{
    reveal(Seq::filter);
    if ns.len() > 0 {
        let t = ns.drop_last();
        lemma_filter_sorted(t, pred);
        let r = t.filter(pred);
        assert forall|i: int| 0 <= i < r.len() implies position_lt(r[i].position, ns.last().position) by {
            let j = choose|j: int| 0 <= j < t.len() && t[j] == #[trigger] r[i];
            assert(ns[j] == t[j]);
        }
        let full = ns.filter(pred);
        assert forall|i: int|
            0 <= i < full.len() implies exists|j: int| 0 <= j < ns.len() && ns[j] == #[trigger] full[i] by {
            if i < r.len() {
                let j = choose|j: int| 0 <= j < t.len() && t[j] == #[trigger] r[i];
                assert(ns[j] == t[j]);
            } else {
                assert(ns[ns.len() - 1] == full[i]);
            }
        }
    }
}

impl Track {
    /// Every key in the map stands for a grid position.
    pub closed spec fn wf(&self) -> bool {
        forall|k: u32| self.notes@.contains_key(k) ==> k < key_bound()
    }

    /// An empty track.
    pub fn new() -> (t: Track)
        ensures
            t.wf(),
            t@ == Map::<Position, Length>::empty(),
    {
        let t = Track { notes: BTreeMap::new() };
        assert(t@ =~= Map::<Position, Length>::empty());
        t
    }

    /// The notes in the window `[lower, upper]` satisfying `filter`, when no note satisfying it
    /// lies outside the window.
    pub(crate) fn matching_in_window(&self, lower: Position, upper: Position, filter: NoteFilter) -> (r: Vec<Note>)
        requires
            self.wf(),
            forall|p: Position|
                self@.contains_key(p) && #[trigger] filter.pred()(note_at(self@, p)) ==> key(lower)
                    <= key(p) <= key(upper),
        ensures
            lists_notes(r@, self@, filter.pred()),
    {
        let entries = entries_between(&self.notes, key_of(lower), key_of(upper));
        let ghost ns = entries@.map_values(|e: (u32, Length)| entry_note(e));
        let ghost pred = filter.pred();
        proof {
            lemma_key_roundtrip(lower);
            lemma_key_roundtrip(upper);
            assert(self@ == notes_view(self.notes@));
            assert forall|p: Position|
                notes_view(self.notes@).contains_key(p) && #[trigger] pred(note_at(notes_view(self.notes@), p))
                    implies key(lower) as u32 <= key(p) <= key(upper) as u32 by {
                assert(filter.pred()(note_at(self@, p)));
            }
            lemma_window_listing(entries@, self.notes@, key(lower) as u32, key(upper) as u32, pred);
        }
        let mut out: Vec<Note> = Vec::new();
        let mut i: usize = 0;
        while i < entries.len()
            invariant
                i <= entries.len(),
                self.wf(),
                lists_entries(entries@, self.notes@, key(lower) as u32, key(upper) as u32),
                ns == entries@.map_values(|e: (u32, Length)| entry_note(e)),
                pred == filter.pred(),
                out@ == ns.take(i as int).filter(pred),
            decreases entries.len() - i,
        {
            let (k, length) = entries[i];
            let note = Note { position: position_at(k), length };
            proof {
                assert(ns.take(i + 1) == ns.take(i as int).push(ns[i as int]));
                ns.take(i as int).lemma_filter_push(ns[i as int], pred);
            }
            if filter.test(note) {
                out.push(note);
            }
            i = i + 1;
        }
        proof {
            assert(ns.take(ns.len() as int) == ns);
        }
        out
    }

    /// Every note whose span covers `tick`, at any pitch — zero, one, or several (a chord).
    pub fn sounding_at(&self, tick: Tick) -> (r: Vec<Note>)
        requires
            self.wf(),
        ensures
            lists_notes(r@, self@, covering(tick)),
            forall|i: int|
                0 <= i < r@.len() ==> self@.contains_key((#[trigger] r@[i]).position) && self@[r@[i].position]
                    == r@[i].length && r@[i].position.tick.0 <= tick.0 && tick.0 <= r@[i].end().0,
            forall|p: Position|
                self@.contains_key(p) && #[trigger] note_at(self@, p).covers(tick) ==> exists|i: int|
                    0 <= i < r@.len() && r@[i] == note_at(self@, p),
    {
        let (lower, upper) = window(tick, tick);
        let filter = NoteFilter::Covering(tick);
        proof {
            assert forall|p: Position|
                self@.contains_key(p) && #[trigger] filter.pred()(note_at(self@, p)) implies key(lower)
                    <= key(p) <= key(upper) by {
                lemma_key_order(lower, p);
                lemma_key_order(p, upper);
            }
        }
        let r = self.matching_in_window(lower, upper, filter);
        proof {
            assert forall|p: Position| self@.contains_key(p) && #[trigger] note_at(self@, p).covers(tick) implies exists|
                i: int,
            | 0 <= i < r@.len() && r@[i] == note_at(self@, p) by {
                assert(covering(tick)(note_at(self@, p)));
                let i = choose|i: int| 0 <= i < r@.len() && #[trigger] r@[i].position == p;
                assert(r@[i] == note_at(self@, p));
            }
            assert forall|i: int| 0 <= i < r@.len() implies (#[trigger] r@[i]).position.tick.0 <= tick.0 && tick.0
                <= r@[i].end().0 by {
                assert(covering(tick)(r@[i]));
            }
        }
        r
    }

    /// Every note at `pitch`, in tick order — the one row a selection ever moves along, so this
    /// is what note-boundary movement and span-based edits both build on.
    pub fn notes_at_pitch(&self, pitch: Pitch) -> (r: Vec<Note>)
        requires
            self.wf(),
        ensures
            lists_notes(r@, self@, at_pitch(pitch)),
            forall|i: int|
                0 <= i < r@.len() ==> (#[trigger] r@[i]).position.pitch == pitch && self@.contains_key(
                    r@[i].position,
                ) && self@[r@[i].position] == r@[i].length,
            forall|p: Position|
                self@.contains_key(p) && p.pitch == pitch ==> exists|i: int|
                    0 <= i < r@.len() && #[trigger] r@[i] == note_at(self@, p),
    {
        let lower = Position { tick: Tick(0), pitch: Pitch(0) };
        let upper = Position { tick: Tick(0xffff), pitch: Pitch(255) };
        let filter = NoteFilter::AtPitch(pitch);
        proof {
            assert forall|p: Position|
                self@.contains_key(p) && #[trigger] filter.pred()(note_at(self@, p)) implies key(lower)
                    <= key(p) <= key(upper) by {
                lemma_key_order(lower, p);
                lemma_key_order(p, upper);
            }
        }
        let r = self.matching_in_window(lower, upper, filter);
        proof {
            assert forall|p: Position| self@.contains_key(p) && p.pitch == pitch implies exists|i: int|
                0 <= i < r@.len() && #[trigger] r@[i] == note_at(self@, p) by {
                assert(at_pitch(pitch)(note_at(self@, p)));
                let i = choose|i: int| 0 <= i < r@.len() && #[trigger] r@[i].position == p;
                assert(r@[i] == note_at(self@, p));
            }
            assert forall|i: int| 0 <= i < r@.len() implies (#[trigger] r@[i]).position.pitch == pitch by {
                assert(at_pitch(pitch)(r@[i]));
            }
        }
        r
    }

    /// The start of the nearest note at `pitch` starting before `tick`, if any.
    ///
    /// Helix's `b` (jump to the previous word start), for notes: already sitting on or inside a
    /// note jumps to *that* note's start first, pressing it again from there reaches the one
    /// before.
    pub fn previous_note_start(&self, pitch: Pitch, tick: Tick) -> (r: Option<Tick>)
        requires
            self.wf(),
        ensures
            previous_start_is(self@, pitch, tick, r),
    {
        let notes = self.notes_at_pitch(pitch);
        let mut best: Option<Tick> = None;
        let mut i: usize = 0;
        while i < notes.len()
            invariant
                i <= notes.len(),
                lists_notes(notes@, self@, at_pitch(pitch)),
                match best {
                    None => forall|j: int| 0 <= j < i ==> notes@[j].position.tick.0 >= tick.0,
                    Some(t) => {
                        &&& t.0 < tick.0
                        &&& exists|j: int| 0 <= j < i && notes@[j].position.tick == t
                        &&& forall|j: int|
                            0 <= j < i && notes@[j].position.tick.0 < tick.0 ==> notes@[j].position.tick.0
                                <= t.0
                    },
                },
            decreases notes.len() - i,
        {
            let start = notes[i].position.tick;
            if start.0 < tick.0 {
                match best {
                    Some(t) => {
                        if t.0 < start.0 {
                            best = Some(start);
                        }
                    },
                    None => {
                        best = Some(start);
                    },
                }
            }
            i = i + 1;
        }
        proof {
            match best {
                None => {
                    assert forall|p: Position| self@.contains_key(p) && p.pitch == pitch implies p.tick.0
                        >= tick.0 by {
                        assert(at_pitch(pitch)(note_at(self@, p)));
                        let j = choose|j: int| 0 <= j < notes@.len() && #[trigger] notes@[j].position == p;
                    }
                },
                Some(t) => {
                    let j = choose|j: int| 0 <= j < i && notes@[j].position.tick == t;
                    assert(notes@[j].position == Position { tick: t, pitch });
                    assert forall|p: Position|
                        self@.contains_key(p) && p.pitch == pitch && p.tick.0 < tick.0 implies p.tick.0
                            <= t.0 by {
                        assert(at_pitch(pitch)(note_at(self@, p)));
                        let j = choose|j: int| 0 <= j < notes@.len() && #[trigger] notes@[j].position == p;
                    }
                },
            }
        }
        best
    }

    /// The end (last covered tick) of the nearest note at `pitch` ending after `tick`, if any —
    /// Helix's `e`, symmetric to [`Track::previous_note_start`].
    pub fn next_note_end(&self, pitch: Pitch, tick: Tick) -> (r: Option<Tick>)
        requires
            self.wf(),
        ensures
            next_end_is(self@, pitch, tick, r),
    {
        let notes = self.notes_at_pitch(pitch);
        let mut best: Option<Tick> = None;
        let mut i: usize = 0;
        while i < notes.len()
            invariant
                i <= notes.len(),
                lists_notes(notes@, self@, at_pitch(pitch)),
                match best {
                    None => forall|j: int| 0 <= j < i ==> notes@[j].end().0 <= tick.0,
                    Some(e) => {
                        &&& e.0 > tick.0
                        &&& exists|j: int| 0 <= j < i && notes@[j].end() == e
                        &&& forall|j: int|
                            0 <= j < i && notes@[j].end().0 > tick.0 ==> e.0 <= notes@[j].end().0
                    },
                },
            decreases notes.len() - i,
        {
            let end = notes[i].end();
            if end.0 > tick.0 {
                match best {
                    Some(e) => {
                        if end.0 < e.0 {
                            best = Some(end);
                        }
                    },
                    None => {
                        best = Some(end);
                    },
                }
            }
            i = i + 1;
        }
        proof {
            match best {
                None => {
                    assert forall|p: Position| self@.contains_key(p) && p.pitch == pitch implies note_at(
                        self@,
                        p,
                    ).end().0 <= tick.0 by {
                        assert(at_pitch(pitch)(note_at(self@, p)));
                        let j = choose|j: int| 0 <= j < notes@.len() && #[trigger] notes@[j].position == p;
                        assert(notes@[j] == note_at(self@, p));
                    }
                },
                Some(e) => {
                    let j = choose|j: int| 0 <= j < i && notes@[j].end() == e;
                    let q = notes@[j].position;
                    assert(notes@[j] == note_at(self@, q));
                    assert(self@.contains_key(q) && q.pitch == pitch && note_at(self@, q).end() == e);
                    assert forall|p: Position|
                        self@.contains_key(p) && p.pitch == pitch && note_at(self@, p).end().0
                            > tick.0 implies e.0 <= note_at(self@, p).end().0 by {
                        assert(at_pitch(pitch)(note_at(self@, p)));
                        let j = choose|j: int| 0 <= j < notes@.len() && #[trigger] notes@[j].position == p;
                        assert(notes@[j] == note_at(self@, p));
                    }
                },
            }
        }
        best
    }

    /// Every note at `pitch` starting within `[start, end]` (inclusive) — everything a (possibly
    /// multi-tick) selection covers, for deleting more than one note at once. Notes merely
    /// overlapping into the span from before `start` are left alone; only where a note *starts*
    /// counts as being in the selection.
    pub fn positions_in_span(&self, pitch: Pitch, start: Tick, end: Tick) -> (r: Vec<Position>)
        requires
            self.wf(),
        ensures
            lists_positions(r@, self@, starting_within(pitch, start, end)),
            forall|i: int|
                0 <= i < r@.len() ==> (#[trigger] r@[i]).pitch == pitch && start.0 <= r@[i].tick.0 <= end.0
                    && self@.contains_key(r@[i]),
            forall|p: Position|
                self@.contains_key(p) && p.pitch == pitch && start.0 <= p.tick.0 <= end.0 ==> r@.contains(p),
    {
        let lower = Position { tick: start, pitch: Pitch(0) };
        let upper = Position { tick: end, pitch: Pitch(255) };
        let filter = NoteFilter::StartingWithin(pitch, start, end);
        proof {
            assert forall|p: Position|
                self@.contains_key(p) && #[trigger] filter.pred()(note_at(self@, p)) implies key(lower)
                    <= key(p) <= key(upper) by {
                lemma_key_order(lower, p);
                lemma_key_order(p, upper);
            }
        }
        let notes = self.matching_in_window(lower, upper, filter);
        let mut out: Vec<Position> = Vec::new();
        let mut i: usize = 0;
        while i < notes.len()
            invariant
                i <= notes.len(),
                out@.len() == i,
                forall|j: int| 0 <= j < i ==> #[trigger] out@[j] == notes@[j].position,
            decreases notes.len() - i,
        {
            out.push(notes[i].position);
            i = i + 1;
        }
        proof {
            let pred = starting_within(pitch, start, end);
            assert forall|p: Position| self@.contains_key(p) && pred(note_at(self@, p)) implies exists|i: int|
                0 <= i < out@.len() && #[trigger] out@[i] == p by {
                let j = choose|j: int| 0 <= j < notes@.len() && #[trigger] notes@[j].position == p;
                assert(out@[j] == p);
            }
            assert forall|i: int| 0 <= i < out@.len() implies self@.contains_key(#[trigger] out@[i])
                && pred(note_at(self@, out@[i])) by {
                assert(notes@[i] == note_at(self@, out@[i]));
            }
            assert forall|i: int| 0 <= i < out@.len() implies (#[trigger] out@[i]).pitch == pitch && start.0
                <= out@[i].tick.0 <= end.0 && self@.contains_key(out@[i]) by {
                assert(self@.contains_key(out@[i]) && pred(note_at(self@, out@[i])));
            }
            assert forall|p: Position|
                self@.contains_key(p) && p.pitch == pitch && start.0 <= p.tick.0 <= end.0 implies out@.contains(p) by {
                assert(pred(note_at(self@, p)));
                let i = choose|i: int| 0 <= i < out@.len() && #[trigger] out@[i] == p;
            }
        }
        out
    }

    /// Every note at `pitch` overlapping `[at, at + length)`.
    fn overlapping(&self, at: Position, length: Length) -> (r: Vec<Note>)
        requires
            self.wf(),
        ensures
            lists_notes(r@, self@, conflicting(at, length)),
    {
        let past: u32 = at.tick.0 as u32 + length.0 as u32;
        let last: u16 = if past == 0 { 0 } else if past - 1 > 0xffff { 0xffff } else { (past - 1) as u16 };
        // A candidate can start anywhere from `Length::MAX` ticks before `at` up to the new
        // note's last tick (any later and it starts after the new note is already over) — not
        // just at or before `at` itself, which would miss an existing note starting partway
        // through the new one.
        let (lower, upper) = window(at.tick, Tick(last));
        let filter = NoteFilter::Conflicting(at, length);
        proof {
            assert forall|p: Position|
                self@.contains_key(p) && #[trigger] filter.pred()(note_at(self@, p)) implies key(lower)
                    <= key(p) <= key(upper) by {
                lemma_key_order(lower, p);
                lemma_key_order(p, upper);
            }
        }
        self.matching_in_window(lower, upper, filter)
    }

    /// Place a note at `at`, removing (and returning) whatever same-pitch notes it overlaps —
    /// two notes of the same pitch sounding at once in one track isn't a sound, it's an
    /// undefined one; a chord is several *different* pitches, not overlapping copies of one.
    pub fn insert(&mut self, at: Position, length: Length) -> (removed: Vec<Note>)
        requires
            old(self).wf(),
        ensures
            final(self).wf(),
            lists_notes(removed@, old(self)@, conflicting(at, length)),
            final(self)@ == inserted(old(self)@, at, length),
            forall|i: int|
                0 <= i < removed@.len() ==> old(self)@.contains_key((#[trigger] removed@[i]).position)
                    && old(self)@[removed@[i].position] == removed@[i].length && removed@[i].position.pitch
                    == at.pitch && removed@[i].position.tick.0 < at.tick.0 + length.0 && at.tick.0
                    <= removed@[i].end().0,
            final(self)@.contains_key(at) && final(self)@[at] == length,
            forall|p: Position|
                p != at ==> (#[trigger] final(self)@.contains_key(p) <==> (old(self)@.contains_key(p) && !(exists|
                    i: int,
                | 0 <= i < removed@.len() && removed@[i].position == p))),
            forall|p: Position| p != at && #[trigger] final(self)@.contains_key(p) ==> final(self)@[p] == old(self)@[p],
    {
        let removed = self.overlapping(at, length);
        self.replace(&removed, at, length);
        proof {
            let pred = conflicting(at, length);
            assert forall|p: Position| old(self)@.contains_key(p) implies (pred(note_at(old(self)@, p))
                <==> exists|i: int| 0 <= i < removed@.len() && #[trigger] removed@[i].position == p) by {
                if exists|i: int| 0 <= i < removed@.len() && #[trigger] removed@[i].position == p {
                    let i = choose|i: int| 0 <= i < removed@.len() && #[trigger] removed@[i].position == p;
                    assert(removed@[i] == note_at(old(self)@, p));
                }
            }
            assert(self@ =~= inserted(old(self)@, at, length));
            assert forall|i: int| 0 <= i < removed@.len() implies old(self)@.contains_key(
                (#[trigger] removed@[i]).position,
            ) && old(self)@[removed@[i].position] == removed@[i].length && removed@[i].position.pitch == at.pitch
                && removed@[i].position.tick.0 < at.tick.0 + length.0 && at.tick.0 <= removed@[i].end().0 by {
                assert(pred(removed@[i]));
            }
        }
        removed
    }

    /// Remove every note `removed` lists, then place a note at `at` lasting `length`.
    pub(crate) fn replace(&mut self, removed: &Vec<Note>, at: Position, length: Length)
        requires
            old(self).wf(),
        ensures
            final(self).wf(),
            final(self)@ == Map::new(
                |p: Position|
                    old(self)@.contains_key(p) && !(exists|i: int|
                        0 <= i < removed@.len() && #[trigger] removed@[i].position == p),
                |p: Position| old(self)@[p],
            ).insert(at, length),
    {
        let ghost before = self.notes@;
        let mut i: usize = 0;
        while i < removed.len()
            invariant
                i <= removed.len(),
                forall|k: u32| self.notes@.contains_key(k) ==> k < key_bound(),
                forall|k: u32|
                    #[trigger] self.notes@.contains_key(k) <==> (before.contains_key(k) && forall|j: int|
                        0 <= j < i ==> k != key(#[trigger] removed@[j].position)),
                forall|k: u32| #[trigger] self.notes@.contains_key(k) ==> self.notes@[k] == before[k],
            decreases removed.len() - i,
        {
            let k = key_of(removed[i].position);
            self.notes.remove(&k);
            i = i + 1;
        }
        let k = key_of(at);
        self.notes.insert(k, length);
        proof {
            let old_view = notes_view(before);
            let target = Map::new(
                |p: Position|
                    old_view.contains_key(p) && !(exists|i: int|
                        0 <= i < removed@.len() && #[trigger] removed@[i].position == p),
                |p: Position| old_view[p],
            ).insert(at, length);
            lemma_key_roundtrip(at);
            assert forall|p: Position| #[trigger] self@.contains_key(p) <==> target.contains_key(p) by {
                lemma_key_roundtrip(p);
                lemma_key_order(p, at);
                if p != at && old_view.contains_key(p) {
                    if exists|i: int| 0 <= i < removed@.len() && #[trigger] removed@[i].position == p {
                        let j = choose|j: int| 0 <= j < removed@.len() && #[trigger] removed@[j].position == p;
                        assert(!self.notes@.contains_key(key(p) as u32));
                    } else {
                        assert forall|j: int| 0 <= j < removed@.len() implies key(p) as u32 != key(#[trigger] removed@[j].position) by {
                            lemma_key_order(p, removed@[j].position);
                        }
                    }
                }
            }
            assert forall|p: Position| #[trigger] self@.contains_key(p) implies self@[p] == target[p] by {
                lemma_key_roundtrip(p);
                lemma_key_order(p, at);
            }
            assert(self@ =~= target);
        }
    }

    /// Remove the note at `at`, if any, returning its length.
    pub fn remove(&mut self, at: Position) -> (r: Option<Length>)
        requires
            old(self).wf(),
        ensures
            final(self).wf(),
            final(self)@ == old(self)@.remove(at),
            r == (if old(self)@.contains_key(at) { Some(old(self)@[at]) } else { None::<Length> }),
    {
        let k = key_of(at);
        let r = self.notes.remove(&k);
        proof {
            lemma_key_roundtrip(at);
            assert forall|p: Position| #[trigger] self@.contains_key(p) <==> old(self)@.remove(at).contains_key(p) by {
                lemma_key_roundtrip(p);
                lemma_key_order(p, at);
            }
            assert(self@ =~= old(self)@.remove(at));
        }
        r
    }
}

/// Which notes a window scan keeps.
pub(crate) enum NoteFilter {
    Covering(Tick),
    AtPitch(Pitch),
    StartingWithin(Pitch, Tick, Tick),
    Conflicting(Position, Length),
    PatternCovering(Tick),
    PatternOverlapping(Pitch, Tick, Length),
}

impl NoteFilter {
    pub(crate) open spec fn pred(self) -> spec_fn(Note) -> bool {
        match self {
            NoteFilter::Covering(tick) => covering(tick),
            NoteFilter::AtPitch(pitch) => at_pitch(pitch),
            NoteFilter::StartingWithin(pitch, start, end) => starting_within(pitch, start, end),
            NoteFilter::Conflicting(at, length) => conflicting(at, length),
            NoteFilter::PatternCovering(tick) => pattern_covering(tick),
            NoteFilter::PatternOverlapping(pitch, at, length) => pattern_overlapping(pitch, at, length),
        }
    }

    pub(crate) fn test(&self, note: Note) -> (b: bool)
        ensures
            b == self.pred()(note),
    {
        match self {
            NoteFilter::Covering(tick) => note.covers(*tick),
            NoteFilter::AtPitch(pitch) => note.position.pitch == *pitch,
            NoteFilter::StartingWithin(pitch, start, end) => note.position.pitch == *pitch
                && start.0 <= note.position.tick.0 && note.position.tick.0 <= end.0,
            NoteFilter::Conflicting(at, length) => note.position.pitch == at.pitch
                && (note.position.tick.0 as u32) < at.tick.0 as u32 + length.0 as u32 && at.tick.0
                <= note.end().0,
            NoteFilter::PatternCovering(tick) => covers(note.position, note.length, *tick),
            NoteFilter::PatternOverlapping(pitch, at, length) => note.position.pitch == *pitch
                && (note.position.tick.0 as u32) < at.0 as u32 + length.0 as u32 && (at.0 as u32)
                < note.position.tick.0 as u32 + note.length.0 as u32,
        }
    }
}

} // verus!
