//! Audio-relevant state, and its own action type — replicated onto the audio thread by applying
//! the same actions there, rather than by sharing memory or sending snapshots.

use nonempty::NonEmpty;
use vstd::prelude::*;

use crate::time::{Length, Tick};
use crate::track::{
    conflicting, fits, inserted, lemma_conflicting_is_overlap, lemma_inserted_tidy, lists_notes,
    note_at, position_lt, tidy, Note, Position, Track,
};
use crate::transport::{PlaybackIntent, Transport};

verus! {

/// The tracks a non-empty list of tracks holds, first to last.
pub uninterp spec fn track_items(tracks: NonEmpty<Track>) -> Seq<Track>;

/// `NonEmpty::new`: a list holding just `track`.
#[verifier::external_body]
fn tracks_single(track: Track) -> (tracks: NonEmpty<Track>)
    ensures
        track_items(tracks) == seq![track],
{
    NonEmpty::new(track)
}

/// `NonEmpty`'s `Index`: the track at `index`, which panics past the end.
#[verifier::external_body]
fn tracks_get(tracks: &NonEmpty<Track>, index: usize) -> (track: &Track)
    requires
        index < track_items(*tracks).len(),
    ensures
        *track == track_items(*tracks)[index as int],
{
    &tracks[index]
}

/// `NonEmpty`'s `IndexMut`: the track at `index`, to change in place; panics past the end.
#[verifier::external_body]
fn tracks_get_mut(tracks: &mut NonEmpty<Track>, index: usize) -> (track: &mut Track)
    requires
        index < track_items(*old(tracks)).len(),
    ensures
        *track == track_items(*old(tracks))[index as int],
        track_items(*final(tracks)) == track_items(*old(tracks)).update(index as int, *final(track)),
{
    &mut tracks[index]
}

/// `NonEmpty::len`: how many tracks the list holds — at least one, its head.
#[verifier::external_body]
pub(crate) fn tracks_len(tracks: &NonEmpty<Track>) -> (n: usize)
    ensures
        n == track_items(*tracks).len(),
        n >= 1,
{
    tracks.len()
}

/// `NonEmpty::push`: append `track` at the end.
#[verifier::external_body]
fn tracks_push(tracks: &mut NonEmpty<Track>, track: Track)
    ensures
        track_items(*final(tracks)) == track_items(*old(tracks)).push(track),
{
    tracks.push(track);
}

/// Which track, among a [`Playback`]'s tracks.
#[derive(Debug, Clone, Copy, PartialEq, Eq, Structural, PartialOrd, Ord, Hash)]
pub struct TrackId(pub u8);

/// Everything the audio thread needs to play.
///
/// One or more tracks (always at least one), all sharing one transport: starting playback
/// starts every track at once, since transport applies to the whole `Playback`, not per track.
#[derive(Debug)]
pub struct Playback {
    /// The tracks being played, together.
    pub tracks: NonEmpty<Track>,
    /// The shared transport.
    pub transport: Transport,
}

/// An action that changes [`Playback`]'s state.
#[derive(Debug, PartialEq, Eq)]
pub enum PlaybackAction {
    /// Place a note, replacing whatever same-pitch notes it overlaps.
    InsertNote {
        /// Which track.
        track: TrackId,
        /// Where and at what pitch.
        at: Position,
        /// How long it lasts.
        length: Length,
    },
    /// Remove the note at a position, if any.
    RemoveNote {
        /// Which track.
        track: TrackId,
        /// Where to remove from.
        at: Position,
    },
    /// Start or pause the transport.
    SetPlaybackIntent(PlaybackIntent),
    /// Move the transport's position.
    Seek(Tick),
    /// Apply several actions in order, as one. Never empty: [`PlaybackAction::batch`] builds
    /// one only from two or more actions, and only a non-empty one is valid to apply (see
    /// [`valid_action`]).
    Batch(Vec<PlaybackAction>),
}

/// The notes of each track, in track order.
pub type TracksModel = Seq<Map<Position, Length>>;

/// What applying `a` leaves the tracks as.
pub open spec fn apply_tracks(ts: TracksModel, a: PlaybackAction) -> TracksModel
    decreases a,
{
    match a {
        PlaybackAction::InsertNote { track, at, length } => {
            if (track.0 as int) < ts.len() {
                ts.update(track.0 as int, inserted(ts[track.0 as int], at, length))
            } else {
                ts
            }
        },
        PlaybackAction::RemoveNote { track, at } => {
            if (track.0 as int) < ts.len() {
                ts.update(track.0 as int, ts[track.0 as int].remove(at))
            } else {
                ts
            }
        },
        PlaybackAction::SetPlaybackIntent(_) => ts,
        PlaybackAction::Seek(_) => ts,
        PlaybackAction::Batch(v) => apply_seq_tracks(ts, v@),
    }
}

/// What applying every action of `s`, in order, leaves the tracks as.
pub open spec fn apply_seq_tracks(ts: TracksModel, s: Seq<PlaybackAction>) -> TracksModel
    decreases s,
{
    if s.len() == 0 {
        ts
    } else {
        apply_tracks(apply_seq_tracks(ts, s.drop_last()), s.last())
    }
}

/// What applying `a` leaves the transport as.
pub open spec fn apply_transport(t: Transport, a: PlaybackAction) -> Transport
    decreases a,
{
    match a {
        PlaybackAction::SetPlaybackIntent(intent) => Transport { intent, position: t.position },
        PlaybackAction::Seek(tick) => Transport { intent: t.intent, position: tick },
        PlaybackAction::Batch(v) => apply_seq_transport(t, v@),
        _ => t,
    }
}

/// What applying every action of `s`, in order, leaves the transport as.
pub open spec fn apply_seq_transport(t: Transport, s: Seq<PlaybackAction>) -> Transport
    decreases s,
{
    if s.len() == 0 {
        t
    } else {
        apply_transport(apply_seq_transport(t, s.drop_last()), s.last())
    }
}

/// Every track `a` names is one of the first `n`, and every batch in it holds at least one
/// action.
pub open spec fn valid_action(n: nat, a: PlaybackAction) -> bool
    decreases a,
{
    match a {
        PlaybackAction::InsertNote { track, .. } => (track.0 as int) < n,
        PlaybackAction::RemoveNote { track, .. } => (track.0 as int) < n,
        PlaybackAction::Batch(v) => v@.len() > 0 && valid_actions(n, v@),
        _ => true,
    }
}

/// Every action of `s` is valid for `n` tracks — see [`valid_action`].
pub open spec fn valid_actions(n: nat, s: Seq<PlaybackAction>) -> bool
    decreases s,
{
    if s.len() == 0 {
        true
    } else {
        valid_actions(n, s.drop_last()) && valid_action(n, s.last())
    }
}

/// `inv` is what a list of actions collapses to as one: nothing for none, the action itself for
/// one, a batch of all of them otherwise.
pub open spec fn collapsed(inv: Option<PlaybackAction>, s: Seq<PlaybackAction>) -> bool {
    if s.len() == 0 {
        inv is None
    } else if s.len() == 1 {
        inv == Some(s[0])
    } else {
        inv matches Some(PlaybackAction::Batch(v)) && v@ == s
    }
}

/// The actions putting each of `ns` back on `track`.
pub open spec fn inserts_for(track: TrackId, ns: Seq<Note>) -> Seq<PlaybackAction> {
    ns.map_values(|n: Note| PlaybackAction::InsertNote { track, at: n.position, length: n.length })
}

/// `inv` is the inverse [`Playback::apply`] reports for `a` applied to tracks `ts`.
pub open spec fn inverse_matches(inv: Option<PlaybackAction>, ts: TracksModel, a: PlaybackAction) -> bool
    decreases a,
{
    match a {
        PlaybackAction::InsertNote { track, at, length } => exists|ns: Seq<Note>|
            lists_notes(ns, ts[track.0 as int], conflicting(at, length)) && collapsed(
                inv,
                seq![PlaybackAction::RemoveNote { track, at }] + inserts_for(track, ns),
            ),
        PlaybackAction::RemoveNote { track, at } => inv == (if ts[track.0 as int].contains_key(at) {
            Some(PlaybackAction::InsertNote { track, at, length: ts[track.0 as int][at] })
        } else {
            None
        }),
        PlaybackAction::SetPlaybackIntent(_) => inv is None,
        PlaybackAction::Seek(_) => inv is None,
        PlaybackAction::Batch(v) => (inv is None && batch_inverses(Seq::empty(), ts, v@)) || (
        inv matches Some(PlaybackAction::Batch(w)) && w@.len() > 0 && batch_inverses(
            w@.reverse(),
            ts,
            v@,
        )),
    }
}

/// `w` lists, in application order, the inverses reported while applying each action of `s` in
/// turn to tracks `ts`, skipping the actions that reported none.
pub open spec fn batch_inverses(w: Seq<PlaybackAction>, ts: TracksModel, s: Seq<PlaybackAction>) -> bool
    decreases s,
{
    if s.len() == 0 {
        w.len() == 0
    } else {
        let before = apply_seq_tracks(ts, s.drop_last());
        (inverse_matches(None, before, s.last()) && batch_inverses(w, ts, s.drop_last())) || (w.len()
            > 0 && inverse_matches(Some(w.last()), before, s.last()) && batch_inverses(
            w.drop_last(),
            ts,
            s.drop_last(),
        ))
    }
}

/// `a` and `b` are the same action: equal, or batches of the same actions in the same order.
pub open spec fn same_action(a: PlaybackAction, b: PlaybackAction) -> bool
    decreases a,
{
    match a {
        PlaybackAction::Batch(v) => b matches PlaybackAction::Batch(w) && w@.len() == v@.len() && forall|i: int|
            0 <= i < v@.len() ==> same_action(#[trigger] v@[i], w@[i]),
        _ => a == b,
    }
}

impl Clone for PlaybackAction {
    /// The same action, batches copied element by element.
    fn clone(&self) -> (r: PlaybackAction)
        ensures
            same_action(*self, r),
        decreases self,
    {
        match self {
            PlaybackAction::InsertNote { track, at, length } => PlaybackAction::InsertNote {
                track: *track,
                at: *at,
                length: *length,
            },
            PlaybackAction::RemoveNote { track, at } => PlaybackAction::RemoveNote { track: *track, at: *at },
            PlaybackAction::SetPlaybackIntent(intent) => PlaybackAction::SetPlaybackIntent(*intent),
            PlaybackAction::Seek(tick) => PlaybackAction::Seek(*tick),
            PlaybackAction::Batch(actions) => {
                let mut copies: Vec<PlaybackAction> = Vec::new();
                let mut i: usize = 0;
                while i < actions.len()
                    invariant
                        *self == PlaybackAction::Batch(*actions),
                        i <= actions.len(),
                        copies@.len() == i,
                        forall|j: int| 0 <= j < i ==> same_action(#[trigger] actions@[j], copies@[j]),
                    decreases actions.len() - i,
                {
                    proof {
                        assert(decreases_to!(*actions => actions[i as int]));
                        assert(*self == PlaybackAction::Batch(*actions));
                        assert(decreases_to!(*self => (*self)->Batch_0));
                    }
                    let copy = actions[i].clone();
                    copies.push(copy);
                    i = i + 1;
                }
                PlaybackAction::Batch(copies)
            },
        }
    }
}

impl PlaybackAction {
    /// Combine several actions into one atomic batch — how a multi-cursor edit is built, one
    /// action per range in the selection. `None` for an empty input: there's nothing to batch.
    /// A single action is handed back unwrapped rather than boxed in a one-element batch — the
    /// overwhelmingly common case (one cursor) shouldn't pay for generality it isn't using.
    pub fn batch(actions: Vec<PlaybackAction>) -> (r: Option<PlaybackAction>)
        ensures
            collapsed(r, actions@),
    {
        if actions.len() == 0 {
            None
        } else if actions.len() == 1 {
            let mut actions = actions;
            actions.pop()
        } else {
            Some(PlaybackAction::Batch(actions))
        }
    }
}

impl PlaybackAction {
    /// Whether every track this action names is one of the first `count`, and no batch in it is
    /// empty — whether a playback with that many tracks can apply it.
    pub fn names_tracks_below(&self, count: usize) -> (b: bool)
        ensures
            b == valid_action(count as nat, *self),
        decreases self,
    {
        match self {
            PlaybackAction::InsertNote { track, .. } => (track.0 as usize) < count,
            PlaybackAction::RemoveNote { track, .. } => (track.0 as usize) < count,
            PlaybackAction::Batch(actions) => {
                if actions.len() == 0 {
                    return false;
                }
                let mut i: usize = 0;
                while i < actions.len()
                    invariant
                        *self == PlaybackAction::Batch(*actions),
                        i <= actions.len(),
                        forall|k: int| 0 <= k < i ==> valid_action(count as nat, #[trigger] actions@[k]),
                    decreases actions.len() - i,
                {
                    proof {
                        assert(decreases_to!(*actions => actions[i as int]));
                        assert(decreases_to!(*self => (*self)->Batch_0));
                    }
                    if !actions[i].names_tracks_below(count) {
                        proof {
                            lemma_valid_actions_all(count as nat, actions@);
                        }
                        return false;
                    }
                    i = i + 1;
                }
                proof {
                    lemma_valid_actions_all(count as nat, actions@);
                }
                true
            },
            _ => true,
        }
    }
}

impl Playback {
    /// How many tracks this playback has.
    pub fn track_count(&self) -> (n: usize)
        ensures
            n == track_items(self.tracks).len(),
    {
        tracks_len(&self.tracks)
    }

    /// Whether this playback can apply `action`: every track it names exists, and no batch in it
    /// is empty.
    pub fn accepts(&self, action: &PlaybackAction) -> (b: bool)
        ensures
            b == valid_action(track_items(self.tracks).len(), *action),
    {
        action.names_tracks_below(tracks_len(&self.tracks))
    }

    /// Every track is well formed.
    pub open spec fn wf(&self) -> bool {
        forall|i: int| 0 <= i < track_items(self.tracks).len() ==> #[trigger] track_items(self.tracks)[i].wf()
    }

    /// The notes of every track, in track order.
    pub open spec fn tracks_view(&self) -> TracksModel {
        track_items(self.tracks).map_values(|t: Track| t@)
    }

    /// One empty track, not playing.
    pub fn new() -> (p: Playback)
        ensures
            p.wf(),
            p.tracks_view() == seq![Map::<Position, Length>::empty()],
            p.transport == (Transport { intent: PlaybackIntent::Paused, position: Tick(0) }),
    {
        let p = Playback { tracks: tracks_single(Track::new()), transport: Transport::default() };
        assert(p.tracks_view() =~= seq![Map::<Position, Length>::empty()]);
        p
    }

    /// The track at `id`.
    pub fn track(&self, id: TrackId) -> (t: &Track)
        requires
            (id.0 as int) < track_items(self.tracks).len(),
        ensures
            *t == track_items(self.tracks)[id.0 as int],
    {
        tracks_get(&self.tracks, id.0 as usize)
    }

    /// Apply one action, returning its inverse if it's undoable.
    ///
    /// `None` covers two different but related cases: the action isn't undoable at all (the
    /// transport controls — undoing "pressed play" doesn't rewind anything), or it was undoable
    /// in principle but had nothing to undo (removing a note that wasn't there).
    pub fn apply(&mut self, action: &PlaybackAction) -> (inv: Option<PlaybackAction>)
        requires
            old(self).wf(),
            valid_action(track_items(old(self).tracks).len(), *action),
        ensures
            final(self).wf(),
            track_items(final(self).tracks).len() == track_items(old(self).tracks).len(),
            final(self).tracks_view() == apply_tracks(old(self).tracks_view(), *action),
            final(self).transport == apply_transport(old(self).transport, *action),
            inverse_matches(inv, old(self).tracks_view(), *action),
        decreases action,
    {
        match action {
            PlaybackAction::InsertNote { track, at, length } => {
                let ghost before = self.tracks_view();
                let target = tracks_get_mut(&mut self.tracks, track.0 as usize);
                let removed = target.insert(*at, *length);
                // Undoing takes the new note away first, then puts back what it displaced — in
                // that order, so a displaced note that started where the new one does comes back
                // instead of being removed along with it.
                let mut inverses: Vec<PlaybackAction> = Vec::new();
                inverses.push(PlaybackAction::RemoveNote { track: *track, at: *at });
                let ghost first = seq![PlaybackAction::RemoveNote { track: *track, at: *at }];
                let mut i: usize = 0;
                while i < removed.len()
                    invariant
                        i <= removed.len(),
                        first == seq![PlaybackAction::RemoveNote { track: *track, at: *at }],
                        inverses@ == first + inserts_for(*track, removed@.take(i as int)),
                    decreases removed.len() - i,
                {
                    inverses.push(
                        PlaybackAction::InsertNote {
                            track: *track,
                            at: removed[i].position,
                            length: removed[i].length,
                        },
                    );
                    i = i + 1;
                    proof {
                        assert(inverses@ =~= first + inserts_for(*track, removed@.take(i as int)));
                    }
                }
                proof {
                    assert(removed@.take(removed@.len() as int) =~= removed@);
                    assert(self.wf()) by {
                        assert forall|j: int| 0 <= j < track_items(self.tracks).len() implies #[trigger] track_items(self.tracks)[j].wf() by {
                            if j != track.0 as int {
                                assert(track_items(self.tracks)[j] == track_items(old(self).tracks)[j]);
                            }
                        }
                    }
                    assert(self.tracks_view() =~= apply_tracks(before, *action));
                }
                let inv = PlaybackAction::batch(inverses);
                proof {
                    assert(before[track.0 as int] == track_items(old(self).tracks)[track.0 as int]@);
                    assert(lists_notes(removed@, before[track.0 as int], conflicting(*at, *length))
                        && collapsed(inv, seq![PlaybackAction::RemoveNote { track: *track, at: *at }] + inserts_for(*track, removed@)));
                    assert(inverse_matches(inv, before, *action));
                }
                inv
            },
            PlaybackAction::RemoveNote { track, at } => {
                let ghost before = self.tracks_view();
                let target = tracks_get_mut(&mut self.tracks, track.0 as usize);
                let removed = target.remove(*at);
                proof {
                    assert(before[track.0 as int] == track_items(old(self).tracks)[track.0 as int]@);
                    assert(self.wf()) by {
                        assert forall|j: int| 0 <= j < track_items(self.tracks).len() implies #[trigger] track_items(self.tracks)[j].wf() by {
                            if j != track.0 as int {
                                assert(track_items(self.tracks)[j] == track_items(old(self).tracks)[j]);
                            }
                        }
                    }
                    assert(self.tracks_view() =~= apply_tracks(before, *action));
                }
                let inv = match removed {
                    Some(length) => Some(PlaybackAction::InsertNote { track: *track, at: *at, length }),
                    None => None,
                };
                proof {
                    assert(inverse_matches(inv, before, *action));
                }
                inv
            },
            PlaybackAction::SetPlaybackIntent(intent) => {
                self.transport.intent = *intent;
                None
            },
            PlaybackAction::Seek(tick) => {
                self.transport.position = *tick;
                None
            },
            PlaybackAction::Batch(batch) => {
                // Revert whatever was undoable and skip what wasn't, rather than making the whole
                // batch non-undoable because one piece of it isn't — a batch mixing a transport
                // change with real edits shouldn't silently swallow undo for the edits too.
                let ghost ts = self.tracks_view();
                let ghost t0 = self.transport;
                let mut inverses: Vec<PlaybackAction> = Vec::new();
                let mut i: usize = 0;
                while i < batch.len()
                    invariant
                        *action == PlaybackAction::Batch(*batch),
                        i <= batch.len(),
                        self.wf(),
                        track_items(self.tracks).len() == track_items(old(self).tracks).len(),
                        valid_actions(track_items(old(self).tracks).len(), batch@),
                        self.tracks_view() == apply_seq_tracks(ts, batch@.take(i as int)),
                        self.transport == apply_seq_transport(t0, batch@.take(i as int)),
                        batch_inverses(inverses@, ts, batch@.take(i as int)),
                    decreases batch.len() - i,
                {
                    proof {
                        assert(batch@.take(i + 1).drop_last() =~= batch@.take(i as int));
                        lemma_valid_actions_index(track_items(old(self).tracks).len(), batch@, i as int);
                    }
                    proof {
                        assert(decreases_to!(*batch => batch[i as int]));
                        assert(*action == PlaybackAction::Batch(*batch));
                        assert(decreases_to!(*action => (*action)->Batch_0));
                    }
                    let inv = self.apply(&batch[i]);
                    let ghost prior = inverses@;
                    match inv {
                        Some(x) => {
                            inverses.push(x);
                            proof {
                                assert(inverses@.drop_last() =~= prior);
                            }
                        },
                        None => {},
                    }
                    i = i + 1;
                }
                proof {
                    assert(batch@.take(batch@.len() as int) =~= batch@);
                }
                let ghost forward = inverses@;
                let mut reversed: Vec<PlaybackAction> = Vec::new();
                while inverses.len() > 0
                    invariant
                        inverses@ == forward.subrange(0, inverses@.len() as int),
                        reversed@ == forward.subrange(inverses@.len() as int, forward.len() as int).reverse(),
                        inverses@.len() <= forward.len(),
                    decreases inverses.len(),
                {
                    let ghost before_pop = inverses@;
                    match inverses.pop() {
                        Some(x) => {
                            reversed.push(x);
                            proof {
                                assert(forward.subrange(inverses@.len() as int, forward.len() as int)
                                    =~= seq![x] + forward.subrange(before_pop.len() as int, forward.len() as int));
                                assert(reversed@ =~= forward.subrange(inverses@.len() as int, forward.len() as int).reverse());
                                assert(inverses@ =~= forward.subrange(0, inverses@.len() as int));
                            }
                        },
                        None => {},
                    }
                }
                if reversed.len() == 0 {
                    proof {
                        assert(forward =~= forward.subrange(0, forward.len() as int));
                        assert(forward.len() == 0);
                        assert(forward =~= Seq::<PlaybackAction>::empty());
                        assert(inverse_matches(None, ts, *action));
                    }
                    None
                } else {
                    proof {
                        assert(forward.subrange(0, forward.len() as int) =~= forward);
                        assert(reversed@.reverse() =~= forward);
                    }
                    let inv = Some(PlaybackAction::Batch(reversed));
                    proof {
                        assert(inverse_matches(inv, ts, *action));
                    }
                    inv
                }
            },
        }
    }
}


/// Every track is tidy: every note fits, and no two same-pitch notes sound at once.
pub open spec fn all_tidy(ts: TracksModel) -> bool {
    forall|i: int| 0 <= i < ts.len() ==> tidy(#[trigger] ts[i])
}

/// `a` names only existing tracks, and every note it places fits.
pub open spec fn undoable(ts: TracksModel, a: PlaybackAction) -> bool
    decreases a,
{
    match a {
        PlaybackAction::InsertNote { track, at, length } => (track.0 as int) < ts.len() && fits(
            Note { position: at, length },
        ),
        PlaybackAction::RemoveNote { track, .. } => (track.0 as int) < ts.len(),
        PlaybackAction::Batch(v) => undoable_seq(ts, v@),
        _ => true,
    }
}

/// Every action of `s`, applied in turn from `ts`, is undoable where it is applied.
pub open spec fn undoable_seq(ts: TracksModel, s: Seq<PlaybackAction>) -> bool
    decreases s,
{
    if s.len() == 0 {
        true
    } else {
        undoable_seq(ts, s.drop_last()) && undoable(apply_seq_tracks(ts, s.drop_last()), s.last())
    }
}

/// Applying `x` first, then `rest`, is applying `seq![x] + rest`.
pub proof fn lemma_apply_seq_prepend(ts: TracksModel, x: PlaybackAction, rest: Seq<PlaybackAction>)
    ensures
        apply_seq_tracks(ts, seq![x] + rest) == apply_seq_tracks(apply_tracks(ts, x), rest),
        undoable(ts, x) && undoable_seq(apply_tracks(ts, x), rest) ==> undoable_seq(ts, seq![x] + rest),
    decreases rest.len(),
{
    if rest.len() == 0 {
        assert(seq![x] + rest =~= seq![x]);
        assert(seq![x].drop_last() =~= Seq::<PlaybackAction>::empty());
        assert(apply_seq_tracks(ts, Seq::<PlaybackAction>::empty()) == ts);
        assert(apply_seq_tracks(ts, seq![x]) == apply_tracks(apply_seq_tracks(ts, seq![x].drop_last()), seq![x].last()));
        assert(apply_seq_tracks(ts, seq![x]) == apply_tracks(ts, x));
        assert(undoable_seq(ts, seq![x]) == (undoable_seq(ts, Seq::<PlaybackAction>::empty()) && undoable(
            ts,
            x,
        )));
    } else {
        lemma_apply_seq_prepend(ts, x, rest.drop_last());
        let whole = seq![x] + rest;
        assert(whole.drop_last() =~= seq![x] + rest.drop_last());
        assert(whole.last() == rest.last());
        assert(apply_seq_tracks(ts, whole) == apply_tracks(apply_seq_tracks(ts, whole.drop_last()), whole.last()));
        assert(undoable_seq(ts, whole) == (undoable_seq(ts, whole.drop_last()) && undoable(
            apply_seq_tracks(ts, whole.drop_last()),
            whole.last(),
        )));
        assert(undoable_seq(apply_tracks(ts, x), rest) == (undoable_seq(apply_tracks(ts, x), rest.drop_last())
            && undoable(apply_seq_tracks(apply_tracks(ts, x), rest.drop_last()), rest.last())));
    }
}

/// The notes of `m` other than those starting where a note of `ns` from index `k` on starts.
pub open spec fn rest_of(m: Map<Position, Length>, ns: Seq<Note>, k: int) -> Map<Position, Length> {
    Map::new(
        |p: Position| m.contains_key(p) && forall|j: int| k <= j < ns.len() ==> #[trigger] ns[j].position != p,
        |p: Position| m[p],
    )
}

/// Putting back, in order, the notes a placed note displaced, once the placed note is gone,
/// rebuilds the track one note at a time: after the first `k`, the track holds every note but
/// the ones still to come — and each of them is undoable where it is put back.
proof fn lemma_reinsert(ts: TracksModel, track: TrackId, ns: Seq<Note>, pred: spec_fn(Note) -> bool, k: int)
    requires
        (track.0 as int) < ts.len(),
        tidy(ts[track.0 as int]),
        lists_notes(ns, ts[track.0 as int], pred),
        0 <= k <= ns.len(),
    ensures
        apply_seq_tracks(
            ts.update(track.0 as int, rest_of(ts[track.0 as int], ns, 0)),
            inserts_for(track, ns).take(k),
        ) == ts.update(track.0 as int, rest_of(ts[track.0 as int], ns, k)),
        undoable_seq(
            ts.update(track.0 as int, rest_of(ts[track.0 as int], ns, 0)),
            inserts_for(track, ns).take(k),
        ),
    decreases k,
{
    let t = track.0 as int;
    let m = ts[t];
    let base = ts.update(t, rest_of(m, ns, 0));
    let ins = inserts_for(track, ns);
    if k == 0 {
        assert(ins.take(0) =~= Seq::<PlaybackAction>::empty());
        return;
    }
    lemma_reinsert(ts, track, ns, pred, k - 1);
    assert(ins.take(k).drop_last() =~= ins.take(k - 1));
    assert(ins.take(k).last() == ins[k - 1]);
    let n = ns[k - 1];
    assert(m.contains_key(n.position) && m[n.position] == n.length);
    assert(n == note_at(m, n.position));
    assert(fits(n));
    let before = ts.update(t, rest_of(m, ns, k - 1));
    let cur = before[t];
    assert(!cur.contains_key(n.position));
    let target = rest_of(m, ns, k);
    assert forall|p: Position| #[trigger] inserted(cur, n.position, n.length).contains_key(p) <==> target.contains_key(p) by {
        if p == n.position {
            assert forall|j: int| k <= j < ns.len() implies #[trigger] ns[j].position != p by {
                assert(position_lt(ns[k - 1].position, ns[j].position));
            }
        } else if cur.contains_key(p) {
            assert(m.contains_key(p));
            assert(note_at(cur, p) == note_at(m, p));
            lemma_conflicting_is_overlap(n, note_at(m, p));
            assert(!conflicting(n.position, n.length)(note_at(cur, p)));
        } else if target.contains_key(p) {
            assert(exists|j: int| k - 1 <= j < ns.len() && #[trigger] ns[j].position == p);
            let j = choose|j: int| k - 1 <= j < ns.len() && #[trigger] ns[j].position == p;
            assert(j == k - 1);
        }
    }
    assert forall|p: Position| #[trigger] inserted(cur, n.position, n.length).contains_key(p) implies inserted(cur, n.position, n.length)[p] == target[p] by {
        if p != n.position {
            assert(cur[p] == m[p]);
        }
    }
    assert(inserted(cur, n.position, n.length) =~= target);
    assert(ins[k - 1] == PlaybackAction::InsertNote { track, at: n.position, length: n.length });
    assert(before.update(t, target) =~= ts.update(t, target));
    assert(apply_seq_tracks(base, ins.take(k)) == apply_tracks(
        apply_seq_tracks(base, ins.take(k).drop_last()),
        ins.take(k).last(),
    ));
    assert(apply_tracks(before, ins[k - 1]) == before.update(t, inserted(cur, n.position, n.length)));
    assert(undoable_seq(base, ins.take(k)) == (undoable_seq(base, ins.take(k).drop_last()) && undoable(
        apply_seq_tracks(base, ins.take(k).drop_last()),
        ins.take(k).last(),
    )));
    assert(undoable(before, ins[k - 1]));
}

/// Undo restores: applying an action and then the inverse [`Playback::apply`] reported for it
/// puts every track's notes back as they were; an action reporting no inverse changed no notes;
/// and the inverse is itself undoable, so redo restores the edit in turn. This holds whenever
/// every track is tidy and the action is undoable where it is applied.
pub proof fn lemma_undo(ts: TracksModel, a: PlaybackAction, inv: Option<PlaybackAction>)
    requires
        all_tidy(ts),
        undoable(ts, a),
        inverse_matches(inv, ts, a),
    ensures
        all_tidy(apply_tracks(ts, a)),
        apply_tracks(ts, a).len() == ts.len(),
        inv is None ==> apply_tracks(ts, a) == ts,
        inv matches Some(x) ==> undoable(apply_tracks(ts, a), x) && apply_tracks(apply_tracks(ts, a), x)
            == ts,
    decreases a,
{
    match a {
        PlaybackAction::InsertNote { track, at, length } => {
            let t = track.0 as int;
            let m = ts[t];
            let pred = conflicting(at, length);
            let ns = choose|ns: Seq<Note>|
                lists_notes(ns, ts[track.0 as int], conflicting(at, length)) && collapsed(
                    inv,
                    seq![PlaybackAction::RemoveNote { track, at }] + inserts_for(track, ns),
                );
            let after = apply_tracks(ts, a);
            assert(after == ts.update(t, inserted(m, at, length)));
            lemma_inserted_tidy(m, at, length);
            assert(all_tidy(after));
            let remove = PlaybackAction::RemoveNote { track, at };
            let ins = inserts_for(track, ns);
            let ex = seq![remove] + ins;
            // Taking the new note away leaves exactly the notes it did not displace.
            let rest0 = rest_of(m, ns, 0);
            assert(inserted(m, at, length).remove(at) =~= rest0) by {
                assert forall|p: Position| m.contains_key(p) implies (pred(note_at(m, p)) <==> exists|j: int|
                    0 <= j < ns.len() && #[trigger] ns[j].position == p) by {
                    if exists|j: int| 0 <= j < ns.len() && #[trigger] ns[j].position == p {
                        let j = choose|j: int| 0 <= j < ns.len() && #[trigger] ns[j].position == p;
                        assert(ns[j] == note_at(m, p));
                    }
                }
                if m.contains_key(at) {
                    assert(fits(note_at(m, at)));
                    assert(pred(note_at(m, at)));
                }
            }
            let cleared = apply_tracks(after, remove);
            assert(cleared =~= ts.update(t, rest0));
            lemma_reinsert(ts, track, ns, pred, ns.len() as int);
            assert(ins.take(ns.len() as int) =~= ins);
            assert(rest_of(m, ns, ns.len() as int) =~= m);
            assert(ts.update(t, m) =~= ts);
            assert(apply_seq_tracks(cleared, ins) == ts);
            lemma_apply_seq_prepend(after, remove, ins);
            assert(apply_seq_tracks(after, ex) == ts);
            assert(undoable_seq(after, ex));
            if ns.len() == 0 {
                assert(ex =~= seq![remove]);
                assert(inv == Some(remove));
                assert(ins =~= Seq::<PlaybackAction>::empty());
                assert(apply_seq_tracks(cleared, ins) == cleared);
            }
        },
        PlaybackAction::RemoveNote { track, at } => {
            let t = track.0 as int;
            let m = ts[t];
            let after = apply_tracks(ts, a);
            assert(after == ts.update(t, m.remove(at)));
            assert(all_tidy(after)) by {
                assert forall|i: int| 0 <= i < after.len() implies tidy(#[trigger] after[i]) by {
                    if i != t {
                        assert(after[i] == ts[i]);
                    } else {
                        assert(tidy(ts[i]));
                        crate::track::lemma_removed_tidy(m, at);
                    }
                }
            }
            if m.contains_key(at) {
                let n = note_at(m, at);
                assert(fits(n));
                let r = m.remove(at);
                assert(inserted(r, at, m[at]) =~= m) by {
                    assert forall|p: Position| r.contains_key(p) implies !conflicting(at, m[at])(note_at(r, p)) by {
                        assert(note_at(r, p) == note_at(m, p));
                        lemma_conflicting_is_overlap(n, note_at(m, p));
                    }
                }
                assert(apply_tracks(after, inv.unwrap()) =~= ts);
            } else {
                assert(m.remove(at) =~= m);
                assert(after =~= ts);
            }
        },
        PlaybackAction::SetPlaybackIntent(_) => {},
        PlaybackAction::Seek(_) => {},
        PlaybackAction::Batch(v) => {
            let s = v@;
            assert(decreases_to!(a => v));
            if inv is None {
                assert(batch_inverses(Seq::empty(), ts, s));
                lemma_batch(ts, s, Seq::empty());
            } else {
                let w = inv->0->Batch_0;
                assert(batch_inverses(w@.reverse(), ts, s));
                lemma_batch(ts, s, w@.reverse());
                assert(w@.reverse().reverse() =~= w@);
            }
        },
    }
}

/// Undo restores for a batch: applying the inverses a batch reported, last first, puts every
/// track's notes back as they were before the batch.
proof fn lemma_batch(ts: TracksModel, s: Seq<PlaybackAction>, w: Seq<PlaybackAction>)
    requires
        all_tidy(ts),
        undoable_seq(ts, s),
        batch_inverses(w, ts, s),
    ensures
        all_tidy(apply_seq_tracks(ts, s)),
        apply_seq_tracks(ts, s).len() == ts.len(),
        w.len() == 0 ==> apply_seq_tracks(ts, s) == ts,
        undoable_seq(apply_seq_tracks(ts, s), w.reverse()),
        apply_seq_tracks(apply_seq_tracks(ts, s), w.reverse()) == ts,
    decreases s,
{
    if s.len() == 0 {
        assert(w.reverse() =~= Seq::<PlaybackAction>::empty());
    } else {
        let rest = s.drop_last();
        let last = s.last();
        let mid = apply_seq_tracks(ts, rest);
        assert(decreases_to!(s => s[s.len() - 1]));
        if inverse_matches(None, mid, last) && batch_inverses(w, ts, rest) {
            lemma_batch(ts, rest, w);
            lemma_undo(mid, last, None);
        } else {
            let x = w.last();
            let w0 = w.drop_last();
            lemma_batch(ts, rest, w0);
            lemma_undo(mid, last, Some(x));
            assert(w.reverse() =~= seq![x] + w0.reverse());
            lemma_apply_seq_prepend(apply_seq_tracks(ts, s), x, w0.reverse());
        }
    }
}

/// A sequence of actions is valid exactly when each of its actions is.
pub proof fn lemma_valid_actions_all(n: nat, s: Seq<PlaybackAction>)
    ensures
        valid_actions(n, s) <==> forall|i: int| 0 <= i < s.len() ==> valid_action(n, #[trigger] s[i]),
    decreases s.len(),
{
    if s.len() > 0 {
        lemma_valid_actions_all(n, s.drop_last());
        if forall|i: int| 0 <= i < s.len() ==> valid_action(n, #[trigger] s[i]) {
            assert forall|i: int| 0 <= i < s.drop_last().len() implies valid_action(n, #[trigger] s.drop_last()[i]) by {
                assert(s.drop_last()[i] == s[i]);
            }
        }
        if valid_actions(n, s) {
            assert forall|i: int| 0 <= i < s.len() implies valid_action(n, #[trigger] s[i]) by {
                if i < s.len() - 1 {
                    assert(s.drop_last()[i] == s[i]);
                }
            }
        }
    }
}

/// Applying an action never changes how many tracks there are.
pub proof fn lemma_apply_len(ts: TracksModel, a: PlaybackAction)
    ensures
        apply_tracks(ts, a).len() == ts.len(),
    decreases a,
{
    if let PlaybackAction::Batch(v) = a {
        assert(decreases_to!(a => v));
        lemma_apply_seq_len(ts, v@);
    }
}

/// Applying a sequence of actions never changes how many tracks there are.
pub proof fn lemma_apply_seq_len(ts: TracksModel, s: Seq<PlaybackAction>)
    ensures
        apply_seq_tracks(ts, s).len() == ts.len(),
    decreases s,
{
    if s.len() > 0 {
        assert(decreases_to!(s => s[s.len() - 1]));
        lemma_apply_seq_len(ts, s.drop_last());
        lemma_apply_len(apply_seq_tracks(ts, s.drop_last()), s.last());
    }
}

/// The inverse reported for an action naming only existing tracks names only existing tracks.
pub proof fn lemma_inverse_valid(inv: Option<PlaybackAction>, ts: TracksModel, a: PlaybackAction)
    requires
        valid_action(ts.len(), a),
        inverse_matches(inv, ts, a),
    ensures
        inv matches Some(x) ==> valid_action(ts.len(), x),
    decreases a,
{
    match a {
        PlaybackAction::InsertNote { track, at, length } => {
            let ns = choose|ns: Seq<Note>|
                lists_notes(ns, ts[track.0 as int], conflicting(at, length)) && collapsed(
                    inv,
                    seq![PlaybackAction::RemoveNote { track, at }] + inserts_for(track, ns),
                );
            let ex = seq![PlaybackAction::RemoveNote { track, at }] + inserts_for(track, ns);
            assert forall|i: int| 0 <= i < ex.len() implies valid_action(ts.len(), #[trigger] ex[i]) by {}
            lemma_valid_actions_all(ts.len(), ex);
        },
        PlaybackAction::Batch(v) => {
            assert(decreases_to!(a => v));
            if let Some(x) = inv {
                let w = x->Batch_0;
                lemma_batch_inverses_valid(w@.reverse(), ts, v@);
                assert forall|i: int| 0 <= i < w@.len() implies valid_action(ts.len(), #[trigger] w@[i]) by {
                    assert(w@[i] == w@.reverse()[w@.len() - 1 - i]);
                }
                lemma_valid_actions_all(ts.len(), w@);
            }
        },
        _ => {},
    }
}

/// Every inverse a batch reports names only existing tracks.
proof fn lemma_batch_inverses_valid(w: Seq<PlaybackAction>, ts: TracksModel, s: Seq<PlaybackAction>)
    requires
        valid_actions(ts.len(), s),
        batch_inverses(w, ts, s),
    ensures
        forall|i: int| 0 <= i < w.len() ==> valid_action(ts.len(), #[trigger] w[i]),
    decreases s,
{
    if s.len() > 0 {
        let rest = s.drop_last();
        let mid = apply_seq_tracks(ts, rest);
        assert(decreases_to!(s => s[s.len() - 1]));
        lemma_apply_seq_len(ts, rest);
        if inverse_matches(None, mid, s.last()) && batch_inverses(w, ts, rest) {
            lemma_batch_inverses_valid(w, ts, rest);
        } else {
            lemma_batch_inverses_valid(w.drop_last(), ts, rest);
            lemma_inverse_valid(Some(w.last()), mid, s.last());
            assert forall|i: int| 0 <= i < w.len() implies valid_action(ts.len(), #[trigger] w[i]) by {
                if i < w.len() - 1 {
                    assert(w.drop_last()[i] == w[i]);
                }
            }
        }
    }
}

proof fn lemma_valid_actions_index(n: nat, s: Seq<PlaybackAction>, i: int)
    requires
        valid_actions(n, s),
        0 <= i < s.len(),
    ensures
        valid_action(n, s[i]),
    decreases s.len(),
{
    if i < s.len() - 1 {
        lemma_valid_actions_index(n, s.drop_last(), i);
    }
}

impl Clone for Playback {
    /// The same notes on every track, and the same transport — every track copied in turn.
    fn clone(&self) -> (p: Playback)
        ensures
            p.tracks_view() == self.tracks_view(),
            p.transport == self.transport,
            track_items(p.tracks).len() == track_items(self.tracks).len(),
            p.wf() == self.wf(),
    {
        let count = tracks_len(&self.tracks);
        // A list of tracks is never empty: there is always a first one.
        let first = tracks_get(&self.tracks, 0).clone();
        let mut tracks = tracks_single(first);
        let mut i: usize = 1;
        while i < count
            invariant
                count == track_items(self.tracks).len(),
                1 <= i <= count,
                track_items(tracks).len() == i,
                forall|j: int|
                    0 <= j < i ==> (#[trigger] track_items(tracks)[j])@ == track_items(self.tracks)[j]@
                        && track_items(tracks)[j].wf() == track_items(self.tracks)[j].wf(),
            decreases count - i,
        {
            let copy = tracks_get(&self.tracks, i).clone();
            tracks_push(&mut tracks, copy);
            i = i + 1;
        }
        let p = Playback { tracks, transport: self.transport };
        assert(p.tracks_view() =~= self.tracks_view());
        assert(p.wf() == self.wf()) by {
            if self.wf() {
                assert forall|j: int| 0 <= j < track_items(p.tracks).len() implies #[trigger] track_items(p.tracks)[j].wf() by {
                    assert(track_items(self.tracks)[j].wf());
                }
            } else {
                let j = choose|j: int| 0 <= j < track_items(self.tracks).len() && !#[trigger] track_items(self.tracks)[j].wf();
                assert(!track_items(p.tracks)[j].wf());
            }
        }
        p
    }
}

impl Default for Playback {
    /// One empty track, not playing.
    fn default() -> (p: Playback)
        ensures
            p.wf(),
            p.tracks_view() == seq![Map::<Position, Length>::empty()],
            p.transport == (Transport { intent: PlaybackIntent::Paused, position: Tick(0) }),
    {
        Playback::new()
    }
}

} // verus!
