//! The editing session: content, selection, mode, and history.

use vstd::prelude::*;

use crate::action::Action;
use crate::history::{History, Origin};
use crate::mode::Mode;
use crate::pitch::Pitch;
use crate::playback::{
    all_tidy, apply_tracks, apply_transport, inverse_matches, lemma_undo, track_items, undoable,
    valid_action, Playback, PlaybackAction,
};
use crate::range::Range;
use crate::selection::{merge_all, sort_by_key, Selection};
use crate::time::Tick;

verus! {

/// The full state of one editing session — the top-level Elm-style model, `Playback` nested
/// inside it as the audio-relevant part.
#[derive(Debug, Clone)]
pub struct Editor {
    /// The audio-relevant state, also replicated on the audio thread.
    pub playback: Playback,
    /// Where the cursor(s) are.
    pub selection: Selection,
    /// The current editing mode.
    pub mode: Mode,
    /// The `:` command line's text, meaningful only while `mode` is `Command`.
    pub command_line: String,
    /// What undo and redo replay.
    pub history: History,
}

/// Every action of `s` is a playback action naming only the first `n` tracks — what undo and
/// redo can replay.
pub open spec fn replayable(s: Seq<Action>, n: nat) -> bool {
    forall|i: int| 0 <= i < s.len() ==> (#[trigger] s[i] matches Action::Playback(pa) && valid_action(n, pa))
}

/// The playback action inside `inv`, if it holds one.
pub open spec fn playback_part(inv: Option<Action>) -> Option<PlaybackAction> {
    match inv {
        Some(Action::Playback(pa)) => Some(pa),
        _ => None,
    }
}

/// The playback of `e0` and `e1` hold the same notes and transport.
pub open spec fn same_playback(e0: Editor, e1: Editor) -> bool {
    e1.playback.tracks_view() == e0.playback.tracks_view() && e1.playback.transport
        == e0.playback.transport
}

/// `e1` is `e0` with `action` applied, reporting `inv` as its inverse.
pub open spec fn mutated(e0: Editor, e1: Editor, action: Action, inv: Option<Action>) -> bool {
    match action {
        Action::SetSelection(s) => e1.selection@ == merge_all(sort_by_key(s@)) && e1.mode == e0.mode
            && e1.command_line@ == e0.command_line@ && same_playback(e0, e1) && inv is None,
        Action::SetMode(m) => e1.mode == m && e1.command_line@ == (if m == Mode::Command {
            e0.command_line@
        } else {
            Seq::<char>::empty()
        }) && e1.selection@ == e0.selection@ && same_playback(e0, e1) && inv is None,
        Action::SetCommandLine(text) => e1.command_line@ == text@ && e1.mode == e0.mode
            && e1.selection@ == e0.selection@ && same_playback(e0, e1) && inv is None,
        Action::Playback(pa) => e1.playback.tracks_view() == apply_tracks(e0.playback.tracks_view(), pa)
            && e1.playback.transport == apply_transport(e0.playback.transport, pa) && e1.mode == e0.mode
            && e1.command_line@ == e0.command_line@ && e1.selection@ == e0.selection@ && (inv is None
            || inv matches Some(Action::Playback(_))) && inverse_matches(
            playback_part(inv),
            e0.playback.tracks_view(),
            pa,
        ),
        _ => false,
    }
}

/// The stack `s` with `inv` pushed on top, when there is one.
pub open spec fn pushed(s: Seq<Action>, inv: Option<Action>) -> Seq<Action> {
    match inv {
        Some(x) => s.push(x),
        None => s,
    }
}

/// `e1` is `e0` after [`Editor::update`] with `action`, returning `r`.
pub open spec fn updated(e0: Editor, action: Action, e1: Editor, r: Option<Action>) -> bool {
    match action {
        Action::Undo => if e0.history.undo_stack().len() == 0 {
            r is None && same_playback(e0, e1) && e1.selection@ == e0.selection@ && e1.mode == e0.mode
                && e1.command_line@ == e0.command_line@ && e1.history.undo_stack()
                == e0.history.undo_stack() && e1.history.redo_stack() == e0.history.redo_stack()
        } else {
            let x = e0.history.undo_stack().last();
            &&& r == Some(x)
            &&& e1.history.undo_stack() == e0.history.undo_stack().drop_last()
            &&& exists|inv: Option<Action>|
                mutated(e0, e1, x, inv) && e1.history.redo_stack() == pushed(
                    e0.history.redo_stack(),
                    inv,
                )
        },
        Action::Redo => if e0.history.redo_stack().len() == 0 {
            r is None && same_playback(e0, e1) && e1.selection@ == e0.selection@ && e1.mode == e0.mode
                && e1.command_line@ == e0.command_line@ && e1.history.undo_stack()
                == e0.history.undo_stack() && e1.history.redo_stack() == e0.history.redo_stack()
        } else {
            let x = e0.history.redo_stack().last();
            &&& r == Some(x)
            &&& e1.history.redo_stack() == e0.history.redo_stack().drop_last()
            &&& exists|inv: Option<Action>|
                mutated(e0, e1, x, inv) && e1.history.undo_stack() == pushed(
                    e0.history.undo_stack(),
                    inv,
                )
        },
        _ => {
            &&& r == Some(action)
            &&& exists|inv: Option<Action>|
                mutated(e0, e1, action, inv) && (match inv {
                    Some(x) => e1.history.undo_stack() == e0.history.undo_stack().push(x)
                        && e1.history.redo_stack() == Seq::<Action>::empty(),
                    None => e1.history.undo_stack() == e0.history.undo_stack()
                        && e1.history.redo_stack() == e0.history.redo_stack(),
                })
        },
    }
}

impl Editor {
    /// The playback is well formed, has a track to edit, and every stored inverse replays onto it.
    pub open spec fn wf(&self) -> bool {
        &&& self.playback.wf()
        &&& track_items(self.playback.tracks).len() >= 1
        &&& replayable(self.history.undo_stack(), track_items(self.playback.tracks).len())
        &&& replayable(self.history.redo_stack(), track_items(self.playback.tracks).len())
    }

    /// A fresh editor: one empty track, a single collapsed selection at the start, normal mode.
    pub fn new() -> (e: Editor)
        ensures
            e.wf(),
            e.playback.tracks_view() == seq![Map::<crate::track::Position, crate::time::Length>::empty()],
            e.playback.transport == (crate::transport::Transport {
                intent: crate::transport::PlaybackIntent::Paused,
                position: Tick(0),
            }),
            e.selection@ == seq![Range { pitch: Pitch(69), anchor: Tick(0), head: Tick(0) }],
            e.mode == Mode::Normal,
            e.command_line@ == Seq::<char>::empty(),
            e.history.undo_stack() == Seq::<Action>::empty(),
            e.history.redo_stack() == Seq::<Action>::empty(),
    {
        let e = Editor {
            playback: Playback::new(),
            selection: Selection::single(Range { pitch: Pitch::a4(), anchor: Tick(0), head: Tick(0) }),
            mode: Mode::default(),
            command_line: String::new(),
            history: History::default(),
        };
        assert(e.playback.tracks_view().len() == 1);
        e
    }

    /// Apply one action, returning the action that was actually applied in the forward
    /// direction — for `Undo`/`Redo` that's the replayed action, not the token itself; for
    /// anything else it's simply `action` handed back. Forward it to the audio thread's own
    /// `Playback` whenever it's `Action::Playback(_)`. `None` only for `Undo`/`Redo` with nothing
    /// to replay (an empty stack) — nothing to forward then either.
    ///
    /// `Quit` never reaches here: the runtime intercepts it first.
    pub fn update(&mut self, action: Action) -> (r: Option<Action>)
        requires
            old(self).wf(),
            action != Action::Quit,
            action matches Action::Playback(pa) ==> valid_action(
                track_items(old(self).playback.tracks).len(),
                pa,
            ),
        ensures
            final(self).wf(),
            track_items(final(self).playback.tracks).len() == track_items(old(self).playback.tracks).len(),
            updated(*old(self), action, *final(self), r),
    {
        let ghost n = track_items(self.playback.tracks).len();
        let ghost e0 = *self;
        let resolved = match self.history.resolve(action) {
            Some(resolved) => resolved,
            None => {
                return None;
            },
        };
        proof {
            if resolved.origin == Origin::Undo {
                assert(e0.history.undo_stack()[e0.history.undo_stack().len() - 1] == resolved.action);
            }
            if resolved.origin == Origin::Redo {
                assert(e0.history.redo_stack()[e0.history.redo_stack().len() - 1] == resolved.action);
            }
        }
        let ghost e_mid = *self;
        let inverse = self.mutate(&resolved.action);
        let ghost e_after = *self;
        proof {
            lemma_inverse_replayable(inverse, e_mid.playback.tracks_view(), resolved.action, n);
        }
        self.history.settle(&resolved, inverse);
        proof {
            assert(mutated(e0, *self, resolved.action, inverse));
            let u0 = e0.history.undo_stack();
            let r0 = e0.history.redo_stack();
            assert forall|i: int| 0 <= i < self.history.undo_stack().len() implies (#[trigger] self.history.undo_stack()[i] matches Action::Playback(pa)
                && valid_action(n, pa)) by {
                if i < u0.len() && !(resolved.origin == Origin::Undo) {
                    assert(self.history.undo_stack()[i] == u0[i]);
                } else if resolved.origin == Origin::Undo {
                    assert(self.history.undo_stack()[i] == u0[i]);
                }
            }
            assert forall|i: int| 0 <= i < self.history.redo_stack().len() implies (#[trigger] self.history.redo_stack()[i] matches Action::Playback(pa)
                && valid_action(n, pa)) by {
                if i < r0.len() && !(resolved.origin == Origin::Redo) {
                    assert(self.history.redo_stack()[i] == r0[i]);
                } else if resolved.origin == Origin::Redo {
                    assert(self.history.redo_stack()[i] == r0[i]);
                }
            }
        }
        Some(resolved.action)
    }

    /// The pure primitive step: applies one non-undo/redo action and reports its inverse, with no
    /// history bookkeeping of its own.
    fn mutate(&mut self, action: &Action) -> (inv: Option<Action>)
        requires
            old(self).wf(),
            !(*action is Quit || *action is Undo || *action is Redo),
            *action matches Action::Playback(pa) ==> valid_action(
                track_items(old(self).playback.tracks).len(),
                pa,
            ),
        ensures
            final(self).playback.wf(),
            track_items(final(self).playback.tracks).len() == track_items(old(self).playback.tracks).len(),
            final(self).history == old(self).history,
            mutated(*old(self), *final(self), *action, inv),
    {
        match action {
            Action::SetSelection(new) => {
                self.selection = new.normalized();
                // Moving the selection isn't undoable — matching how editors generally treat
                // cursor movement (Ctrl-Z reaches past it to the last real edit).
                None
            },
            Action::SetMode(mode) => {
                self.mode = *mode;
                if *mode != Mode::Command {
                    self.command_line = String::new();
                }
                None  // mode switches aren't undoable either.
            },
            Action::SetCommandLine(text) => {
                self.command_line = text.clone();
                None
            },
            Action::Playback(playback_action) => {
                match self.playback.apply(playback_action) {
                    Some(inverse) => Some(Action::Playback(inverse)),
                    None => None,
                }
            },
            _ => None,
        }
    }
}

/// A playback action's reported inverse replays onto the same tracks: it is a playback action
/// naming only tracks that exist.
proof fn lemma_inverse_replayable(inv: Option<Action>, ts: crate::playback::TracksModel, action: Action, n: nat)
    requires
        action matches Action::Playback(pa) ==> valid_action(n, pa),
        ts.len() == n,
        inv is None || inv matches Some(Action::Playback(_)),
        action matches Action::Playback(pa) ==> inverse_matches(playback_part(inv), ts, pa),
        !(action is Playback) ==> inv is None,
    ensures
        inv matches Some(x) ==> (x matches Action::Playback(pa) && valid_action(n, pa)),
{
    if let Action::Playback(pa) = action {
        if let Some(Action::Playback(x)) = inv {
            crate::playback::lemma_inverse_valid(Some(x), ts, pa);
        }
    }
}

/// Undo reverses the most recent edit, and redo re-applies it.
///
/// Starting from an editor whose tracks are tidy, apply a fresh playback edit that is undoable
/// there, then `Undo`, then `Redo`. If the edit recorded an inverse, `Undo` puts every track's
/// notes back as they were before the edit, and `Redo` brings back the notes the edit left. If it
/// recorded none, it changed no notes.
pub proof fn lemma_undo_redo(
    e0: Editor,
    e1: Editor,
    e2: Editor,
    e3: Editor,
    edit: PlaybackAction,
    r1: Option<Action>,
    r2: Option<Action>,
    r3: Option<Action>,
)
    requires
        all_tidy(e0.playback.tracks_view()),
        undoable(e0.playback.tracks_view(), edit),
        updated(e0, Action::Playback(edit), e1, r1),
        updated(e1, Action::Undo, e2, r2),
        updated(e2, Action::Redo, e3, r3),
    ensures
        e1.history.undo_stack().len() == e0.history.undo_stack().len() ==> e1.playback.tracks_view()
            == e0.playback.tracks_view(),
        e1.history.undo_stack().len() > e0.history.undo_stack().len() ==> {
            &&& e2.playback.tracks_view() == e0.playback.tracks_view()
            &&& e3.playback.tracks_view() == e1.playback.tracks_view()
        },
{
    let a = Action::Playback(edit);
    let ts0 = e0.playback.tracks_view();
    let ts1 = e1.playback.tracks_view();
    let inv1 = choose|inv: Option<Action>|
        mutated(e0, e1, a, inv) && (match inv {
            Some(x) => e1.history.undo_stack() == e0.history.undo_stack().push(x)
                && e1.history.redo_stack() == Seq::<Action>::empty(),
            None => e1.history.undo_stack() == e0.history.undo_stack()
                && e1.history.redo_stack() == e0.history.redo_stack(),
        });
    lemma_undo(ts0, edit, playback_part(inv1));
    if let Some(x) = inv1 {
        let px = x->Playback_0;
        assert(e1.history.undo_stack().last() == x);
        let inv2 = choose|inv: Option<Action>|
            mutated(e1, e2, x, inv) && e2.history.redo_stack() == pushed(e1.history.redo_stack(), inv);
        assert(e2.playback.tracks_view() == ts0);
        lemma_undo(ts1, px, playback_part(inv2));
        if let Some(y) = inv2 {
            assert(e2.history.redo_stack() == seq![y]);
            assert(e2.history.redo_stack().last() == y);
            let inv3 = choose|inv: Option<Action>|
                mutated(e2, e3, y, inv) && e3.history.undo_stack() == pushed(e2.history.undo_stack(), inv);
        } else {
            assert(e2.history.redo_stack().len() == 0);
        }
    }
}

/// A redone edit can be undone again: after an edit, `Undo`, then `Redo`, a further `Undo`
/// takes the notes back to how they were after the first `Undo` — whenever the redo changed any
/// note, it recorded what undoes it, on top of the undo stack.
pub proof fn lemma_redone_edits_undo_again(
    e0: Editor,
    e1: Editor,
    e2: Editor,
    e3: Editor,
    e4: Editor,
    edit: PlaybackAction,
    r1: Option<Action>,
    r2: Option<Action>,
    r3: Option<Action>,
    r4: Option<Action>,
)
    requires
        all_tidy(e0.playback.tracks_view()),
        undoable(e0.playback.tracks_view(), edit),
        updated(e0, Action::Playback(edit), e1, r1),
        updated(e1, Action::Undo, e2, r2),
        updated(e2, Action::Redo, e3, r3),
        updated(e3, Action::Undo, e4, r4),
    ensures
        e1.history.undo_stack().len() > e0.history.undo_stack().len() && e3.playback.tracks_view()
            != e2.playback.tracks_view() ==> {
            &&& e3.history.undo_stack().len() == e2.history.undo_stack().len() + 1
            &&& e4.playback.tracks_view() == e2.playback.tracks_view()
        },
{
    let a = Action::Playback(edit);
    let ts0 = e0.playback.tracks_view();
    let ts1 = e1.playback.tracks_view();
    let inv1 = choose|inv: Option<Action>|
        mutated(e0, e1, a, inv) && (match inv {
            Some(x) => e1.history.undo_stack() == e0.history.undo_stack().push(x)
                && e1.history.redo_stack() == Seq::<Action>::empty(),
            None => e1.history.undo_stack() == e0.history.undo_stack()
                && e1.history.redo_stack() == e0.history.redo_stack(),
        });
    lemma_undo(ts0, edit, playback_part(inv1));
    if let Some(x) = inv1 {
        if e3.playback.tracks_view() != e2.playback.tracks_view() {
            let px = x->Playback_0;
            assert(e1.history.undo_stack().last() == x);
            let inv2 = choose|inv: Option<Action>|
                mutated(e1, e2, x, inv) && e2.history.redo_stack() == pushed(e1.history.redo_stack(), inv);
            assert(e2.playback.tracks_view() == ts0);
            lemma_undo(ts1, px, playback_part(inv2));
            if let Some(y) = inv2 {
                let py = y->Playback_0;
                assert(e2.history.redo_stack() == seq![y]);
                assert(e2.history.redo_stack().last() == y);
                let inv3 = choose|inv: Option<Action>|
                    mutated(e2, e3, y, inv) && e3.history.undo_stack() == pushed(e2.history.undo_stack(), inv);
                lemma_undo(ts0, py, playback_part(inv3));
                if let Some(z) = inv3 {
                    let pz = z->Playback_0;
                    assert(e3.history.undo_stack().last() == z);
                    let inv4 = choose|inv: Option<Action>|
                        mutated(e3, e4, z, inv) && e4.history.redo_stack() == pushed(e3.history.redo_stack(), inv);
                    assert(e4.playback.tracks_view() == ts0);
                } else {
                    assert(e3.playback.tracks_view() == ts0);
                }
            } else {
                assert(e2.history.redo_stack().len() == 0);
                assert(e3.playback.tracks_view() == e2.playback.tracks_view());
            }
        }
    }
}

impl Default for Editor {
    /// A fresh editor.
    fn default() -> (e: Editor)
        ensures
            e.wf(),
            e.playback.tracks_view() == seq![Map::<crate::track::Position, crate::time::Length>::empty()],
            e.playback.transport == (crate::transport::Transport {
                intent: crate::transport::PlaybackIntent::Paused,
                position: Tick(0),
            }),
            e.selection@ == seq![Range { pitch: Pitch(69), anchor: Tick(0), head: Tick(0) }],
            e.mode == Mode::Normal,
            e.command_line@ == Seq::<char>::empty(),
            e.history.undo_stack() == Seq::<Action>::empty(),
            e.history.redo_stack() == Seq::<Action>::empty(),
    {
        Editor::new()
    }
}

} // verus!
