//! One step of the interactive session: a key comes in, the editor changes, and what the audio
//! side must replay goes back out. Reading keys, drawing, and talking to the audio device are
//! the front end's.

use vstd::prelude::*;

use crate::action::Action;
use crate::editor::{playback_part, updated, Editor};
use crate::keymap::{fed, Key, Keymap};
use crate::playback::{apply_tracks, apply_transport, track_items, valid_action, PlaybackAction};
use crate::time::Tick;
use crate::transport::PlaybackIntent;
use crate::viewport::Viewport;

verus! {

/// Where to draw the playhead: the audio side's own `live` position while the transport is
/// actually advancing, or the editor's last-known position otherwise (paused, or no audio at all)
/// — the audio side has no reason to keep publishing a position it isn't moving.
pub fn playhead(editor: &Editor, live: Option<Tick>) -> (t: Tick)
    ensures
        t == (match live {
            Some(tick) => if editor.playback.transport.intent == PlaybackIntent::Playing {
                tick
            } else {
                editor.playback.transport.position
            },
            None => editor.playback.transport.position,
        }),
{
    if editor.playback.transport.intent == PlaybackIntent::Playing {
        if let Some(tick) = live {
            return tick;
        }
    }
    editor.playback.transport.position
}

/// Apply an action to the editor, handing back what the audio side's own replica must apply too:
/// whatever the editor actually changed, whenever that's audio-relevant.
pub fn perform(editor: &mut Editor, action: Action) -> (forward: Option<PlaybackAction>)
    requires
        old(editor).wf(),
        action != Action::Quit,
        action matches Action::Playback(pa) ==> valid_action(
            track_items(old(editor).playback.tracks).len(),
            pa,
        ),
    ensures
        final(editor).wf(),
        track_items(final(editor).playback.tracks).len() == track_items(old(editor).playback.tracks).len(),
        exists|applied: Option<Action>|
            updated(*old(editor), action, *final(editor), applied) && forward == playback_part(applied),
{
    let ghost before = *editor;
    let applied = editor.update(action);
    let forward = match applied {
        Some(Action::Playback(playback_action)) => Some(playback_action),
        _ => None,
    };
    assert(updated(before, action, *editor, applied) && forward == playback_part(applied));
    forward
}

/// What one key did to the session.
#[derive(Debug)]
pub enum Outcome {
    /// The command line asked to end the session.
    Quit,
    /// Keep going, replaying this on the audio side first, if anything.
    Continue(Option<PlaybackAction>),
}

/// Handle one key press: feed it to the keymap, and apply whatever it resolves to — unless that
/// is quitting, which ends the session with the editor left as it was.
pub fn handle_key(keymap: &mut Keymap, editor: &mut Editor, key: Key, viewport: &Viewport) -> (o: Outcome)
    requires
        old(editor).wf(),
    ensures
        final(editor).wf(),
        exists|r: Option<Action>|
            fed(*old(keymap), *final(keymap), key, *old(editor), *viewport, r) && match r {
                None => o is Continue && o->Continue_0 is None && *final(editor) == *old(editor),
                Some(Action::Quit) => o is Quit && *final(editor) == *old(editor),
                Some(a) => o is Continue && exists|applied: Option<Action>|
                    updated(*old(editor), a, *final(editor), applied) && o->Continue_0 == playback_part(
                        applied,
                    ),
            },
{
    let action = keymap.feed(key, editor, viewport);
    match action {
        None => Outcome::Continue(None),
        Some(Action::Quit) => Outcome::Quit,
        Some(action) => Outcome::Continue(perform(editor, action)),
    }
}

/// The audio side's replica never drifts from the editor.
///
/// Two copies of the playback state that start out equal stay equal when one is the editor's,
/// updated with any action, and the other applies exactly what [`perform`] hands back: the
/// forwarded action, if there is one, and nothing otherwise.
pub proof fn lemma_replica_stays_in_step(e0: Editor, action: Action, e1: Editor, applied: Option<Action>)
    requires
        updated(e0, action, e1, applied),
    ensures
        match playback_part(applied) {
            Some(pa) => e1.playback.tracks_view() == apply_tracks(e0.playback.tracks_view(), pa)
                && e1.playback.transport == apply_transport(e0.playback.transport, pa),
            None => e1.playback.tracks_view() == e0.playback.tracks_view() && e1.playback.transport
                == e0.playback.transport,
        },
{
}

} // verus!
