use nonempty::NonEmpty;

use osti::history::{History, Origin};
use osti::pattern::Pattern;
use osti::{
    Action, Editor, Length, Mode, Note, Pitch, Playback, PlaybackAction, PlaybackIntent, Position,
    Range, Selection, Tick, Track, TrackId,
};

fn at(tick: u16, pitch: u8) -> Position {
    Position {
        tick: Tick(tick),
        pitch: Pitch(pitch),
    }
}

fn note(tick: u16, pitch: u8, length: u8) -> Note {
    Note {
        position: at(tick, pitch),
        length: Length(length),
    }
}

fn range(pitch: u8, anchor: u16, head: u16) -> Range {
    Range {
        pitch: Pitch(pitch),
        anchor: Tick(anchor),
        head: Tick(head),
    }
}

// --- pitch ---

#[test]
fn middle_c_is_named_c4() {
    assert_eq!(Pitch(60).name(), "C4");
}

#[test]
fn a4_is_named_a4() {
    assert_eq!(Pitch::a4().name(), "A4");
}

#[test]
fn sharps_and_the_lowest_octave_are_named_correctly() {
    assert_eq!(Pitch(61).name(), "C#4");
    assert_eq!(Pitch(0).name(), "C-1");
}

// --- range ---

#[test]
fn a_collapsed_range_has_length_one() {
    let range = Range::at(Position {
        tick: Tick(3),
        pitch: Pitch(60),
    });
    assert_eq!(range.length(), Length(1));
}

#[test]
fn length_is_inclusive_of_both_ends_regardless_of_direction() {
    let forward = Range {
        pitch: Pitch(60),
        anchor: Tick(2),
        head: Tick(5),
    };
    let backward = Range {
        pitch: Pitch(60),
        anchor: Tick(5),
        head: Tick(2),
    };
    assert_eq!(forward.length(), Length(4));
    assert_eq!(backward.length(), Length(4));
}

#[test]
fn adjacent_ranges_touch_but_distant_ones_do_not() {
    let first = Range {
        pitch: Pitch(60),
        anchor: Tick(0),
        head: Tick(2),
    };
    let adjacent = Range {
        pitch: Pitch(60),
        anchor: Tick(3),
        head: Tick(4),
    };
    let distant = Range {
        pitch: Pitch(60),
        anchor: Tick(10),
        head: Tick(11),
    };
    assert!(first.touches(adjacent));
    assert!(!first.touches(distant));
}

#[test]
fn ranges_on_different_pitches_never_touch() {
    let low = Range {
        pitch: Pitch(60),
        anchor: Tick(0),
        head: Tick(5),
    };
    let high = Range {
        pitch: Pitch(61),
        anchor: Tick(0),
        head: Tick(5),
    };
    assert!(!low.touches(high));
}

#[test]
fn merging_spans_both_ranges_fully() {
    let first = Range {
        pitch: Pitch(60),
        anchor: Tick(0),
        head: Tick(2),
    };
    let second = Range {
        pitch: Pitch(60),
        anchor: Tick(1),
        head: Tick(5),
    };
    let merged = first.merged(second);
    assert_eq!((merged.start(), merged.end()), (Tick(0), Tick(5)));
}

// --- track ---

#[test]
fn empty_track_has_no_notes_sounding() {
    let track = Track::new();
    assert_eq!(track.sounding_at(Tick(0)).len(), 0);
}

#[test]
fn track_sounding_at_finds_a_chord() {
    let mut track = Track::new();
    track.insert(at(0, 60), Length(4));
    let removed = track.insert(at(0, 64), Length(4));

    assert!(removed.is_empty()); // different pitches never conflict
    assert_eq!(track.sounding_at(Tick(2)).len(), 2);
}

#[test]
fn track_sounding_at_excludes_notes_outside_their_span() {
    let mut track = Track::new();
    track.insert(at(0, 60), Length(4));

    assert_eq!(track.sounding_at(Tick(4)).len(), 0); // [0, 4) — 4 is just past the end
}

#[test]
fn track_inserting_over_a_same_pitch_note_replaces_it() {
    let mut track = Track::new();
    track.insert(at(0, 60), Length(8));

    let removed = track.insert(at(2, 60), Length(2));

    assert_eq!(removed, vec![note(0, 60, 8)]);
    assert_eq!(track.sounding_at(Tick(0)).len(), 0); // the old note is gone
    assert_eq!(track.sounding_at(Tick(2)).len(), 1); // the new one took its place
}

#[test]
fn inserting_a_long_note_also_replaces_a_shorter_one_starting_partway_through() {
    let mut track = Track::new();
    track.insert(at(5, 60), Length(2)); // starts *after* the note below, not before it

    let removed = track.insert(at(0, 60), Length(10));

    assert_eq!(removed, vec![note(5, 60, 2)]);
    assert_eq!(track.sounding_at(Tick(5)).len(), 1); // only the new, longer note remains
}

#[test]
fn previous_note_start_finds_the_current_note_before_an_earlier_one() {
    let mut track = Track::new();
    track.insert(at(0, 60), Length(2));
    track.insert(at(5, 60), Length(2));

    // Standing inside the note at 5: its own start comes first, not the one at 0.
    assert_eq!(track.previous_note_start(Pitch(60), Tick(6)), Some(Tick(5)));
    // Standing exactly on a note's start: the previous *other* note, not itself.
    assert_eq!(track.previous_note_start(Pitch(60), Tick(5)), Some(Tick(0)));
    // Nothing before the first note.
    assert_eq!(track.previous_note_start(Pitch(60), Tick(0)), None);
}

#[test]
fn next_note_end_finds_the_current_note_before_a_later_one() {
    let mut track = Track::new();
    track.insert(at(0, 60), Length(2)); // covers 0..2, ends at 1
    track.insert(at(5, 60), Length(2)); // covers 5..7, ends at 6

    // Standing inside the first note: its own end comes first.
    assert_eq!(track.next_note_end(Pitch(60), Tick(0)), Some(Tick(1)));
    // Standing exactly on that end: the next note's end, not the same one again.
    assert_eq!(track.next_note_end(Pitch(60), Tick(1)), Some(Tick(6)));
    // Nothing after the last note.
    assert_eq!(track.next_note_end(Pitch(60), Tick(6)), None);
}

#[test]
fn note_boundary_motions_ignore_other_pitches() {
    let mut track = Track::new();
    track.insert(at(3, 61), Length(1));
    assert_eq!(track.previous_note_start(Pitch(60), Tick(10)), None);
    assert_eq!(track.next_note_end(Pitch(60), Tick(0)), None);
}

#[test]
fn positions_in_span_finds_notes_starting_within_it_only() {
    let mut track = Track::new();
    track.insert(at(2, 60), Length(1));
    track.insert(at(4, 60), Length(1));
    track.insert(at(8, 60), Length(1));

    let found = track.positions_in_span(Pitch(60), Tick(2), Tick(4));

    assert_eq!(found, vec![at(2, 60), at(4, 60)]);
}

// --- pattern ---

#[test]
fn empty_pattern_has_no_notes_sounding() {
    let pattern = Pattern::new(Tick(16));
    assert_eq!(pattern.sounding_at(Tick(0)).len(), 0);
}

#[test]
fn pattern_sounding_at_finds_a_chord() {
    let mut pattern = Pattern::new(Tick(16));
    pattern.insert(at(0, 60), Length(4));
    pattern.insert(at(0, 64), Length(4));

    assert_eq!(pattern.sounding_at(Tick(2)).len(), 2);
}

#[test]
fn pattern_sounding_at_excludes_notes_outside_their_span() {
    let mut pattern = Pattern::new(Tick(16));
    pattern.insert(at(0, 60), Length(4));

    assert_eq!(pattern.sounding_at(Tick(4)).len(), 0); // [0, 4) — 4 is just past the end
}

#[test]
fn pattern_inserting_over_a_same_pitch_note_replaces_it() {
    let mut pattern = Pattern::new(Tick(16));
    pattern.insert(at(0, 60), Length(8));

    let removed = pattern.insert(at(2, 60), Length(2));

    assert_eq!(removed, vec![(at(0, 60), Length(8))]);
    assert_eq!(pattern.sounding_at(Tick(0)).len(), 0); // the old note is gone
    assert_eq!(pattern.sounding_at(Tick(2)).len(), 1); // the new one took its place
}

#[test]
fn different_pitches_never_conflict() {
    let mut pattern = Pattern::new(Tick(16));
    pattern.insert(at(0, 60), Length(8));

    let removed = pattern.insert(at(0, 61), Length(8));
    assert!(removed.is_empty());
}

// --- transport ---

#[test]
fn toggling_flips_between_playing_and_paused() {
    assert_eq!(PlaybackIntent::Paused.toggled(), PlaybackIntent::Playing);
    assert_eq!(PlaybackIntent::Playing.toggled(), PlaybackIntent::Paused);
}

// --- selection ---

#[test]
fn a_single_range_is_its_own_primary() {
    let selection = Selection::single(range(60, 0, 0));
    assert_eq!(selection.primary(), range(60, 0, 0));
}

#[test]
fn normalizing_a_single_range_changes_nothing() {
    let selection = Selection::single(range(60, 0, 3));
    assert_eq!(selection.normalized().ranges(), selection.ranges());
}

#[test]
fn overlapping_ranges_merge_on_normalize() {
    // Built by hand — this is exactly the shape `SetSelection` would construct once
    // multi-cursor keybindings exist.
    let selection = Selection(NonEmpty::from((range(60, 0, 2), vec![range(60, 1, 4)])));

    let normalized = selection.normalized().ranges();
    assert_eq!(normalized, vec![range(60, 0, 4)]);
}

#[test]
fn ranges_on_different_pitches_stay_separate() {
    let selection = Selection(NonEmpty::from((range(60, 0, 2), vec![range(61, 0, 2)])));
    assert_eq!(selection.normalized().ranges().len(), 2);
}

#[test]
fn map_moves_every_range() {
    let selection = Selection(NonEmpty::from((range(60, 0, 0), vec![range(61, 0, 0)])));

    let moved = selection.map(|r| Range {
        head: Tick(r.head.0 + 1),
        anchor: Tick(r.anchor.0 + 1),
        ..r
    });

    assert_eq!(moved.ranges(), vec![range(60, 1, 1), range(61, 1, 1)]);
}

// --- playback ---

#[test]
fn inserting_a_note_undoes_to_removing_it() {
    let mut playback = Playback::new();
    let insert = PlaybackAction::InsertNote {
        track: TrackId(0),
        at: at(0, 60),
        length: Length(4),
    };

    let inverse = playback.apply(&insert);

    assert_eq!(
        inverse,
        Some(PlaybackAction::RemoveNote {
            track: TrackId(0),
            at: at(0, 60)
        })
    );
}

#[test]
fn removing_nothing_is_not_undoable() {
    let mut playback = Playback::new();
    let inverse = playback.apply(&PlaybackAction::RemoveNote {
        track: TrackId(0),
        at: at(0, 60),
    });
    assert_eq!(inverse, None);
}

#[test]
fn transport_actions_are_not_undoable() {
    let mut playback = Playback::new();
    let inverse = playback.apply(&PlaybackAction::SetPlaybackIntent(PlaybackIntent::Playing));
    assert_eq!(inverse, None);
    assert_eq!(playback.transport.intent, PlaybackIntent::Playing);
}

#[test]
fn a_batch_mixing_undoable_and_not_reverts_only_the_undoable_part() {
    let mut playback = Playback::new();
    let batch = PlaybackAction::Batch(vec![
        PlaybackAction::InsertNote {
            track: TrackId(0),
            at: at(0, 60),
            length: Length(4),
        },
        PlaybackAction::SetPlaybackIntent(PlaybackIntent::Playing),
    ]);

    let inverse = playback.apply(&batch);

    assert_eq!(
        inverse,
        Some(PlaybackAction::Batch(vec![PlaybackAction::RemoveNote {
            track: TrackId(0),
            at: at(0, 60)
        }]))
    );
}

#[test]
fn inserting_over_an_existing_note_undoes_to_restoring_it() {
    let mut playback = Playback::new();
    playback.apply(&PlaybackAction::InsertNote {
        track: TrackId(0),
        at: at(0, 60),
        length: Length(8),
    });

    let inverse = playback.apply(&PlaybackAction::InsertNote {
        track: TrackId(0),
        at: at(2, 60),
        length: Length(2),
    });

    let undo = inverse.unwrap();
    playback.apply(&undo);
    // The old, longer note is back, covering tick 2 again (it always did — [0, 8)); what's
    // gone is the new note that used to occupy this position, and nothing past the old one.
    assert_eq!(playback.tracks.first().sounding_at(Tick(2)).len(), 1);
    assert_eq!(playback.tracks.first().sounding_at(Tick(10)).len(), 0);
}

// --- history ---

fn set_mode(mode: Mode) -> Action {
    Action::SetMode(mode)
}

#[test]
fn a_fresh_action_is_resolved_unchanged() {
    let mut history = History::default();
    let resolved = history.resolve(set_mode(Mode::Insert)).unwrap();
    assert_eq!(resolved.action, set_mode(Mode::Insert));
    assert_eq!(resolved.origin, Origin::Fresh);
}

#[test]
fn undo_with_nothing_recorded_resolves_to_nothing() {
    let mut history = History::default();
    assert!(history.resolve(Action::Undo).is_none());
}

#[test]
fn undo_replays_the_most_recently_recorded_inverse() {
    let mut history = History::default();
    let resolved = history.resolve(set_mode(Mode::Insert)).unwrap();
    history.settle(&resolved, Some(set_mode(Mode::Normal)));

    let undo = history.resolve(Action::Undo).unwrap();

    assert_eq!(undo.action, set_mode(Mode::Normal));
}

#[test]
fn undoing_then_redoing_restores_the_original_action() {
    let mut history = History::default();
    let resolved = history.resolve(set_mode(Mode::Insert)).unwrap();
    history.settle(&resolved, Some(set_mode(Mode::Normal)));
    let undo = history.resolve(Action::Undo).unwrap();
    history.settle(&undo, Some(set_mode(Mode::Insert)));

    let redo = history.resolve(Action::Redo).unwrap();

    assert_eq!(redo.action, set_mode(Mode::Insert));
}

#[test]
fn a_fresh_action_after_an_undo_clears_redo() {
    let mut history = History::default();
    let resolved = history.resolve(set_mode(Mode::Insert)).unwrap();
    history.settle(&resolved, Some(set_mode(Mode::Normal)));
    let undo = history.resolve(Action::Undo).unwrap();
    history.settle(&undo, Some(set_mode(Mode::Insert)));

    let fresh = history.resolve(set_mode(Mode::Help)).unwrap();
    history.settle(&fresh, Some(set_mode(Mode::Normal)));

    assert!(history.resolve(Action::Redo).is_none());
}

#[test]
fn settling_a_non_undoable_action_records_nothing() {
    let mut history = History::default();
    let resolved = history.resolve(set_mode(Mode::Insert)).unwrap();

    history.settle(&resolved, None);

    assert!(history.resolve(Action::Undo).is_none());
}

// --- editor ---

fn insert_a4_at(tick: u16) -> Action {
    Action::Playback(PlaybackAction::InsertNote {
        track: TrackId(0),
        at: Position {
            tick: Tick(tick),
            pitch: Pitch::a4(),
        },
        length: Length(1),
    })
}

#[test]
fn a_fresh_editor_starts_paused_with_no_notes() {
    let editor = Editor::new();
    assert_eq!(editor.playback.transport.intent, PlaybackIntent::Paused);
    assert_eq!(editor.playback.tracks.first().sounding_at(Tick(0)).len(), 0);
}

#[test]
fn update_echoes_back_a_fresh_action() {
    let mut editor = Editor::new();
    let action = insert_a4_at(0);
    assert_eq!(editor.update(action.clone()), Some(action));
}

#[test]
fn undo_reverses_the_most_recent_action() {
    let mut editor = Editor::new();
    editor.update(insert_a4_at(0));

    editor.update(Action::Undo);

    assert_eq!(editor.playback.tracks.first().sounding_at(Tick(0)).len(), 0);
}

#[test]
fn redo_reapplies_an_undone_action() {
    let mut editor = Editor::new();
    editor.update(insert_a4_at(0));
    editor.update(Action::Undo);

    editor.update(Action::Redo);

    assert_eq!(editor.playback.tracks.first().sounding_at(Tick(0)).len(), 1);
}

#[test]
fn leaving_command_mode_clears_the_command_line() {
    let mut editor = Editor::new();
    editor.update(Action::SetMode(Mode::Command));
    editor.update(Action::SetCommandLine("quit".to_string()));

    editor.update(Action::SetMode(Mode::Normal));

    assert_eq!(editor.mode, Mode::Normal);
    assert_eq!(editor.command_line, "");
}
