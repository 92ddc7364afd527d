use nonempty::NonEmpty;

use osti::keymap::{key_label, keys_label, text_commands, Command};
use osti::screen::{centered, grid, help_lines, status_line, Area, Mark};
use osti::session::{handle_key, perform, playhead, Outcome};
use osti::voices::{plan_voices, sounding_voices, VoiceKey};
use osti::pattern::Pattern;
use osti::{
    Action, Editor, Key, Keymap, Length, Mode, Note, Pitch, Playback, PlaybackAction, PlaybackIntent,
    Position, Range, Selection, Tick, Track, TrackId, Viewport,
};

fn at(tick: u16, pitch: u8) -> Position {
    Position {
        tick: Tick(tick),
        pitch: Pitch(pitch),
    }
}

fn insert(track: u8, tick: u16, pitch: u8, length: u8) -> PlaybackAction {
    PlaybackAction::InsertNote {
        track: TrackId(track),
        at: at(tick, pitch),
        length: Length(length),
    }
}

fn range(pitch: u8, anchor: u16, head: u16) -> Range {
    Range {
        pitch: Pitch(pitch),
        anchor: Tick(anchor),
        head: Tick(head),
    }
}

fn voice(track: u8, pitch: u8, start: u16) -> VoiceKey {
    VoiceKey {
        track: TrackId(track),
        pitch: Pitch(pitch),
        start: Tick(start),
    }
}

fn notes_of(playback: &Playback) -> Vec<(u16, u8, u8)> {
    let mut out = Vec::new();
    for tick in 0..32u16 {
        for n in playback.track(TrackId(0)).sounding_at(Tick(tick)) {
            out.push((n.position.tick.0, n.position.pitch.0, n.length.0));
        }
    }
    out
}

// --- laws, on concrete values ---

#[test]
fn undo_then_redo_restores_both_sides_of_an_edit() {
    let mut editor = Editor::new();
    editor.update(Action::Playback(insert(0, 0, 60, 4)));
    let before = notes_of(&editor.playback);
    editor.update(Action::Playback(insert(0, 2, 60, 4)));
    let after = notes_of(&editor.playback);
    assert_ne!(before, after);

    editor.update(Action::Undo);
    assert_eq!(notes_of(&editor.playback), before);

    editor.update(Action::Redo);
    assert_eq!(notes_of(&editor.playback), after);
}

#[test]
fn a_replica_fed_what_perform_forwards_never_drifts() {
    let mut editor = Editor::new();
    let mut replica = editor.playback.clone();
    let actions = vec![
        Action::Playback(insert(0, 0, 60, 4)),
        Action::SetMode(Mode::Insert),
        Action::Playback(insert(0, 1, 60, 2)),
        Action::Undo,
        Action::Playback(PlaybackAction::SetPlaybackIntent(PlaybackIntent::Playing)),
        Action::Undo,
        Action::Redo,
        Action::Playback(PlaybackAction::Seek(Tick(7))),
    ];
    for action in actions {
        if let Some(forward) = perform(&mut editor, action) {
            replica.apply(&forward);
        }
        assert_eq!(notes_of(&replica), notes_of(&editor.playback));
        assert_eq!(replica.transport, editor.playback.transport);
    }
}

#[test]
fn no_key_quits_outside_the_command_line() {
    let keys = [
        Key::Char('q'),
        Key::Char('c'),
        Key::Char(' '),
        Key::Esc,
        Key::Enter,
        Key::Backspace,
        Key::Left,
        Key::Other,
    ];
    for mode in [Mode::Normal, Mode::Insert, Mode::Visual, Mode::Help] {
        for key in keys {
            let mut editor = Editor::new();
            editor.update(Action::SetMode(mode));
            let mut keymap = Keymap::default();
            let viewport = Viewport::fit(16, 13);
            assert_ne!(keymap.feed(key, &editor, &viewport), Some(Action::Quit));
        }
    }
}

#[test]
fn an_unknown_command_just_closes_the_command_line() {
    let mut editor = Editor::new();
    editor.update(Action::SetMode(Mode::Command));
    editor.update(Action::SetCommandLine("qq".to_string()));
    let mut keymap = Keymap::default();
    let viewport = Viewport::fit(16, 13);
    assert_eq!(
        keymap.feed(Key::Enter, &editor, &viewport),
        Some(Action::SetMode(Mode::Normal))
    );
}

#[test]
fn backspace_takes_back_the_last_typed_character() {
    let mut editor = Editor::new();
    editor.update(Action::SetMode(Mode::Command));
    editor.update(Action::SetCommandLine("qx".to_string()));
    let mut keymap = Keymap::default();
    let viewport = Viewport::fit(16, 13);
    assert_eq!(
        keymap.feed(Key::Backspace, &editor, &viewport),
        Some(Action::SetCommandLine("q".to_string()))
    );
    editor.update(Action::SetCommandLine(String::new()));
    assert_eq!(
        keymap.feed(Key::Backspace, &editor, &viewport),
        Some(Action::SetCommandLine(String::new()))
    );
}

#[test]
fn a_mode_key_pressed_twice_comes_back_to_normal() {
    assert_eq!(Mode::Normal.toggled(Mode::Visual), Mode::Visual);
    assert_eq!(Mode::Visual.toggled(Mode::Visual), Mode::Normal);
    assert_eq!(Mode::Help.toggled(Mode::Visual), Mode::Visual);
}

#[test]
fn play_pause_twice_is_a_no_op() {
    for intent in [PlaybackIntent::Paused, PlaybackIntent::Playing] {
        assert_eq!(intent.toggled().toggled(), intent);
    }
}

#[test]
fn normalized_ranges_never_touch_and_cover_the_same_cells() {
    let selection = Selection(NonEmpty::from((
        range(60, 5, 7),
        vec![range(60, 0, 2), range(60, 3, 3), range(62, 0, 0), range(60, 10, 11)],
    )));
    let normalized = selection.normalized().ranges();
    assert_eq!(
        normalized,
        vec![range(60, 0, 3), range(60, 5, 7), range(60, 10, 11), range(62, 0, 0)]
    );
    for (i, a) in normalized.iter().enumerate() {
        for b in &normalized[i + 1..] {
            assert!(!a.touches(*b) && !b.touches(*a));
        }
    }
    for tick in 0..16 {
        for pitch in 58..64 {
            let p = at(tick, pitch);
            let before = selection.ranges().iter().any(|r| r.covers(p));
            let after = normalized.iter().any(|r| r.covers(p));
            assert_eq!(before, after);
        }
    }
}

#[test]
fn merging_touching_ranges_covers_exactly_their_union() {
    let a = range(60, 4, 2);
    let b = range(60, 5, 8);
    assert!(a.touches(b) && b.touches(a));
    let merged = a.merged(b);
    for tick in 0..12 {
        let p = at(tick, 60);
        assert_eq!(merged.covers(p), a.covers(p) || b.covers(p));
    }
}

#[test]
fn a_track_never_holds_two_overlapping_same_pitch_notes() {
    let mut track = Track::new();
    track.insert(at(0, 60), Length(4));
    track.insert(at(6, 60), Length(4));
    track.insert(at(3, 60), Length(4));
    for tick in 0..16 {
        let here = track.sounding_at(Tick(tick));
        let at_60 = here.iter().filter(|n| n.position.pitch == Pitch(60)).count();
        assert!(at_60 <= 1);
    }
    assert_eq!(track.remove(at(3, 60)), Some(Length(4)));
    assert_eq!(track.remove(at(3, 60)), None);
}

// --- exact values of formulas and edge cases ---

#[test]
fn a_range_longer_than_a_note_can_be_places_the_longest_note() {
    assert_eq!(range(60, 0, 1000).length(), Length(255));
    assert_eq!(range(60, 300, 45).length(), Length(255));
    assert_eq!(range(60, 10, 263).length(), Length(254));
}

#[test]
fn a_tiny_terminal_still_shows_one_row_and_one_column() {
    let viewport = Viewport::fit(0, 0);
    assert_eq!(viewport.ticks, Tick(0)..Tick(1));
    assert_eq!(*viewport.pitches.start(), Pitch(69));
    assert_eq!(*viewport.pitches.end(), Pitch(69));
}

#[test]
fn a_huge_terminal_shows_every_pitch_it_can() {
    let viewport = Viewport::fit(300, 1000);
    assert_eq!(viewport.ticks, Tick(0)..Tick(300));
    assert_eq!(*viewport.pitches.start(), Pitch(0));
    assert_eq!(*viewport.pitches.end(), Pitch(254));
}

#[test]
fn a_cloned_viewport_shows_the_same_window() {
    let viewport = Viewport::fit(40, 20);
    assert_eq!(viewport.clone(), viewport);
}

#[test]
fn moving_up_stops_at_the_highest_visible_row() {
    let viewport = Viewport::fit(16, 13); // rows 63..=74
    let mut editor = Editor::new();
    editor.update(Action::SetSelection(Selection::single(range(73, 0, 0))));
    let mut keymap = Keymap::default();
    for expected in [74, 74] {
        let action = keymap.feed(Key::Up, &editor, &viewport).unwrap();
        editor.update(action);
        assert_eq!(editor.selection.primary().pitch, Pitch(expected));
    }
    editor.update(Action::SetSelection(Selection::single(range(64, 0, 0))));
    for expected in [63, 63] {
        let action = keymap.feed(Key::Char('j'), &editor, &viewport).unwrap();
        editor.update(action);
        assert_eq!(editor.selection.primary().pitch, Pitch(expected));
    }
}

#[test]
fn moving_right_stops_at_the_last_visible_column() {
    let viewport = Viewport::fit(4, 13);
    let mut editor = Editor::new();
    let mut keymap = Keymap::default();
    for expected in [1, 2, 3, 3] {
        let action = keymap.feed(Key::Right, &editor, &viewport).unwrap();
        editor.update(action);
        assert_eq!(editor.selection.primary().head, Tick(expected));
    }
    let action = keymap.feed(Key::Char('h'), &editor, &viewport).unwrap();
    editor.update(action);
    assert_eq!(editor.selection.primary().head, Tick(2));
    let action = keymap.feed(Key::Char('g'), &editor, &viewport);
    assert!(action.is_none());
    let action = keymap.feed(Key::Char('e'), &editor, &viewport).unwrap();
    editor.update(action);
    assert_eq!(editor.selection.primary().head, Tick(3));
}

#[test]
fn note_jumps_follow_the_notes_on_the_cursor_row() {
    let viewport = Viewport::fit(32, 13);
    let mut editor = Editor::new();
    editor.update(Action::Playback(insert(0, 2, 69, 3))); // covers 2..=4
    editor.update(Action::Playback(insert(0, 8, 69, 2))); // covers 8..=9
    let mut keymap = Keymap::default();
    let jumps = [(Key::Char('e'), 4), (Key::Char('e'), 9), (Key::Char('e'), 9), (Key::Char('b'), 8), (Key::Char('b'), 2), (Key::Char('b'), 2)];
    for (key, expected) in jumps {
        let action = keymap.feed(key, &editor, &viewport).unwrap();
        editor.update(action);
        assert_eq!(editor.selection.primary().head, Tick(expected));
    }
}

#[test]
fn deleting_removes_every_note_starting_within_the_selection() {
    let viewport = Viewport::fit(32, 13);
    let mut editor = Editor::new();
    editor.update(Action::Playback(insert(0, 1, 69, 3)));
    editor.update(Action::Playback(insert(0, 5, 69, 1)));
    editor.update(Action::Playback(insert(0, 9, 69, 1)));
    editor.update(Action::SetSelection(Selection::single(range(69, 2, 6))));
    let mut keymap = Keymap::default();
    let action = keymap.feed(Key::Char('d'), &editor, &viewport).unwrap();
    assert_eq!(
        action,
        Action::Playback(PlaybackAction::RemoveNote {
            track: TrackId(0),
            at: at(5, 69),
        })
    );
    editor.update(Action::SetSelection(Selection::single(range(69, 0, 9))));
    let action = keymap.feed(Key::Char('d'), &editor, &viewport).unwrap();
    assert_eq!(
        action,
        Action::Playback(PlaybackAction::Batch(vec![
            PlaybackAction::RemoveNote { track: TrackId(0), at: at(1, 69) },
            PlaybackAction::RemoveNote { track: TrackId(0), at: at(5, 69) },
            PlaybackAction::RemoveNote { track: TrackId(0), at: at(9, 69) },
        ]))
    );
}

#[test]
fn a_key_that_continues_no_chord_cancels_the_pending_one() {
    let viewport = Viewport::fit(16, 13);
    let mut editor = Editor::new();
    editor.update(Action::SetSelection(Selection::single(range(69, 5, 5))));
    let mut keymap = Keymap::default();
    assert!(keymap.feed(Key::Char('g'), &editor, &viewport).is_none());
    assert!(keymap.feed(Key::Char('x'), &editor, &viewport).is_none());
    // Nothing is pending any more: a lone `l` moves right.
    let action = keymap.feed(Key::Char('l'), &editor, &viewport).unwrap();
    editor.update(action);
    assert_eq!(editor.selection.primary().head, Tick(6));
}

#[test]
fn space_toggles_playback_in_normal_mode() {
    let viewport = Viewport::fit(16, 13);
    let editor = Editor::new();
    let mut keymap = Keymap::default();
    assert_eq!(
        keymap.feed(Key::Char(' '), &editor, &viewport),
        Some(Action::Playback(PlaybackAction::SetPlaybackIntent(
            PlaybackIntent::Playing
        )))
    );
}

#[test]
fn a_selection_across_the_whole_tick_range_places_the_longest_note() {
    assert_eq!(range(60, 0, 65535).length(), Length(255));
    let mut editor = Editor::new();
    editor.update(Action::SetMode(Mode::Insert));
    editor.update(Action::SetSelection(Selection::single(range(69, 65535, 0))));
    let mut keymap = Keymap::default();
    let viewport = Viewport::fit(16, 13);
    assert_eq!(
        keymap.feed(Key::Char(' '), &editor, &viewport),
        Some(Action::Playback(insert(0, 0, 69, 255)))
    );
}

#[test]
fn labels_name_keys_as_the_help_shows_them() {
    assert_eq!(key_label(Key::Char(' ')), "Space");
    assert_eq!(key_label(Key::Char('x')), "x");
    assert_eq!(key_label(Key::Enter), "Enter");
    assert_eq!(keys_label(Command::GotoStart), "g g");
    assert_eq!(keys_label(Command::MoveDown), "j / ↓");
    assert_eq!(Command::Delete.keys(), vec![vec![Key::Char('d')]]);
    assert_eq!(text_commands(), vec![("q", "quit"), ("quit", "quit")]);
}

#[test]
fn the_help_overlay_lists_every_mode_and_the_command_line() {
    let lines = help_lines();
    assert_eq!(lines[0], "");
    assert_eq!(lines[1], " Normal");
    assert_eq!(lines[2], "   h / ←          move left");
    assert_eq!(lines[lines.len() - 3], " Command line (`:`, then Enter)");
    assert_eq!(lines[lines.len() - 1], "   quit           quit");
    // Four sections of a title, the bindings and a blank line, then the command line's lines.
    assert_eq!(lines.len(), 1 + (17 + 2) + (10 + 2) + (17 + 2) + (2 + 2) + 1 + 2);
}

#[test]
fn the_status_line_shows_the_mode_or_the_command_being_typed() {
    let mut editor = Editor::new();
    assert_eq!(status_line(&editor), "NORMAL");
    editor.update(Action::SetMode(Mode::Command));
    editor.update(Action::SetCommandLine("qu".to_string()));
    assert_eq!(status_line(&editor), ":qu");
}

#[test]
fn a_popup_is_centered_and_shrunk_to_fit() {
    let area = Area { x: 2, y: 1, width: 40, height: 10 };
    assert_eq!(centered(area, 20, 4), Area { x: 12, y: 4, width: 20, height: 4 });
    assert_eq!(centered(area, 50, 30), area);
}

#[test]
fn the_grid_marks_the_playhead_and_the_selection() {
    let viewport = Viewport::fit(4, 3); // pitches 68..=69, ticks 0..4
    let mut editor = Editor::new();
    editor.update(Action::SetSelection(Selection::single(range(69, 1, 2))));
    let cells = grid(&editor, Tick(3), &viewport);
    assert_eq!(cells.len(), 2);
    assert_eq!(cells[0].len(), 4);
    let selected: Vec<bool> = cells[0].iter().map(|c| c.selected).collect();
    assert_eq!(selected, vec![false, true, true, false]);
    assert!(cells[1].iter().all(|c| !c.selected && c.mark == Mark::Empty));
    let playhead: Vec<bool> = cells[1].iter().map(|c| c.playhead).collect();
    assert_eq!(playhead, vec![false, false, false, true]);
}

// --- the session ---

#[test]
fn the_playhead_follows_the_audio_side_only_while_playing() {
    let mut editor = Editor::new();
    editor.update(Action::Playback(PlaybackAction::Seek(Tick(4))));
    assert_eq!(playhead(&editor, Some(Tick(9))), Tick(4));
    editor.update(Action::Playback(PlaybackAction::SetPlaybackIntent(
        PlaybackIntent::Playing,
    )));
    assert_eq!(playhead(&editor, Some(Tick(9))), Tick(9));
    assert_eq!(playhead(&editor, None), Tick(4));
}

#[test]
fn a_key_press_hands_back_what_the_audio_side_must_replay() {
    let viewport = Viewport::fit(16, 13);
    let mut editor = Editor::new();
    let mut keymap = Keymap::default();
    match handle_key(&mut keymap, &mut editor, Key::Char('i'), &viewport) {
        Outcome::Continue(None) => {}
        other => panic!("unexpected {other:?}"),
    }
    assert_eq!(editor.mode, Mode::Insert);
    match handle_key(&mut keymap, &mut editor, Key::Char(' '), &viewport) {
        Outcome::Continue(Some(action)) => assert_eq!(action, insert(0, 0, 69, 1)),
        other => panic!("unexpected {other:?}"),
    }
    handle_key(&mut keymap, &mut editor, Key::Esc, &viewport);
    match handle_key(&mut keymap, &mut editor, Key::Char('u'), &viewport) {
        Outcome::Continue(Some(action)) => assert_eq!(
            action,
            PlaybackAction::RemoveNote {
                track: TrackId(0),
                at: at(0, 69)
            }
        ),
        other => panic!("unexpected {other:?}"),
    }
    for key in [Key::Char(':'), Key::Char('q')] {
        handle_key(&mut keymap, &mut editor, key, &viewport);
    }
    assert!(matches!(
        handle_key(&mut keymap, &mut editor, Key::Enter, &viewport),
        Outcome::Quit
    ));
    assert_eq!(editor.mode, Mode::Command);
}

// --- playback and its tracks ---

#[test]
fn a_cloned_playback_keeps_its_notes_apart_from_its_source() {
    let mut playback = Playback::new();
    playback.apply(&insert(0, 0, 60, 4));
    let copy = playback.clone();
    playback.apply(&insert(0, 8, 62, 2));
    assert_eq!(notes_of(&copy).len(), 4);
    assert_eq!(notes_of(&playback).len(), 6);
}

#[test]
fn only_actions_naming_existing_tracks_are_accepted() {
    let mut playback = Playback::new();
    assert!(playback.accepts(&insert(0, 0, 60, 1)));
    assert!(!playback.accepts(&insert(1, 0, 60, 1)));
    assert!(!playback.accepts(&PlaybackAction::Batch(vec![
        insert(0, 0, 60, 1),
        PlaybackAction::RemoveNote { track: TrackId(3), at: at(0, 60) },
    ])));
    playback.tracks.push(Track::new());
    assert!(playback.accepts(&insert(1, 0, 60, 1)));
    assert!(playback.accepts(&PlaybackAction::Seek(Tick(2))));
}

#[test]
fn batching_nothing_is_nothing_and_one_action_stays_unwrapped() {
    assert_eq!(PlaybackAction::batch(vec![]), None);
    assert_eq!(
        PlaybackAction::batch(vec![PlaybackAction::Seek(Tick(1))]),
        Some(PlaybackAction::Seek(Tick(1)))
    );
}

// --- voices ---

#[test]
fn nothing_sounds_while_paused() {
    let mut playback = Playback::new();
    playback.apply(&insert(0, 0, 60, 4));
    assert!(sounding_voices(&playback).is_empty());
}

#[test]
fn every_track_sounds_together() {
    let mut playback = Playback::new();
    playback.tracks.push(Track::new());
    playback.apply(&insert(0, 0, 60, 4));
    playback.apply(&insert(1, 0, 64, 4));
    playback.apply(&PlaybackAction::SetPlaybackIntent(PlaybackIntent::Playing));
    assert_eq!(sounding_voices(&playback), vec![voice(0, 60, 0), voice(1, 64, 0)]);
}

#[test]
fn adjacent_same_pitch_notes_are_two_voices() {
    let mut playback = Playback::new();
    playback.apply(&insert(0, 0, 60, 2));
    playback.apply(&insert(0, 2, 60, 2));
    playback.apply(&PlaybackAction::SetPlaybackIntent(PlaybackIntent::Playing));
    let first = sounding_voices(&playback);
    playback.apply(&PlaybackAction::Seek(Tick(2)));
    let second = sounding_voices(&playback);
    assert_eq!(first, vec![voice(0, 60, 0)]);
    assert_eq!(second, vec![voice(0, 60, 2)]);

    // Crossing into the second note: the first voice fades out (still audible, so kept), and the
    // second note gets a voice of its own.
    let plan = plan_voices(&first, &vec![true], &second);
    assert_eq!(plan.sustained, vec![false]);
    assert_eq!(plan.kept, vec![true]);
    assert_eq!(plan.spawned, vec![voice(0, 60, 2)]);
}

#[test]
fn silent_fading_voices_are_dropped_and_sounding_ones_sustained() {
    let voices = vec![voice(0, 60, 0), voice(0, 62, 0), voice(0, 60, 0)];
    let sounding = vec![voice(0, 60, 0), voice(0, 64, 1), voice(0, 64, 1)];
    let plan = plan_voices(&voices, &vec![false, false, true], &sounding);
    // Only the first voice rendering a note is sustained.
    assert_eq!(plan.sustained, vec![true, false, false]);
    assert_eq!(plan.kept, vec![true, false, true]);
    assert_eq!(plan.spawned, vec![voice(0, 64, 1)]);
}

// --- the edges of the tick range, and undo over a note starting at the same tick ---

#[test]
fn undoing_an_insert_at_an_occupied_start_restores_the_replaced_note() {
    let mut playback = Playback::new();
    playback.apply(&insert(0, 0, 60, 4));
    let inverse = playback.apply(&insert(0, 0, 60, 2)).unwrap();
    assert_eq!(
        inverse,
        PlaybackAction::Batch(vec![
            PlaybackAction::RemoveNote { track: TrackId(0), at: at(0, 60) },
            insert(0, 0, 60, 4),
        ])
    );
    playback.apply(&inverse);
    assert_eq!(playback.track(TrackId(0)).sounding_at(Tick(3)).len(), 1);
    assert_eq!(notes_of(&playback), vec![(0, 60, 4), (0, 60, 4), (0, 60, 4), (0, 60, 4)]);
}

#[test]
fn undo_then_redo_of_an_insert_at_an_occupied_start_round_trips() {
    let mut editor = Editor::new();
    editor.update(Action::Playback(insert(0, 0, 60, 4)));
    let before = notes_of(&editor.playback);
    editor.update(Action::Playback(insert(0, 0, 60, 2)));
    let after = notes_of(&editor.playback);
    editor.update(Action::Undo);
    assert_eq!(notes_of(&editor.playback), before);
    editor.update(Action::Redo);
    assert_eq!(notes_of(&editor.playback), after);
}

#[test]
fn a_note_ending_on_the_last_tick_covers_it() {
    let last = Note {
        position: at(65535, 60),
        length: Length(1),
    };
    assert_eq!(last.end(), Tick(65535));
    assert!(last.covers(Tick(65535)));
    let longer = Note {
        position: at(65530, 60),
        length: Length(6),
    };
    assert_eq!(longer.end(), Tick(65535));
    let past = Note {
        position: at(65530, 60),
        length: Length(20),
    };
    assert_eq!(past.end(), Tick(65535));
    let first = Note {
        position: at(0, 60),
        length: Length(2),
    };
    assert_eq!(first.end(), Tick(1));
}

#[test]
fn inserting_at_the_end_of_the_tick_range_replaces_what_it_overlaps() {
    let mut track = Track::new();
    track.insert(at(65535, 60), Length(1));
    assert_eq!(track.sounding_at(Tick(65535)).len(), 1);
    let removed = track.insert(at(65534, 60), Length(2));
    assert_eq!(
        removed,
        vec![Note {
            position: at(65535, 60),
            length: Length(1)
        }]
    );
    assert_eq!(track.sounding_at(Tick(65535)).len(), 1);
    assert_eq!(track.previous_note_start(Pitch(60), Tick(65535)), Some(Tick(65534)));
}

#[test]
fn a_pattern_note_on_the_last_tick_sounds_there() {
    let mut pattern = Pattern::new(Tick(16));
    pattern.insert(at(65535, 60), Length(1));
    assert_eq!(pattern.sounding_at(Tick(65535)).len(), 1);
    let removed = pattern.insert(at(65534, 60), Length(2));
    assert_eq!(removed, vec![(at(65535, 60), Length(1))]);
    assert_eq!(pattern.length, Tick(16));
}

#[test]
fn normalizing_twice_changes_nothing() {
    let selection = Selection(NonEmpty::from((
        range(61, 4, 2),
        vec![range(60, 3, 5), range(60, 0, 2), range(61, 9, 9)],
    )));
    let once = selection.normalized();
    let twice = once.normalized();
    assert_eq!(twice.ranges(), once.ranges());
    assert_eq!(
        once.ranges(),
        vec![range(60, 0, 5), range(61, 4, 2), range(61, 9, 9)]
    );
}

#[test]
fn an_empty_batch_is_not_accepted() {
    let playback = Playback::new();
    assert!(!playback.accepts(&PlaybackAction::Batch(vec![])));
    assert_eq!(playback.track_count(), 1);
}
