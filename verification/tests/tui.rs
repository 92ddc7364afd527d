use osti::keymap::{bindings, keys_label, Command};
use osti::screen::{grid, Mark};
use osti::{
    Action, Editor, Key, Keymap, Length, Mode, Pitch, PlaybackAction, Position, Range, Selection,
    Tick, TrackId, Viewport,
};

fn feed(keymap: &mut Keymap, editor: &Editor, key: Key) -> Option<Action> {
    let viewport = Viewport::fit(16, 13);
    keymap.feed(key, editor, &viewport)
}

#[test]
fn viewport_fits_the_given_size_centered_on_a4() {
    let viewport = Viewport::fit(16, 13);
    assert_eq!(viewport.ticks, Tick(0)..Tick(16));
    assert_eq!(viewport.pitches.start().0, Pitch::a4().0 - 6);
    assert_eq!(viewport.pitches.end().0, Pitch::a4().0 + 5);
}

#[test]
fn a_note_marker_shows_its_start_distinctly_from_its_body() {
    let mut editor = Editor::new();
    editor.update(Action::Playback(PlaybackAction::InsertNote {
        track: TrackId(0),
        at: Position {
            tick: Tick(2),
            pitch: Pitch::a4(),
        },
        length: Length(3),
    }));
    let viewport = Viewport::fit(8, 13);
    let a4_row = usize::from(viewport.pitches.end().0 - Pitch::a4().0);

    let cells = grid(&editor, Tick(0), &viewport);

    assert_eq!(cells[a4_row][2].mark, Mark::NoteStart);
    assert_eq!(cells[a4_row][3].mark, Mark::NoteBody);
    assert_eq!(cells[a4_row][4].mark, Mark::NoteBody);
    assert_eq!(cells[a4_row][5].mark, Mark::Empty);
}

#[test]
fn adjacent_same_pitch_notes_both_show_a_start_marker() {
    let mut editor = Editor::new();
    editor.update(Action::Playback(PlaybackAction::InsertNote {
        track: TrackId(0),
        at: Position {
            tick: Tick(0),
            pitch: Pitch::a4(),
        },
        length: Length(2),
    }));
    editor.update(Action::Playback(PlaybackAction::InsertNote {
        track: TrackId(0),
        at: Position {
            tick: Tick(2),
            pitch: Pitch::a4(),
        },
        length: Length(2),
    }));
    let viewport = Viewport::fit(8, 13);
    let a4_row = usize::from(viewport.pitches.end().0 - Pitch::a4().0);

    let cells = grid(&editor, Tick(10), &viewport); // playhead elsewhere

    assert_eq!(
        (0..4).map(|x| cells[a4_row][x].mark).collect::<Vec<_>>(),
        vec![Mark::NoteStart, Mark::NoteBody, Mark::NoteStart, Mark::NoteBody],
    );
}

#[test]
fn a_single_g_is_pending_gg_moves_the_cursor_to_the_start() {
    let mut editor = Editor::new();
    editor.update(Action::SetSelection(Selection::single(Range::at(Position {
        tick: Tick(5),
        pitch: Pitch::a4(),
    }))));
    let mut keymap = Keymap::default();

    assert!(feed(&mut keymap, &editor, Key::Char('g')).is_none());
    let action = feed(&mut keymap, &editor, Key::Char('g')).unwrap();
    editor.update(action);

    assert_eq!(editor.selection.primary().head, Tick(0));
}

#[test]
fn visual_mode_extends_instead_of_moving() {
    let mut editor = Editor::new();
    editor.update(Action::SetMode(Mode::Visual));
    let mut keymap = Keymap::default();

    let action = feed(&mut keymap, &editor, Key::Char('l')).unwrap();
    editor.update(action);

    let range = editor.selection.primary();
    assert_eq!(range.anchor, Tick(0)); // unchanged
    assert_eq!(range.head, Tick(1)); // moved
}

#[test]
fn selecting_a_span_in_visual_mode_then_inserting_places_a_note_that_length() {
    // Select a span, `i` straight from visual mode (no need to leave it first), `Space` places
    // one note the whole span long.
    let mut editor = Editor::new();
    editor.update(Action::SetMode(Mode::Visual));
    let mut keymap = Keymap::default();

    let extend = feed(&mut keymap, &editor, Key::Char('l')).unwrap();
    editor.update(extend);
    let enter_insert = feed(&mut keymap, &editor, Key::Char('i')).unwrap();
    editor.update(enter_insert);
    let place = feed(&mut keymap, &editor, Key::Char(' ')).unwrap();

    assert_eq!(
        place,
        Action::Playback(PlaybackAction::InsertNote {
            track: TrackId(0),
            at: Position {
                tick: Tick(0),
                pitch: Pitch::a4(),
            },
            length: Length(2),
        })
    );
}

#[test]
fn space_places_a_note_in_insert_mode_but_not_normal_mode() {
    let mut editor = Editor::new();
    let mut keymap = Keymap::default();
    assert!(feed(&mut keymap, &editor, Key::Char(' ')).is_some()); // play/pause in normal mode

    editor.update(Action::SetMode(Mode::Insert));
    let action = feed(&mut keymap, &editor, Key::Char(' ')).unwrap();

    assert!(matches!(
        action,
        Action::Playback(PlaybackAction::InsertNote { .. })
    ));
}

#[test]
fn ctrl_c_does_not_quit_and_quitting_needs_the_command_line() {
    let mut editor = Editor::new();
    let mut keymap = Keymap::default();
    let viewport = Viewport::fit(16, 13);

    // Modifiers play no part in any binding: Ctrl-C is just `c`, which is bound to nothing.
    let ctrl_c = Key::Char('c');
    assert_eq!(keymap.feed(ctrl_c, &editor, &viewport), None);

    let enter_command = feed(&mut keymap, &editor, Key::Char(':')).unwrap();
    editor.update(enter_command);
    for c in "quit".chars() {
        let action = feed(&mut keymap, &editor, Key::Char(c)).unwrap();
        editor.update(action);
    }
    assert_eq!(feed(&mut keymap, &editor, Key::Enter), Some(Action::Quit));
}

#[test]
fn deleting_an_empty_cell_does_nothing() {
    let editor = Editor::new();
    let mut keymap = Keymap::default();
    assert!(feed(&mut keymap, &editor, Key::Char('d')).is_none());
}

#[test]
fn enter_seeks_the_transport_to_the_cursor() {
    let mut editor = Editor::new();
    editor.update(Action::SetSelection(Selection::single(Range::at(Position {
        tick: Tick(3),
        pitch: Pitch::a4(),
    }))));
    let mut keymap = Keymap::default();

    let action = feed(&mut keymap, &editor, Key::Enter).unwrap();

    assert_eq!(action, Action::Playback(PlaybackAction::Seek(Tick(3))));
}

#[test]
fn question_mark_opens_and_closes_help() {
    let mut editor = Editor::new();
    let mut keymap = Keymap::default();

    let open = feed(&mut keymap, &editor, Key::Char('?')).unwrap();
    editor.update(open);
    assert_eq!(editor.mode, Mode::Help);

    let close = feed(&mut keymap, &editor, Key::Char('?')).unwrap();
    editor.update(close);
    assert_eq!(editor.mode, Mode::Normal);
}

#[test]
fn short_and_long_quit_commands_both_quit() {
    for word in ["q", "quit"] {
        let mut editor = Editor::new();
        let mut keymap = Keymap::default();
        let open = feed(&mut keymap, &editor, Key::Char(':')).unwrap();
        editor.update(open);
        for c in word.chars() {
            let action = feed(&mut keymap, &editor, Key::Char(c)).unwrap();
            editor.update(action);
        }
        assert_eq!(feed(&mut keymap, &editor, Key::Enter), Some(Action::Quit));
    }
}

#[test]
fn the_help_overlay_is_generated_from_the_same_bindings_that_dispatch() {
    assert!(bindings(Mode::Normal).contains(&Command::MoveLeft));
    assert_eq!(keys_label(Command::MoveLeft), "h / ←");
    assert_eq!(Command::MoveLeft.description(), "move left");
}
