//! Keys, the commands they reach in each mode, and how a pending key sequence resolves into an
//! [`Action`].
//!
//! Everything handed back is plain data from the core model, decoupled from which physical keys
//! produced it; the terminal's own key events are turned into [`Key`] at the edge.

use vstd::prelude::*;
use vstd::string::*;

use crate::action::Action;
use crate::editor::{playback_part, Editor};
use crate::mode::Mode;
use crate::pitch::Pitch;
use crate::playback::{
    collapsed, lemma_valid_actions_all, track_items, valid_action, valid_actions, PlaybackAction, TrackId,
};
use crate::range::Range;
use crate::selection::Selection;
use crate::time::{Length, Tick};
use crate::track::{
    lists_positions, next_end_is, previous_start_is, starting_within, Position, Track,
};
use crate::viewport::{highest_of, lowest_of, Viewport};

verus! {

/// A key, as far as the bindings tell keys apart — modifiers play no part in any binding.
#[derive(Debug, Clone, Copy, PartialEq, Eq, Structural)]
pub enum Key {
    /// A character key.
    Char(char),
    /// The left arrow.
    Left,
    /// The right arrow.
    Right,
    /// The up arrow.
    Up,
    /// The down arrow.
    Down,
    /// Escape.
    Esc,
    /// Enter.
    Enter,
    /// Backspace.
    Backspace,
    /// Any other key: bound to nothing.
    Other,
}

/// Every keyboard-reachable operation, and the key sequences (per mode) that reach it.
///
/// One table is the source for both dispatch and the help overlay's text, so the two can't drift
/// apart.
#[derive(Debug, Clone, Copy, PartialEq, Eq, Structural)]
pub enum Command {
    /// One tick earlier.
    MoveLeft,
    /// One tick later.
    MoveRight,
    /// One pitch higher.
    MoveUp,
    /// One pitch lower.
    MoveDown,
    /// To the start of the previous note on the cursor's row.
    PreviousNote,
    /// To the end of the next note on the cursor's row.
    NextNote,
    /// To the first tick.
    GotoStart,
    /// To the last visible tick.
    GotoEnd,
    /// Into insert mode.
    EnterInsert,
    /// Into visual mode, or back out of it.
    ToggleVisual,
    /// Onto the `:` command line.
    OpenCommandLine,
    /// Show the keybinding help, or hide it again.
    ToggleHelp,
    /// Delete the notes starting under the selection.
    Delete,
    /// Undo the most recent edit.
    Undo,
    /// Redo the most recently undone edit.
    Redo,
    /// Start or pause the transport.
    PlayPause,
    /// Move the transport to the cursor.
    SeekHere,
    /// Place a note over each range of the selection.
    PlaceNote,
    /// Back to normal mode.
    Leave,
}

/// The key sequences that trigger `c` — a chord is one sequence; several sequences are
/// alternatives (e.g. `h` or `←`).
pub open spec fn chords(c: Command) -> Seq<Seq<Key>> {
    match c {
        Command::MoveLeft => seq![seq![Key::Char('h')], seq![Key::Left]],
        Command::MoveRight => seq![seq![Key::Char('l')], seq![Key::Right]],
        Command::MoveUp => seq![seq![Key::Char('k')], seq![Key::Up]],
        Command::MoveDown => seq![seq![Key::Char('j')], seq![Key::Down]],
        Command::PreviousNote => seq![seq![Key::Char('b')]],
        Command::NextNote => seq![seq![Key::Char('e')]],
        Command::GotoStart => seq![seq![Key::Char('g'), Key::Char('g')]],
        Command::GotoEnd => seq![seq![Key::Char('g'), Key::Char('e')]],
        Command::EnterInsert => seq![seq![Key::Char('i')]],
        Command::ToggleVisual => seq![seq![Key::Char('v')]],
        Command::OpenCommandLine => seq![seq![Key::Char(':')]],
        Command::ToggleHelp => seq![seq![Key::Char('?')]],
        Command::Delete => seq![seq![Key::Char('d')]],
        Command::Undo => seq![seq![Key::Char('u')]],
        Command::Redo => seq![seq![Key::Char('U')]],
        Command::PlayPause => seq![seq![Key::Char(' ')]],
        Command::PlaceNote => seq![seq![Key::Char(' ')]],
        Command::SeekHere => seq![seq![Key::Enter]],
        Command::Leave => seq![seq![Key::Esc]],
    }
}

impl Command {
    /// The key sequences that trigger this command — see [`chords`].
    pub fn keys(self) -> (v: Vec<Vec<Key>>)
        ensures
            v@.len() == chords(self).len(),
            forall|i: int| 0 <= i < v@.len() ==> #[trigger] v@[i]@ == chords(self)[i],
    {
        let v = match self {
            Command::MoveLeft => vec![vec![Key::Char('h')], vec![Key::Left]],
            Command::MoveRight => vec![vec![Key::Char('l')], vec![Key::Right]],
            Command::MoveUp => vec![vec![Key::Char('k')], vec![Key::Up]],
            Command::MoveDown => vec![vec![Key::Char('j')], vec![Key::Down]],
            Command::PreviousNote => vec![vec![Key::Char('b')]],
            Command::NextNote => vec![vec![Key::Char('e')]],
            Command::GotoStart => vec![vec![Key::Char('g'), Key::Char('g')]],
            Command::GotoEnd => vec![vec![Key::Char('g'), Key::Char('e')]],
            Command::EnterInsert => vec![vec![Key::Char('i')]],
            Command::ToggleVisual => vec![vec![Key::Char('v')]],
            Command::OpenCommandLine => vec![vec![Key::Char(':')]],
            Command::ToggleHelp => vec![vec![Key::Char('?')]],
            Command::Delete => vec![vec![Key::Char('d')]],
            Command::Undo => vec![vec![Key::Char('u')]],
            Command::Redo => vec![vec![Key::Char('U')]],
            Command::PlayPause | Command::PlaceNote => vec![vec![Key::Char(' ')]],
            Command::SeekHere => vec![vec![Key::Enter]],
            Command::Leave => vec![vec![Key::Esc]],
        };
        assert(v@.len() == chords(self).len());
        v
    }
}

/// A one-line description of `c`, as the help overlay shows it.
pub open spec fn described(c: Command) -> Seq<char> {
    match c {
        Command::MoveLeft => "move left"@,
        Command::MoveRight => "move right"@,
        Command::MoveUp => "move up (higher pitch)"@,
        Command::MoveDown => "move down (lower pitch)"@,
        Command::PreviousNote => "jump to the previous note"@,
        Command::NextNote => "jump to the next note"@,
        Command::GotoStart => "go to the start"@,
        Command::GotoEnd => "go to the end of what's visible"@,
        Command::EnterInsert => "insert mode"@,
        Command::ToggleVisual => "visual mode (movement extends the selection)"@,
        Command::OpenCommandLine => "command line"@,
        Command::ToggleHelp => "toggle this help"@,
        Command::Delete => "delete the note(s) at the cursor"@,
        Command::Undo => "undo"@,
        Command::Redo => "redo"@,
        Command::PlayPause => "play / pause"@,
        Command::SeekHere => "seek the transport to the cursor"@,
        Command::PlaceNote => "place a note"@,
        Command::Leave => "back to normal mode"@,
    }
}

/// The commands bound in `mode`, in the order the help overlay lists them and dispatch tries
/// them.
pub open spec fn bound_commands(mode: Mode) -> Seq<Command> {
    match mode {
        // Normal mode: movement, mode switches, edits, undo and the transport.
        Mode::Normal => seq![
            Command::MoveLeft,
            Command::MoveRight,
            Command::MoveUp,
            Command::MoveDown,
            Command::PreviousNote,
            Command::NextNote,
            Command::GotoStart,
            Command::GotoEnd,
            Command::EnterInsert,
            Command::ToggleVisual,
            Command::OpenCommandLine,
            Command::ToggleHelp,
            Command::Delete,
            Command::Undo,
            Command::Redo,
            Command::PlayPause,
            Command::SeekHere,
        ],
        // Insert mode: still movement, plus placing a note and leaving.
        Mode::Insert => seq![
            Command::MoveLeft,
            Command::MoveRight,
            Command::MoveUp,
            Command::MoveDown,
            Command::PreviousNote,
            Command::NextNote,
            Command::GotoStart,
            Command::GotoEnd,
            Command::PlaceNote,
            Command::Leave,
        ],
        // Visual mode: the same as normal mode, but movement extends instead of moving — plus
        // leaving, either way (`v` again, like entering it, or `Esc`).
        Mode::Visual => seq![
            Command::MoveLeft,
            Command::MoveRight,
            Command::MoveUp,
            Command::MoveDown,
            Command::PreviousNote,
            Command::NextNote,
            Command::GotoStart,
            Command::GotoEnd,
            Command::EnterInsert,
            Command::OpenCommandLine,
            Command::Delete,
            Command::Undo,
            Command::Redo,
            Command::PlayPause,
            Command::SeekHere,
            Command::ToggleVisual,
            Command::Leave,
        ],
        // Help mode's only commands: close it, either way (`?` again, like opening it, or `Esc`).
        Mode::Help => seq![Command::ToggleHelp, Command::Leave],
        // The command line is free-text typing, not chord matching.
        Mode::Command => Seq::<Command>::empty(),
    }
}

impl Command {
    /// A one-line description, used only by the help overlay.
    pub fn description(self) -> (s: &'static str)
        ensures
            s@ == described(self),
    {
        match self {
            Command::MoveLeft => "move left",
            Command::MoveRight => "move right",
            Command::MoveUp => "move up (higher pitch)",
            Command::MoveDown => "move down (lower pitch)",
            Command::PreviousNote => "jump to the previous note",
            Command::NextNote => "jump to the next note",
            Command::GotoStart => "go to the start",
            Command::GotoEnd => "go to the end of what's visible",
            Command::EnterInsert => "insert mode",
            Command::ToggleVisual => "visual mode (movement extends the selection)",
            Command::OpenCommandLine => "command line",
            Command::ToggleHelp => "toggle this help",
            Command::Delete => "delete the note(s) at the cursor",
            Command::Undo => "undo",
            Command::Redo => "redo",
            Command::PlayPause => "play / pause",
            Command::SeekHere => "seek the transport to the cursor",
            Command::PlaceNote => "place a note",
            Command::Leave => "back to normal mode",
        }
    }
}

/// The commands each mode binds — see [`bound_commands`].
pub fn bindings(mode: Mode) -> (v: Vec<Command>)
    ensures
        v@ == bound_commands(mode),
{
    match mode {
        Mode::Normal => vec![
            Command::MoveLeft,
            Command::MoveRight,
            Command::MoveUp,
            Command::MoveDown,
            Command::PreviousNote,
            Command::NextNote,
            Command::GotoStart,
            Command::GotoEnd,
            Command::EnterInsert,
            Command::ToggleVisual,
            Command::OpenCommandLine,
            Command::ToggleHelp,
            Command::Delete,
            Command::Undo,
            Command::Redo,
            Command::PlayPause,
            Command::SeekHere,
        ],
        Mode::Insert => vec![
            Command::MoveLeft,
            Command::MoveRight,
            Command::MoveUp,
            Command::MoveDown,
            Command::PreviousNote,
            Command::NextNote,
            Command::GotoStart,
            Command::GotoEnd,
            Command::PlaceNote,
            Command::Leave,
        ],
        Mode::Visual => vec![
            Command::MoveLeft,
            Command::MoveRight,
            Command::MoveUp,
            Command::MoveDown,
            Command::PreviousNote,
            Command::NextNote,
            Command::GotoStart,
            Command::GotoEnd,
            Command::EnterInsert,
            Command::OpenCommandLine,
            Command::Delete,
            Command::Undo,
            Command::Redo,
            Command::PlayPause,
            Command::SeekHere,
            Command::ToggleVisual,
            Command::Leave,
        ],
        Mode::Help => vec![Command::ToggleHelp, Command::Leave],
        Mode::Command => Vec::new(),
    }
}

/// `String::push`: appends `c` at the end of `text`.
#[verifier::external_body]
pub(crate) fn push_char(text: &mut String, c: char)
    ensures
        final(text)@ == old(text)@.push(c),
{
    text.push(c);
}

/// How the help overlay names key `k`.
pub open spec fn key_text(k: Key) -> Seq<char> {
    match k {
        Key::Char(c) => if c == ' ' { "Space"@ } else { seq![c] },
        Key::Left => "←"@,
        Key::Right => "→"@,
        Key::Up => "↑"@,
        Key::Down => "↓"@,
        Key::Esc => "Esc"@,
        Key::Enter => "Enter"@,
        Key::Backspace => "Backspace"@,
        Key::Other => "Other"@,
    }
}

/// `parts` joined into one text, `separator` between each two.
pub open spec fn joined(parts: Seq<Seq<char>>, separator: Seq<char>) -> Seq<char>
    decreases parts.len(),
{
    if parts.len() == 0 {
        Seq::empty()
    } else if parts.len() == 1 {
        parts[0]
    } else {
        joined(parts.drop_last(), separator) + separator + parts.last()
    }
}

/// How the help overlay names a chord: its keys, space-separated.
pub open spec fn chord_text(keys: Seq<Key>) -> Seq<char> {
    joined(keys.map_values(|k: Key| key_text(k)), " "@)
}

/// How the help overlay names every chord reaching `c`: each chord, ` / `-separated.
pub open spec fn keys_text(c: Command) -> Seq<char> {
    joined(chords(c).map_values(|keys: Seq<Key>| chord_text(keys)), " / "@)
}

/// Joining one more part onto a prefix appends the separator and the part.
proof fn lemma_joined_push(parts: Seq<Seq<char>>, separator: Seq<char>, i: int)
    requires
        0 <= i < parts.len(),
    ensures
        joined(parts.take(i + 1), separator) == (if i == 0 {
            parts[0]
        } else {
            joined(parts.take(i), separator) + separator + parts[i]
        }),
{
    assert(parts.take(i + 1).drop_last() =~= parts.take(i));
}

/// The help overlay's name for one key.
pub fn key_label(key: Key) -> (s: String)
    ensures
        s@ == key_text(key),
{
    match key {
        Key::Char(c) => if c == ' ' {
            String::from_str("Space")
        } else {
            let mut s = String::new();
            push_char(&mut s, c);
            assert(s@ =~= seq![c]);
            s
        },
        Key::Left => String::from_str("←"),
        Key::Right => String::from_str("→"),
        Key::Up => String::from_str("↑"),
        Key::Down => String::from_str("↓"),
        Key::Esc => String::from_str("Esc"),
        Key::Enter => String::from_str("Enter"),
        Key::Backspace => String::from_str("Backspace"),
        Key::Other => String::from_str("Other"),
    }
}

/// The help overlay's name for one chord: its keys, space-separated.
fn chord_label(keys: &Vec<Key>) -> (s: String)
    ensures
        s@ == chord_text(keys@),
{
    let ghost parts = keys@.map_values(|k: Key| key_text(k));
    let mut s = String::new();
    let mut i: usize = 0;
    while i < keys.len()
        invariant
            i <= keys.len(),
            parts == keys@.map_values(|k: Key| key_text(k)),
            s@ == joined(parts.take(i as int), " "@),
        decreases keys.len() - i,
    {
        proof {
            lemma_joined_push(parts, " "@, i as int);
        }
        if i > 0 {
            s.append(" ");
        }
        let label = key_label(keys[i]);
        s.append(label.as_str());
        i = i + 1;
    }
    assert(parts.take(keys@.len() as int) =~= parts);
    s
}

/// The help overlay's name for every chord reaching `command`, ` / `-separated — `"h / ←"` for
/// [`Command::MoveLeft`].
pub fn keys_label(command: Command) -> (s: String)
    ensures
        s@ == keys_text(command),
{
    let chords_of = command.keys();
    let ghost parts = chords(command).map_values(|keys: Seq<Key>| chord_text(keys));
    let mut s = String::new();
    let mut i: usize = 0;
    while i < chords_of.len()
        invariant
            i <= chords_of.len(),
            chords_of@.len() == chords(command).len(),
            forall|j: int| 0 <= j < chords_of@.len() ==> #[trigger] chords_of@[j]@ == chords(command)[j],
            parts == chords(command).map_values(|keys: Seq<Key>| chord_text(keys)),
            s@ == joined(parts.take(i as int), " / "@),
        decreases chords_of.len() - i,
    {
        proof {
            lemma_joined_push(parts, " / "@, i as int);
        }
        if i > 0 {
            s.append(" / ");
        }
        let label = chord_label(&chords_of[i]);
        s.append(label.as_str());
        i = i + 1;
    }
    assert(parts.take(chords_of@.len() as int) =~= parts);
    s
}

/// Whether the key sequence `codes` is exactly one of the chords reaching `c`.
pub open spec fn binds(c: Command, codes: Seq<Key>) -> bool {
    chords(c).contains(codes)
}

/// Whether the key sequence `codes` is the beginning of a longer chord reaching `c`.
pub open spec fn extends(c: Command, codes: Seq<Key>) -> bool {
    exists|j: int|
        0 <= j < chords(c).len() && #[trigger] chords(c)[j].len() > codes.len() && chords(c)[j].subrange(
            0,
            codes.len() as int,
        ) == codes
}

/// The first of `commands` that `codes` reaches exactly, if any.
pub open spec fn first_bound(codes: Seq<Key>, commands: Seq<Command>) -> Option<Command>
    decreases commands.len(),
{
    if commands.len() == 0 {
        None
    } else if binds(commands[0], codes) {
        Some(commands[0])
    } else {
        first_bound(codes, commands.drop_first())
    }
}

/// Whether a pending sequence of keys matches a command exactly, could still extend to one, or
/// matches nothing.
#[derive(Debug, Clone, Copy, PartialEq, Eq, Structural)]
pub enum Match {
    /// These keys complete this command's chord.
    Exact(Command),
    /// These keys begin a longer chord: wait for more.
    Prefix,
    /// These keys neither complete nor begin any chord.
    Unbound,
}

/// How `codes` matches against `commands`: the first command it completes, else whether it
/// begins any longer chord.
pub open spec fn matched(codes: Seq<Key>, commands: Seq<Command>) -> Match {
    match first_bound(codes, commands) {
        Some(c) => Match::Exact(c),
        None => if exists|i: int| 0 <= i < commands.len() && #[trigger] extends(commands[i], codes) {
            Match::Prefix
        } else {
            Match::Unbound
        },
    }
}

/// Whether two key sequences are the same.
fn same_keys(a: &Vec<Key>, b: &Vec<Key>) -> (r: bool)
    ensures
        r == (a@ == b@),
{
    if a.len() != b.len() {
        return false;
    }
    let mut i: usize = 0;
    while i < a.len()
        invariant
            a@.len() == b@.len(),
            i <= a.len(),
            forall|k: int| 0 <= k < i ==> a@[k] == b@[k],
        decreases a.len() - i,
    {
        if a[i] != b[i] {
            return false;
        }
        i = i + 1;
    }
    assert(a@ =~= b@);
    true
}

/// Whether `chord` is longer than `codes` and begins with it.
fn begins_with(chord: &Vec<Key>, codes: &Vec<Key>) -> (r: bool)
    ensures
        r == (chord@.len() > codes@.len() && chord@.subrange(0, codes@.len() as int) == codes@),
{
    if chord.len() <= codes.len() {
        return false;
    }
    let mut i: usize = 0;
    while i < codes.len()
        invariant
            chord@.len() > codes@.len(),
            i <= codes.len(),
            forall|k: int| 0 <= k < i ==> chord@[k] == codes@[k],
        decreases codes.len() - i,
    {
        if chord[i] != codes[i] {
            assert(chord@.subrange(0, codes@.len() as int)[i as int] != codes@[i as int]);
            return false;
        }
        i = i + 1;
    }
    assert(chord@.subrange(0, codes@.len() as int) =~= codes@);
    true
}

/// How `codes` matches against `commands` — see [`matched`].
pub fn match_commands(codes: &Vec<Key>, commands: &Vec<Command>) -> (r: Match)
    ensures
        r == matched(codes@, commands@),
{
    let mut i: usize = 0;
    assert(commands@.subrange(0, commands@.len() as int) =~= commands@);
    while i < commands.len()
        invariant
            i <= commands.len(),
            first_bound(codes@, commands@) == first_bound(codes@, commands@.subrange(i as int, commands@.len() as int)),
        decreases commands.len() - i,
    {
        let command = commands[i];
        let chords_of = command.keys();
        let mut j: usize = 0;
        while j < chords_of.len()
            invariant
                i < commands.len(),
                command == commands@[i as int],
                j <= chords_of.len(),
                chords_of@.len() == chords(command).len(),
                forall|k: int| 0 <= k < chords_of@.len() ==> #[trigger] chords_of@[k]@ == chords(command)[k],
                forall|k: int| 0 <= k < j ==> chords(command)[k] != codes@,
                first_bound(codes@, commands@) == first_bound(codes@, commands@.subrange(i as int, commands@.len() as int)),
            decreases chords_of.len() - j,
        {
            if same_keys(&chords_of[j], codes) {
                proof {
                    let rest = commands@.subrange(i as int, commands@.len() as int);
                    assert(rest[0] == command);
                    assert(chords_of@[j as int]@ == chords(command)[j as int]);
                    assert(chords(command)[j as int] == codes@);
                    assert(binds(command, codes@));
                    assert(first_bound(codes@, rest) == Some(command));
                }
                return Match::Exact(command);
            }
            j = j + 1;
        }
        proof {
            let rest = commands@.subrange(i as int, commands@.len() as int);
            assert(rest[0] == command);
            assert(!binds(command, codes@));
            assert(rest.drop_first() =~= commands@.subrange(i + 1, commands@.len() as int));
        }
        i = i + 1;
    }
    assert(commands@.subrange(commands@.len() as int, commands@.len() as int).len() == 0);
    let mut i: usize = 0;
    while i < commands.len()
        invariant
            i <= commands.len(),
            first_bound(codes@, commands@) is None,
            forall|k: int| 0 <= k < i ==> !extends(#[trigger] commands@[k], codes@),
        decreases commands.len() - i,
    {
        let command = commands[i];
        let chords_of = command.keys();
        let mut j: usize = 0;
        while j < chords_of.len()
            invariant
                i < commands.len(),
                command == commands@[i as int],
                j <= chords_of.len(),
                chords_of@.len() == chords(command).len(),
                forall|k: int| 0 <= k < chords_of@.len() ==> #[trigger] chords_of@[k]@ == chords(command)[k],
                forall|k: int|
                    0 <= k < j ==> !(#[trigger] chords(command)[k].len() > codes@.len() && chords(command)[k].subrange(
                        0,
                        codes@.len() as int,
                    ) == codes@),
                first_bound(codes@, commands@) is None,
            decreases chords_of.len() - j,
        {
            if begins_with(&chords_of[j], codes) {
                proof {
                    assert(chords_of@[j as int]@ == chords(command)[j as int]);
                    assert(extends(commands@[i as int], codes@));
                }
                return Match::Prefix;
            }
            j = j + 1;
        }
        i = i + 1;
    }
    Match::Unbound
}

/// The track this UI shows and edits — always the first one, until multi-track UI exists.
#[verifier::allow_in_spec]
pub fn edited_track() -> TrackId
    returns
        TrackId(0),
{
    TrackId(0)
}

/// The notes of the track the keys edit.
pub open spec fn edited_notes(e: Editor) -> Map<Position, Length> {
    track_items(e.playback.tracks)[edited_track().0 as int]@
}

/// The start of the latest note of `m` at `pitch` starting before `tick` — see
/// [`previous_start_is`], which pins it down.
pub open spec fn previous_start(m: Map<Position, Length>, pitch: Pitch, tick: Tick) -> Option<Tick> {
    choose|r: Option<Tick>| previous_start_is(m, pitch, tick, r)
}

/// The earliest end after `tick` of a note of `m` at `pitch` — see [`next_end_is`], which pins it
/// down.
pub open spec fn next_end(m: Map<Position, Length>, pitch: Pitch, tick: Tick) -> Option<Tick> {
    choose|r: Option<Tick>| next_end_is(m, pitch, tick, r)
}

/// The tick `found` names, or `here` when it names none.
pub open spec fn or_here(found: Option<Tick>, here: Tick) -> Tick {
    match found {
        Some(t) => t,
        None => here,
    }
}

/// At most one answer satisfies [`previous_start_is`].
proof fn lemma_previous_start(m: Map<Position, Length>, pitch: Pitch, tick: Tick, r: Option<Tick>)
    requires
        previous_start_is(m, pitch, tick, r),
    ensures
        previous_start(m, pitch, tick) == r,
{
    let o = previous_start(m, pitch, tick);
    assert(previous_start_is(m, pitch, tick, o));
    match (o, r) {
        (Some(a), Some(b)) => {
            assert(m.contains_key(Position { tick: a, pitch }));
            assert(m.contains_key(Position { tick: b, pitch }));
        },
        (Some(a), None) => {
            assert(m.contains_key(Position { tick: a, pitch }));
        },
        (None, Some(b)) => {
            assert(m.contains_key(Position { tick: b, pitch }));
        },
        (None, None) => {},
    }
}

/// At most one answer satisfies [`next_end_is`].
proof fn lemma_next_end(m: Map<Position, Length>, pitch: Pitch, tick: Tick, r: Option<Tick>)
    requires
        next_end_is(m, pitch, tick, r),
    ensures
        next_end(m, pitch, tick) == r,
{
    let o = next_end(m, pitch, tick);
    assert(next_end_is(m, pitch, tick, o));
    match (o, r) {
        (Some(a), Some(b)) => {
            let pa = choose|p: Position| m.contains_key(p) && p.pitch == pitch && #[trigger] crate::track::note_at(m, p).end() == a;
            let pb = choose|p: Position| m.contains_key(p) && p.pitch == pitch && #[trigger] crate::track::note_at(m, p).end() == b;
            assert(crate::track::note_at(m, pa).end() == a);
            assert(crate::track::note_at(m, pb).end() == b);
        },
        (Some(a), None) => {
            let pa = choose|p: Position| m.contains_key(p) && p.pitch == pitch && #[trigger] crate::track::note_at(m, p).end() == a;
            assert(crate::track::note_at(m, pa).end() == a);
        },
        (None, Some(b)) => {
            let pb = choose|p: Position| m.contains_key(p) && p.pitch == pitch && #[trigger] crate::track::note_at(m, p).end() == b;
            assert(crate::track::note_at(m, pb).end() == b);
        },
        (None, None) => {},
    }
}

/// `r` sets the selection to every range of `e`'s moved to the head `new_head` picks for it —
/// extending in visual mode, collapsing otherwise.
pub open spec fn tick_moves(e: Editor, r: Option<Action>, new_head: spec_fn(Range) -> Tick) -> bool {
    r matches Some(Action::SetSelection(s)) && s@.len() == e.selection@.len() && forall|i: int|
        0 <= i < e.selection@.len() ==> #[trigger] s@[i] == e.selection@[i].moved(
            new_head(e.selection@[i]),
            e.mode == Mode::Visual,
        )
}

/// `r` sets the selection to every range of `e`'s moved to the row `new_pitch` picks for it.
pub open spec fn pitch_moves(e: Editor, r: Option<Action>, new_pitch: spec_fn(Range) -> Pitch) -> bool {
    r matches Some(Action::SetSelection(s)) && s@.len() == e.selection@.len() && forall|i: int|
        0 <= i < e.selection@.len() ==> #[trigger] s@[i] == e.selection@[i].with_pitch(
            new_pitch(e.selection@[i]),
        )
}

/// The lists in `parts`, one after another.
pub open spec fn concat(parts: Seq<Seq<Position>>) -> Seq<Position>
    decreases parts.len(),
{
    if parts.len() == 0 {
        Seq::empty()
    } else {
        concat(parts.drop_last()) + parts.last()
    }
}

/// Removing the note at each of `at`, in order, from the edited track.
pub open spec fn removals(at: Seq<Position>) -> Seq<PlaybackAction> {
    at.map_values(|p: Position| PlaybackAction::RemoveNote { track: edited_track(), at: p })
}

/// Placing a note at each range of `ranges`, as long as the range spans, on the edited track.
pub open spec fn placements(ranges: Seq<Range>) -> Seq<PlaybackAction> {
    ranges.map_values(
        |r: Range| PlaybackAction::InsertNote { track: edited_track(), at: r.position(), length: r.length() },
    )
}

/// `r` removes, as one action, every note of the edited track whose start falls within any
/// range of `e`'s selection, range by range — or is `None` when there is none.
pub open spec fn deletes(e: Editor, r: Option<Action>) -> bool {
    let sel = e.selection@;
    &&& match r {
        None => true,
        Some(Action::Playback(_)) => true,
        _ => false,
    }
    &&& exists|found: Seq<Seq<Position>>|
        found.len() == sel.len() && (forall|i: int|
            0 <= i < sel.len() ==> lists_positions(
                #[trigger] found[i],
                edited_notes(e),
                starting_within(sel[i].pitch, sel[i].start(), sel[i].end()),
            )) && collapsed(playback_part(r), removals(concat(found)))
}

/// The last tick column `v` shows.
pub open spec fn last_column(v: Viewport) -> int {
    if v.ticks.end.0 >= 1 { v.ticks.end.0 - 1 } else { 0 }
}

/// One tick earlier, stopping at the first tick.
pub open spec fn step_left(head: Tick) -> Tick {
    Tick((if head.0 >= 1 { head.0 - 1 } else { 0 }) as u16)
}

/// One tick later, stopping at tick `last`.
pub open spec fn step_right(head: Tick, last: int) -> Tick {
    Tick((if head.0 + 1 <= last { head.0 + 1 } else { last }) as u16)
}

/// One row higher, stopping at row `highest`.
pub open spec fn step_up(pitch: Pitch, highest: Pitch) -> Pitch {
    Pitch((if pitch.0 + 1 <= highest.0 { pitch.0 + 1 } else { highest.0 as int }) as u8)
}

/// One row lower, stopping at row `lowest`.
pub open spec fn step_down(pitch: Pitch, lowest: Pitch) -> Pitch {
    Pitch((if pitch.0 - 1 >= lowest.0 { pitch.0 - 1 } else { lowest.0 as int }) as u8)
}

/// `r` is what [`Command`] `c` means for editor `e` shown through `v`.
pub open spec fn applies(c: Command, e: Editor, v: Viewport, r: Option<Action>) -> bool {
    let sel = e.selection@;
    let m = edited_notes(e);
    match c {
        Command::MoveLeft => tick_moves(e, r, |g: Range| step_left(g.head)),
        Command::MoveRight => tick_moves(e, r, |g: Range| step_right(g.head, last_column(v))),
        Command::MoveUp => pitch_moves(e, r, |g: Range| step_up(g.pitch, v.pitches@.end)),
        Command::MoveDown => pitch_moves(e, r, |g: Range| step_down(g.pitch, v.pitches@.start)),
        Command::PreviousNote => tick_moves(
            e,
            r,
            |g: Range| or_here(previous_start(m, g.pitch, g.head), g.head),
        ),
        Command::NextNote => tick_moves(e, r, |g: Range| or_here(next_end(m, g.pitch, g.head), g.head)),
        Command::GotoStart => tick_moves(e, r, |g: Range| Tick(0)),
        Command::GotoEnd => tick_moves(e, r, |g: Range| Tick(last_column(v) as u16)),
        Command::EnterInsert => r == Some(Action::SetMode(Mode::Insert)),
        Command::ToggleVisual => r == Some(Action::SetMode(e.mode.toggled(Mode::Visual))),
        Command::OpenCommandLine => r == Some(Action::SetMode(Mode::Command)),
        Command::ToggleHelp => r == Some(Action::SetMode(e.mode.toggled(Mode::Help))),
        Command::Delete => deletes(e, r),
        Command::Undo => r == Some(Action::Undo),
        Command::Redo => r == Some(Action::Redo),
        Command::PlayPause => r == Some(
            Action::Playback(PlaybackAction::SetPlaybackIntent(e.playback.transport.intent.toggled())),
        ),
        Command::SeekHere => r == Some(Action::Playback(PlaybackAction::Seek(sel[0].head))),
        Command::PlaceNote => r matches Some(Action::Playback(pa)) && collapsed(Some(pa), placements(sel)),
        Command::Leave => r == Some(Action::SetMode(Mode::Normal)),
    }
}

/// Move every range's head, per `new_head` — see [`Range::moved`] for what `extend` does to the
/// anchor.
fn moved_tick<F: Fn(Range) -> Tick + Copy>(editor: &Editor, extend: bool, new_head: F) -> (a: Action)
    requires
        forall|i: int| 0 <= i < editor.selection@.len() ==> call_requires(new_head, (#[trigger] editor.selection@[i],)),
    ensures
        a matches Action::SetSelection(s) && s@.len() == editor.selection@.len() && forall|i: int|
            0 <= i < editor.selection@.len() ==> call_ensures(new_head, (editor.selection@[i],), #[trigger] s@[i].head)
                && s@[i] == editor.selection@[i].moved(s@[i].head, extend),
{
    let step = |range: Range| -> (out: Range)
        requires
            call_requires(new_head, (range,)),
        ensures
            (call_ensures(new_head, (range,), out.head) && out == range.moved(out.head, extend)),
        { range.moved(new_head(range), extend) };
    let moved = editor.selection.map(step);
    proof {
        assert forall|i: int| 0 <= i < editor.selection@.len() implies call_ensures(new_head, (editor.selection@[i],), #[trigger] moved@[i].head)
            && moved@[i] == editor.selection@[i].moved(moved@[i].head, extend) by {
            assert(call_ensures(step, (editor.selection@[i],), moved@[i]));
        }
    }
    Action::SetSelection(moved)
}

/// Move every range to the row `new_pitch` picks for it.
fn moved_pitch<F: Fn(Range) -> Pitch + Copy>(editor: &Editor, new_pitch: F) -> (a: Action)
    requires
        forall|i: int| 0 <= i < editor.selection@.len() ==> call_requires(new_pitch, (#[trigger] editor.selection@[i],)),
    ensures
        a matches Action::SetSelection(s) && s@.len() == editor.selection@.len() && forall|i: int|
            0 <= i < editor.selection@.len() ==> call_ensures(new_pitch, (editor.selection@[i],), #[trigger] s@[i].pitch)
                && s@[i] == editor.selection@[i].with_pitch(s@[i].pitch),
{
    let step = |range: Range| -> (out: Range)
        requires
            call_requires(new_pitch, (range,)),
        ensures
            (call_ensures(new_pitch, (range,), out.pitch) && out == range.with_pitch(out.pitch)),
        { range.with_pitch(new_pitch(range)) };
    let moved = editor.selection.map(step);
    proof {
        assert forall|i: int| 0 <= i < editor.selection@.len() implies call_ensures(new_pitch, (editor.selection@[i],), #[trigger] moved@[i].pitch)
            && moved@[i] == editor.selection@[i].with_pitch(moved@[i].pitch) by {
            assert(call_ensures(step, (editor.selection@[i],), moved@[i]));
        }
    }
    Action::SetSelection(moved)
}

/// Insert a note at every cursor, sized to that cursor's own span (see [`Range::length`]) — a
/// multi-tick visual selection places one correspondingly longer note.
fn place_note(editor: &Editor) -> (a: Action)
    ensures
        a matches Action::Playback(pa) && collapsed(Some(pa), placements(editor.selection@)),
{
    let ranges = editor.selection.ranges();
    let mut insertions: Vec<PlaybackAction> = Vec::new();
    let mut i: usize = 0;
    while i < ranges.len()
        invariant
            ranges@ == editor.selection@,
            i <= ranges.len(),
            insertions@ == placements(editor.selection@).take(i as int),
        decreases ranges.len() - i,
    {
        let range = ranges[i];
        insertions.push(
            PlaybackAction::InsertNote { track: edited_track(), at: range.position(), length: range.length() },
        );
        assert(insertions@ =~= placements(editor.selection@).take(i + 1));
        i = i + 1;
    }
    assert(insertions@ =~= placements(editor.selection@));
    // A selection always has at least one range, so there is always something to batch.
    Action::Playback(PlaybackAction::batch(insertions).unwrap())
}

/// Delete every note whose start falls within any range's span — `None` if there's nothing there.
fn delete_selection(editor: &Editor) -> (r: Option<Action>)
    requires
        editor.wf(),
    ensures
        deletes(*editor, r),
{
    let track = editor.playback.track(edited_track());
    let ranges = editor.selection.ranges();
    let mut removed: Vec<PlaybackAction> = Vec::new();
    let ghost mut found: Seq<Seq<Position>> = Seq::empty();
    let mut i: usize = 0;
    while i < ranges.len()
        invariant
            ranges@ == editor.selection@,
            track.wf(),
            track@ == edited_notes(*editor),
            i <= ranges.len(),
            found.len() == i,
            forall|k: int|
                0 <= k < i ==> lists_positions(
                    #[trigger] found[k],
                    edited_notes(*editor),
                    starting_within(editor.selection@[k].pitch, editor.selection@[k].start(), editor.selection@[k].end()),
                ),
            removed@ == removals(concat(found)),
        decreases ranges.len() - i,
    {
        let range = ranges[i];
        let at = track.positions_in_span(range.pitch, range.start(), range.end());
        let mut j: usize = 0;
        while j < at.len()
            invariant
                j <= at.len(),
                removed@ == removals(concat(found)) + removals(at@.take(j as int)),
            decreases at.len() - j,
        {
            removed.push(PlaybackAction::RemoveNote { track: edited_track(), at: at[j] });
            assert(removals(at@.take(j + 1)) =~= removals(at@.take(j as int)).push(
                PlaybackAction::RemoveNote { track: edited_track(), at: at@[j as int] },
            ));
            assert(removed@ =~= removals(concat(found)) + removals(at@.take(j + 1)));
            j = j + 1;
        }
        proof {
            assert(at@.take(at@.len() as int) =~= at@);
            let next = found.push(at@);
            assert(next.drop_last() =~= found);
            assert(concat(next) == concat(found) + at@);
            assert(removals(concat(next)) =~= removals(concat(found)) + removals(at@));
            found = next;
        }
        i = i + 1;
    }
    match PlaybackAction::batch(removed) {
        Some(batch) => Some(Action::Playback(batch)),
        None => None,
    }
}

/// What [`moved_tick`] promises, with a head-picking closure known to pick `new_head`, is
/// [`tick_moves`].
proof fn lemma_tick_moves<F: Fn(Range) -> Tick>(e: Editor, a: Action, f: F, new_head: spec_fn(Range) -> Tick)
    requires
        a matches Action::SetSelection(s) && s@.len() == e.selection@.len() && forall|i: int|
            0 <= i < e.selection@.len() ==> call_ensures(f, (e.selection@[i],), #[trigger] s@[i].head)
                && s@[i] == e.selection@[i].moved(s@[i].head, e.mode == Mode::Visual),
        forall|g: Range, t: Tick| call_ensures(f, (g,), t) ==> t == new_head(g),
    ensures
        tick_moves(e, Some(a), new_head),
{
    let s = a->SetSelection_0;
    assert forall|i: int| 0 <= i < e.selection@.len() implies #[trigger] s@[i] == e.selection@[i].moved(
        new_head(e.selection@[i]),
        e.mode == Mode::Visual,
    ) by {
        assert(call_ensures(f, (e.selection@[i],), s@[i].head));
    }
}

/// What [`moved_pitch`] promises, with a row-picking closure known to pick `new_pitch`, is
/// [`pitch_moves`].
proof fn lemma_pitch_moves<F: Fn(Range) -> Pitch>(e: Editor, a: Action, f: F, new_pitch: spec_fn(Range) -> Pitch)
    requires
        a matches Action::SetSelection(s) && s@.len() == e.selection@.len() && forall|i: int|
            0 <= i < e.selection@.len() ==> call_ensures(f, (e.selection@[i],), #[trigger] s@[i].pitch)
                && s@[i] == e.selection@[i].with_pitch(s@[i].pitch),
        forall|g: Range, p: Pitch| call_ensures(f, (g,), p) ==> p == new_pitch(g),
    ensures
        pitch_moves(e, Some(a), new_pitch),
{
    let s = a->SetSelection_0;
    assert forall|i: int| 0 <= i < e.selection@.len() implies #[trigger] s@[i] == e.selection@[i].with_pitch(
        new_pitch(e.selection@[i]),
    ) by {
        assert(call_ensures(f, (e.selection@[i],), s@[i].pitch));
    }
}

/// Turn a resolved [`Command`] into the absolute action it means right now — `None` only for
/// [`Command::Delete`] finding nothing to delete.
fn apply(command: Command, editor: &Editor, viewport: &Viewport) -> (r: Option<Action>)
    requires
        editor.wf(),
    ensures
        applies(command, *editor, *viewport, r),
{
    // In visual mode, tick movement extends the selection (moves `head` only, keeping `anchor`);
    // everywhere else it moves (collapses both to the new position). Pitch movement is never
    // extended either way — a `Range` is one pitch row.
    let extend = editor.mode == Mode::Visual;
    match command {
        Command::MoveLeft => {
            let step = |range: Range| -> (t: Tick)
                ensures
                    (t == step_left(range.head)),
                { Tick(range.head.0.saturating_sub(1)) };
            let a = moved_tick(editor, extend, step);
            proof {
                lemma_tick_moves(*editor, a, step, |g: Range| step_left(g.head));
            }
            Some(a)
        },
        Command::MoveRight => {
            let last: u16 = viewport.ticks.end.0.saturating_sub(1);
            let step = move |range: Range| -> (t: Tick)
                ensures
                    (t == step_right(range.head, last as int)),
                { Tick(if range.head.0 < last { range.head.0 + 1 } else { last }) };
            let a = moved_tick(editor, extend, step);
            proof {
                lemma_tick_moves(*editor, a, step, |g: Range| step_right(g.head, last as int));
            }
            Some(a)
        },
        Command::MoveUp => {
            let highest = highest_of(&viewport.pitches);
            let step = move |range: Range| -> (p: Pitch)
                ensures
                    (p == step_up(range.pitch, highest)),
                {
                    let up = range.pitch.0.saturating_add(1);
                    Pitch(if up <= highest.0 { up } else { highest.0 })
                };
            let a = moved_pitch(editor, step);
            proof {
                lemma_pitch_moves(*editor, a, step, |g: Range| step_up(g.pitch, highest));
            }
            Some(a)
        },
        Command::MoveDown => {
            let lowest = lowest_of(&viewport.pitches);
            let step = move |range: Range| -> (p: Pitch)
                ensures
                    (p == step_down(range.pitch, lowest)),
                {
                    let down = range.pitch.0.saturating_sub(1);
                    Pitch(if down >= lowest.0 { down } else { lowest.0 })
                };
            let a = moved_pitch(editor, step);
            proof {
                lemma_pitch_moves(*editor, a, step, |g: Range| step_down(g.pitch, lowest));
            }
            Some(a)
        },
        Command::PreviousNote => {
            let track = editor.playback.track(edited_track());
            let step = move |range: Range| -> (t: Tick)
                requires
                    track.wf(),
                ensures
                    (t == or_here(previous_start(track@, range.pitch, range.head), range.head)),
                {
                    let found = track.previous_note_start(range.pitch, range.head);
                    proof {
                        lemma_previous_start(track@, range.pitch, range.head, found);
                    }
                    match found {
                        Some(t) => t,
                        None => range.head,
                    }
                };
            let a = moved_tick(editor, extend, step);
            proof {
                lemma_tick_moves(
                    *editor,
                    a,
                    step,
                    |g: Range| or_here(previous_start(track@, g.pitch, g.head), g.head),
                );
            }
            Some(a)
        },
        Command::NextNote => {
            let track = editor.playback.track(edited_track());
            let step = move |range: Range| -> (t: Tick)
                requires
                    track.wf(),
                ensures
                    (t == or_here(next_end(track@, range.pitch, range.head), range.head)),
                {
                    let found = track.next_note_end(range.pitch, range.head);
                    proof {
                        lemma_next_end(track@, range.pitch, range.head, found);
                    }
                    match found {
                        Some(t) => t,
                        None => range.head,
                    }
                };
            let a = moved_tick(editor, extend, step);
            proof {
                lemma_tick_moves(
                    *editor,
                    a,
                    step,
                    |g: Range| or_here(next_end(track@, g.pitch, g.head), g.head),
                );
            }
            Some(a)
        },
        Command::GotoStart => {
            let step = |range: Range| -> (t: Tick) ensures (t == Tick(0)), { Tick(0) };
            let a = moved_tick(editor, extend, step);
            proof {
                lemma_tick_moves(*editor, a, step, |g: Range| Tick(0));
            }
            Some(a)
        },
        Command::GotoEnd => {
            let end: u16 = viewport.ticks.end.0.saturating_sub(1);
            let step = move |range: Range| -> (t: Tick) ensures (t == Tick(end)), { Tick(end) };
            let a = moved_tick(editor, extend, step);
            proof {
                lemma_tick_moves(*editor, a, step, |g: Range| Tick(end));
            }
            Some(a)
        },
        Command::EnterInsert => Some(Action::SetMode(Mode::Insert)),
        Command::ToggleVisual => Some(Action::SetMode(editor.mode.toggled(Mode::Visual))),
        Command::OpenCommandLine => Some(Action::SetMode(Mode::Command)),
        Command::ToggleHelp => Some(Action::SetMode(editor.mode.toggled(Mode::Help))),
        Command::Delete => delete_selection(editor),
        Command::Undo => Some(Action::Undo),
        Command::Redo => Some(Action::Redo),
        Command::PlayPause => {
            let intent = editor.playback.transport.intent.toggled();
            Some(Action::Playback(PlaybackAction::SetPlaybackIntent(intent)))
        },
        Command::SeekHere => {
            let tick = editor.selection.primary().head;
            Some(Action::Playback(PlaybackAction::Seek(tick)))
        },
        Command::PlaceNote => Some(place_note(editor)),
        Command::Leave => Some(Action::SetMode(Mode::Normal)),
    }
}

/// What a pending sequence of keys resolved to.
#[derive(Debug)]
pub enum Resolution {
    /// Could still extend to a longer bound sequence — wait for the next key.
    Pending,
    /// Doesn't continue any known sequence (or resolved to a command with nothing to do, like
    /// deleting where there's no note).
    Cancelled,
    /// A complete sequence, resolved to this action.
    Action(Action),
}

/// The command line's commands: each name, and what it does. The only ones so far are the ones
/// needed to exit — the *only* way to quit; there's deliberately no keyboard shortcut for it.
pub open spec fn text_command_table() -> Seq<(Seq<char>, Seq<char>)> {
    seq![("q"@, "quit"@), ("quit"@, "quit"@)]
}

/// What typing `text` on the command line and pressing Enter does: quit for a known command's
/// name; an unrecognized command just closes the command line, same as Esc.
pub open spec fn typed_command(text: Seq<char>) -> Action {
    if exists|i: int| 0 <= i < text_command_table().len() && #[trigger] text_command_table()[i].0 == text {
        Action::Quit
    } else {
        Action::SetMode(Mode::Normal)
    }
}

/// How the keys `keys` resolve while typing on the command line: a single key each time —
/// characters build up the text, Backspace takes the last one back, Enter runs it, Esc leaves.
pub open spec fn command_resolves(keys: Seq<Key>, e: Editor, res: Resolution) -> bool {
    let text = e.command_line@;
    if keys.len() != 1 {
        res is Cancelled
    } else {
        match keys[0] {
            Key::Esc => res == Resolution::Action(Action::SetMode(Mode::Normal)),
            Key::Enter => res == Resolution::Action(typed_command(text)),
            Key::Backspace => res matches Resolution::Action(Action::SetCommandLine(t)) && t@ == (if text.len() > 0 {
                text.drop_last()
            } else {
                text
            }),
            Key::Char(c) => res matches Resolution::Action(Action::SetCommandLine(t)) && t@ == text.push(c),
            _ => res is Cancelled,
        }
    }
}

/// The command line's commands, as the help overlay lists them — see [`text_command_table`].
pub fn text_commands() -> (v: Vec<(&'static str, &'static str)>)
    ensures
        v@.len() == text_command_table().len(),
        forall|i: int|
            0 <= i < v@.len() ==> (#[trigger] v@[i].0@, v@[i].1@) == text_command_table()[i],
{
    vec![("q", "quit"), ("quit", "quit")]
}

/// Whether two texts are the same, character by character.
fn same_text(a: &str, b: &str) -> (r: bool)
    ensures
        r == (a@ == b@),
{
    let n = a.unicode_len();
    if n != b.unicode_len() {
        return false;
    }
    let mut i: usize = 0;
    while i < n
        invariant
            n == a@.len(),
            a@.len() == b@.len(),
            i <= n,
            forall|k: int| 0 <= k < i ==> a@[k] == b@[k],
        decreases n - i,
    {
        if a.get_char(i) != b.get_char(i) {
            return false;
        }
        i = i + 1;
    }
    assert(a@ =~= b@);
    true
}

/// What running `text` on the command line does — see [`typed_command`].
fn command(text: &str) -> (a: Action)
    ensures
        a == typed_command(text@),
{
    let table = text_commands();
    let mut i: usize = 0;
    while i < table.len()
        invariant
            i <= table.len(),
            table@.len() == text_command_table().len(),
            forall|k: int|
                0 <= k < table@.len() ==> (#[trigger] table@[k].0@, table@[k].1@) == text_command_table()[k],
            forall|k: int| 0 <= k < i ==> text_command_table()[k].0 != text@,
        decreases table.len() - i,
    {
        let (name, _) = table[i];
        if same_text(name, text) {
            assert(text_command_table()[i as int].0 == text@);
            return Action::Quit;
        }
        i = i + 1;
    }
    Action::SetMode(Mode::Normal)
}

/// The `:` command line: characters build up `editor.command_line`, `Enter` executes it.
fn resolve_command(pending: &Vec<Key>, editor: &Editor) -> (res: Resolution)
    ensures
        command_resolves(pending@, *editor, res),
{
    if pending.len() != 1 {
        return Resolution::Cancelled;
    }
    match pending[0] {
        Key::Esc => Resolution::Action(Action::SetMode(Mode::Normal)),
        Key::Enter => Resolution::Action(command(editor.command_line.as_str())),
        Key::Backspace => {
            let text = editor.command_line.as_str();
            let n = text.unicode_len();
            let kept = if n > 0 {
                String::from_str(text.substring_char(0, n - 1))
            } else {
                editor.command_line.clone()
            };
            proof {
                if n > 0 {
                    assert(kept@ =~= editor.command_line@.drop_last());
                }
            }
            Resolution::Action(Action::SetCommandLine(kept))
        },
        Key::Char(c) => {
            let mut text = editor.command_line.clone();
            push_char(&mut text, c);
            Resolution::Action(Action::SetCommandLine(text))
        },
        _ => Resolution::Cancelled,
    }
}

/// How the keys `keys` resolve for editor `e` shown through `v`: typed text in command mode,
/// otherwise matched against the mode's bindings and, once complete, turned into what the command
/// means right now.
pub open spec fn resolves(keys: Seq<Key>, e: Editor, v: Viewport, res: Resolution) -> bool {
    if e.mode == Mode::Command {
        command_resolves(keys, e, res)
    } else {
        match matched(keys, bound_commands(e.mode)) {
            Match::Exact(c) => exists|r: Option<Action>|
                applies(c, e, v, r) && res == (match r {
                    Some(a) => Resolution::Action(a),
                    None => Resolution::Cancelled,
                }),
            Match::Prefix => res is Pending,
            Match::Unbound => res is Cancelled,
        }
    }
}

/// Every playback action the keys produce names only the edited track, which exists.
proof fn lemma_applies_valid(c: Command, e: Editor, v: Viewport, r: Option<Action>)
    requires
        e.wf(),
        applies(c, e, v, r),
    ensures
        r matches Some(Action::Playback(pa)) ==> valid_action(track_items(e.playback.tracks).len(), pa),
{
    let n = track_items(e.playback.tracks).len();
    if c == Command::Delete {
        let sel = e.selection@;
        let found = choose|found: Seq<Seq<Position>>|
            found.len() == sel.len() && (forall|i: int|
                0 <= i < sel.len() ==> lists_positions(
                    #[trigger] found[i],
                    edited_notes(e),
                    starting_within(sel[i].pitch, sel[i].start(), sel[i].end()),
                )) && collapsed(playback_part(r), removals(concat(found)));
        let acts = removals(concat(found));
        assert forall|i: int| 0 <= i < acts.len() implies valid_action(n, #[trigger] acts[i]) by {}
        lemma_valid_actions_all(n, acts);
    } else if c == Command::PlaceNote {
        let acts = placements(e.selection@);
        assert forall|i: int| 0 <= i < acts.len() implies valid_action(n, #[trigger] acts[i]) by {}
        lemma_valid_actions_all(n, acts);
    }
}

/// Resolve the keys pending so far — see [`resolves`].
fn resolve(pending: &Vec<Key>, editor: &Editor, viewport: &Viewport) -> (res: Resolution)
    requires
        editor.wf(),
    ensures
        resolves(pending@, *editor, *viewport, res),
        res matches Resolution::Action(Action::Playback(pa)) ==> valid_action(
            track_items(editor.playback.tracks).len(),
            pa,
        ),
{
    // Command mode is free-text typing, not chord-matching against a fixed table — every other
    // mode, help included, resolves the same way.
    if editor.mode == Mode::Command {
        return resolve_command(pending, editor);
    }
    let commands = bindings(editor.mode);
    match match_commands(pending, &commands) {
        Match::Exact(command) => {
            let r = apply(command, editor, viewport);
            proof {
                lemma_applies_valid(command, *editor, *viewport, r);
            }
            match r {
                Some(action) => Resolution::Action(action),
                None => Resolution::Cancelled,
            }
        },
        Match::Prefix => Resolution::Pending,
        Match::Unbound => Resolution::Cancelled,
    }
}

/// Feeding `key` to `before`, for editor `e` shown through `v`, leaves `after` and hands back `r`:
/// the keys pending so far, with `key` added, resolve — and are kept only while still pending —
/// and any playback action handed back names only tracks that exist.
pub open spec fn fed(before: Keymap, after: Keymap, key: Key, e: Editor, v: Viewport, r: Option<Action>) -> bool {
    let keys = before.pending().push(key);
    &&& exists|res: Resolution|
        resolves(keys, e, v, res) && match res {
            Resolution::Pending => r is None && after.pending() == keys,
            Resolution::Cancelled => r is None && after.pending() == Seq::<Key>::empty(),
            Resolution::Action(a) => r == Some(a) && after.pending() == Seq::<Key>::empty(),
        }
    &&& r matches Some(Action::Playback(pa)) ==> valid_action(track_items(e.playback.tracks).len(), pa)
}

/// A pending, possibly multi-key sequence, resolved against [`Mode`]-dependent bindings.
///
/// The Vim/Kakoune/Helix-style key-chord model (e.g. `g` `g` to go to the start), not just
/// single keys.
#[derive(Debug, Clone)]
pub struct Keymap {
    pending: Vec<Key>,
}

impl Default for Keymap {
    /// Nothing pending.
    fn default() -> (k: Keymap)
        ensures
            k.pending() == Seq::<Key>::empty(),
    {
        Keymap { pending: Vec::new() }
    }
}

impl Keymap {
    /// The keys fed so far that still await the rest of a chord.
    pub closed spec fn pending(&self) -> Seq<Key> {
        self.pending@
    }

    /// Feed one key, given the editor's current mode, content, and the current viewport — needed
    /// to resolve a relative key like "left" into an absolute `Action` and to type into the
    /// command line.
    ///
    /// There is no keyboard shortcut that quits by itself — the `:` command line's `:q`/`:quit`
    /// is the only way.
    pub fn feed(&mut self, key: Key, editor: &Editor, viewport: &Viewport) -> (r: Option<Action>)
        requires
            editor.wf(),
        ensures
            fed(*old(self), *final(self), key, *editor, *viewport, r),
    {
        let ghost keys = self.pending@.push(key);
        self.pending.push(key);
        let res = resolve(&self.pending, editor, viewport);
        let r = match res {
            Resolution::Pending => None,
            Resolution::Cancelled => {
                self.pending.clear();
                None
            },
            Resolution::Action(action) => {
                self.pending.clear();
                Some(action)
            },
        };
        assert(resolves(keys, *editor, *viewport, res));
        assert(keys == old(self).pending().push(key));
        assert(fed(*old(self), *self, key, *editor, *viewport, r));
        r
    }
}

/// There is no keyboard shortcut that quits by itself: keys resolve to quitting only on the
/// command line, as Enter pressed on a known command's name.
pub proof fn lemma_only_the_command_line_quits(keys: Seq<Key>, e: Editor, v: Viewport, res: Resolution)
    requires
        resolves(keys, e, v, res),
        res == Resolution::Action(Action::Quit),
    ensures
        e.mode == Mode::Command,
        keys == seq![Key::Enter],
        exists|i: int| 0 <= i < text_command_table().len() && #[trigger] text_command_table()[i].0 == e.command_line@,
{
    if e.mode != Mode::Command {
        if let Match::Exact(c) = matched(keys, bound_commands(e.mode)) {
            let r = choose|r: Option<Action>|
                applies(c, e, v, r) && res == (match r {
                    Some(a) => Resolution::Action(a),
                    None => Resolution::Cancelled,
                });
            assert(r == Some(Action::Quit));
            assert(false);
        }
    } else {
        assert(keys.len() == 1);
        assert(keys[0] is Enter);
        assert(keys =~= seq![Key::Enter]);
        assert(typed_command(e.command_line@) == Action::Quit);
    }
}

/// The playback actions `r` carries, one after another: those of a batch, or the one action.
pub open spec fn playback_actions(r: Option<Action>) -> Seq<PlaybackAction> {
    match r {
        Some(Action::Playback(PlaybackAction::Batch(v))) => v@,
        Some(Action::Playback(pa)) => seq![pa],
        _ => Seq::empty(),
    }
}

/// Some range of `sel` lies on `q`'s row and spans the tick `q` starts at.
pub open spec fn on_selected_rows(sel: Seq<Range>, q: Position) -> bool {
    exists|i: int|
        0 <= i < sel.len() && (#[trigger] sel[i]).pitch == q.pitch && (if sel[i].anchor.0 <= sel[i].head.0 {
            sel[i].anchor.0 <= q.tick.0 <= sel[i].head.0
        } else {
            sel[i].head.0 <= q.tick.0 <= sel[i].anchor.0
        })
}

/// A position lies in the concatenation of `parts` exactly when it lies in one of them.
proof fn lemma_concat_contains(parts: Seq<Seq<Position>>, q: Position)
    ensures
        concat(parts).contains(q) <==> exists|i: int| 0 <= i < parts.len() && (#[trigger] parts[i]).contains(q),
    decreases parts.len(),
{
    if parts.len() > 0 {
        let front = parts.drop_last();
        lemma_concat_contains(front, q);
        let whole = concat(parts);
        assert(whole == concat(front) + parts.last());
        if whole.contains(q) {
            let k = choose|k: int| 0 <= k < whole.len() && whole[k] == q;
            if k < concat(front).len() {
                assert(concat(front)[k] == q);
                let i = choose|i: int| 0 <= i < front.len() && (#[trigger] front[i]).contains(q);
                assert(parts[i] == front[i]);
            } else {
                assert(parts.last()[k - concat(front).len()] == q);
                assert(parts[parts.len() - 1].contains(q));
            }
        }
        if exists|i: int| 0 <= i < parts.len() && (#[trigger] parts[i]).contains(q) {
            let i = choose|i: int| 0 <= i < parts.len() && (#[trigger] parts[i]).contains(q);
            if i < parts.len() - 1 {
                assert(front[i] == parts[i]);
                assert(concat(front).contains(q));
                let k = choose|k: int| 0 <= k < concat(front).len() && concat(front)[k] == q;
                assert(whole[k] == q);
            } else {
                let k = choose|k: int| 0 <= k < parts.last().len() && parts.last()[k] == q;
                assert(whole[concat(front).len() + k] == q);
            }
        }
    }
}

/// What deleting does: it removes, from the edited track, exactly the notes that start on a
/// selected range's row within that range's span — nothing on any other row, nothing starting
/// elsewhere — and hands back nothing at all when there is no such note.
pub proof fn lemma_delete_removes_the_selected_notes(e: Editor, r: Option<Action>)
    requires
        deletes(e, r),
    ensures
        r is None || r matches Some(Action::Playback(_)),
        r is None <==> !exists|q: Position| edited_notes(e).contains_key(q) && #[trigger] on_selected_rows(e.selection@, q),
        forall|k: int|
            0 <= k < playback_actions(r).len() ==> ((#[trigger] playback_actions(r)[k]) matches PlaybackAction::RemoveNote {
                track,
                at,
            } && track == TrackId(0) && edited_notes(e).contains_key(at) && on_selected_rows(e.selection@, at)),
        forall|q: Position|
            edited_notes(e).contains_key(q) && #[trigger] on_selected_rows(e.selection@, q) ==> playback_actions(r).contains(
                PlaybackAction::RemoveNote { track: TrackId(0), at: q },
            ),
{
    let sel = e.selection@;
    let m = edited_notes(e);
    let found = choose|found: Seq<Seq<Position>>|
        found.len() == sel.len() && (forall|i: int|
            0 <= i < sel.len() ==> lists_positions(
                #[trigger] found[i],
                m,
                starting_within(sel[i].pitch, sel[i].start(), sel[i].end()),
            )) && collapsed(playback_part(r), removals(concat(found)));
    let all = concat(found);
    let acts = removals(all);
    if acts.len() == 1 {
        assert(playback_actions(r) =~= acts);
    } else if acts.len() > 1 {
        assert(playback_actions(r) =~= acts);
    }
    assert(acts.len() > 0 ==> playback_actions(r) == acts);
    assert forall|q: Position| m.contains_key(q) && #[trigger] on_selected_rows(sel, q) implies all.contains(q) by {
        let i = choose|i: int|
            0 <= i < sel.len() && (#[trigger] sel[i]).pitch == q.pitch && (if sel[i].anchor.0 <= sel[i].head.0 {
                sel[i].anchor.0 <= q.tick.0 <= sel[i].head.0
            } else {
                sel[i].head.0 <= q.tick.0 <= sel[i].anchor.0
            });
        assert(starting_within(sel[i].pitch, sel[i].start(), sel[i].end())(crate::track::note_at(m, q)));
        assert(lists_positions(found[i], m, starting_within(sel[i].pitch, sel[i].start(), sel[i].end())));
        let j = choose|j: int| 0 <= j < found[i].len() && #[trigger] found[i][j] == q;
        assert(found[i].contains(q));
        lemma_concat_contains(found, q);
    }
    assert forall|q: Position| #[trigger] all.contains(q) implies m.contains_key(q) && on_selected_rows(sel, q) by {
        lemma_concat_contains(found, q);
        let i = choose|i: int| 0 <= i < found.len() && (#[trigger] found[i]).contains(q);
        let j = choose|j: int| 0 <= j < found[i].len() && found[i][j] == q;
        assert(lists_positions(found[i], m, starting_within(sel[i].pitch, sel[i].start(), sel[i].end())));
        assert(m.contains_key(found[i][j]));
        assert(starting_within(sel[i].pitch, sel[i].start(), sel[i].end())(crate::track::note_at(m, found[i][j])));
        assert(sel[i].pitch == q.pitch);
    }
    assert forall|k: int| 0 <= k < playback_actions(r).len() implies ((#[trigger] playback_actions(r)[k]) matches PlaybackAction::RemoveNote {
        track,
        at,
    } && track == TrackId(0) && m.contains_key(at) && on_selected_rows(sel, at)) by {
        assert(acts.len() > 0);
        assert(playback_actions(r)[k] == acts[k]);
        assert(all.contains(all[k]));
    }
    assert forall|q: Position| m.contains_key(q) && #[trigger] on_selected_rows(sel, q) implies playback_actions(r).contains(
        PlaybackAction::RemoveNote { track: TrackId(0), at: q },
    ) by {
        assert(all.contains(q));
        let k = choose|k: int| 0 <= k < all.len() && all[k] == q;
        assert(acts[k] == PlaybackAction::RemoveNote { track: TrackId(0), at: q });
        assert(playback_actions(r)[k] == acts[k]);
    }
    if r is None {
        assert(acts.len() == 0);
        assert forall|q: Position| !(m.contains_key(q) && #[trigger] on_selected_rows(sel, q)) by {
            if m.contains_key(q) && on_selected_rows(sel, q) {
                assert(all.contains(q));
            }
        }
    } else {
        assert(acts.len() > 0);
        let q = all[0];
        assert(all.contains(q));
        assert(m.contains_key(q) && on_selected_rows(sel, q));
    }
}

/// The tick a range starts at: the earlier of its anchor and head.
pub open spec fn first_tick(g: Range) -> int {
    if g.anchor.0 <= g.head.0 { g.anchor.0 as int } else { g.head.0 as int }
}

/// How many ticks a range spans, counting both ends.
pub open spec fn span_ticks(g: Range) -> int {
    if g.anchor.0 <= g.head.0 { g.head.0 - g.anchor.0 + 1 } else { g.anchor.0 - g.head.0 + 1 }
}

/// What each command does to the editor it is resolved against, stated over the selection, the
/// mode, the transport and the viewport:
///
/// - play/pause switches the transport to whichever of playing and paused it is not in;
/// - seeking moves the transport to the primary cursor's head;
/// - the mode keys enter their mode, and the toggling ones leave it again when already in it;
/// - every tick motion keeps each range on its row and moves its head — extending (the anchor
///   stays) in visual mode, collapsing onto the head otherwise — left by one tick (not before the
///   first), right by one (not past the last visible column), or to the first or last visible
///   column;
/// - the pitch motions move each range one row up or down, not past the visible rows, keeping its
///   ticks;
/// - placing a note places, for each range in order, one note on its row starting at its first
///   tick and lasting as many ticks as it spans (at most the longest a note can be).
pub proof fn lemma_what_commands_do(c: Command, e: Editor, v: Viewport, r: Option<Action>)
    requires
        applies(c, e, v, r),
    ensures
        c == Command::PlayPause ==> (r matches Some(Action::Playback(PlaybackAction::SetPlaybackIntent(i)))
            && i != e.playback.transport.intent),
        c == Command::SeekHere ==> r == Some(Action::Playback(PlaybackAction::Seek(e.selection@[0].head))),
        c == Command::Undo ==> r == Some(Action::Undo),
        c == Command::Redo ==> r == Some(Action::Redo),
        c == Command::EnterInsert ==> r == Some(Action::SetMode(Mode::Insert)),
        c == Command::OpenCommandLine ==> r == Some(Action::SetMode(Mode::Command)),
        c == Command::Leave ==> r == Some(Action::SetMode(Mode::Normal)),
        c == Command::ToggleVisual ==> r == Some(
            Action::SetMode(if e.mode == Mode::Visual { Mode::Normal } else { Mode::Visual }),
        ),
        c == Command::ToggleHelp ==> r == Some(
            Action::SetMode(if e.mode == Mode::Help { Mode::Normal } else { Mode::Help }),
        ),
        (c == Command::MoveLeft || c == Command::MoveRight || c == Command::GotoStart || c == Command::GotoEnd
            || c == Command::PreviousNote || c == Command::NextNote) ==> (r matches Some(
            Action::SetSelection(s),
        ) && s@.len() == e.selection@.len() && forall|i: int|
            0 <= i < s@.len() ==> (#[trigger] s@[i]).pitch == e.selection@[i].pitch && (e.mode == Mode::Visual
                ==> s@[i].anchor == e.selection@[i].anchor) && (e.mode != Mode::Visual ==> s@[i].anchor
                == s@[i].head) && (c == Command::MoveLeft ==> s@[i].head.0 == (if e.selection@[i].head.0 >= 1 {
                e.selection@[i].head.0 - 1
            } else {
                0
            })) && (c == Command::MoveRight ==> s@[i].head.0 == (if e.selection@[i].head.0 + 1 <= (if v.ticks.end.0
                >= 1 { v.ticks.end.0 - 1 } else { 0 }) {
                e.selection@[i].head.0 + 1
            } else {
                if v.ticks.end.0 >= 1 { v.ticks.end.0 - 1 } else { 0 }
            })) && (c == Command::GotoStart ==> s@[i].head.0 == 0) && (c == Command::GotoEnd ==> s@[i].head.0
                == (if v.ticks.end.0 >= 1 { v.ticks.end.0 - 1 } else { 0 }))),
        (c == Command::MoveUp || c == Command::MoveDown) ==> (r matches Some(Action::SetSelection(s))
            && s@.len() == e.selection@.len() && forall|i: int|
            0 <= i < s@.len() ==> (#[trigger] s@[i]).anchor == e.selection@[i].anchor && s@[i].head
                == e.selection@[i].head && (c == Command::MoveUp ==> s@[i].pitch.0 == (if e.selection@[i].pitch.0
                + 1 <= v.pitches@.end.0 {
                e.selection@[i].pitch.0 + 1
            } else {
                v.pitches@.end.0 as int
            })) && (c == Command::MoveDown ==> s@[i].pitch.0 == (if e.selection@[i].pitch.0 - 1
                >= v.pitches@.start.0 {
                e.selection@[i].pitch.0 - 1
            } else {
                v.pitches@.start.0 as int
            }))),
        c == Command::PlaceNote ==> (r matches Some(Action::Playback(_)) && playback_actions(r).len()
            == e.selection@.len() && forall|i: int|
            0 <= i < e.selection@.len() ==> #[trigger] playback_actions(r)[i] == PlaybackAction::InsertNote {
                track: TrackId(0),
                at: Position { tick: Tick(first_tick(e.selection@[i]) as u16), pitch: e.selection@[i].pitch },
                length: Length((if span_ticks(e.selection@[i]) < 255 { span_ticks(e.selection@[i]) } else { 255 }) as u8),
            }),
{
    let sel = e.selection@;
    match c {
        Command::PlaceNote => {
            let acts = placements(sel);
            assert(playback_actions(r) =~= acts);
            assert forall|i: int| 0 <= i < sel.len() implies #[trigger] playback_actions(r)[i]
                == PlaybackAction::InsertNote {
                track: TrackId(0),
                at: Position { tick: Tick(first_tick(sel[i]) as u16), pitch: sel[i].pitch },
                length: Length((if span_ticks(sel[i]) < 255 { span_ticks(sel[i]) } else { 255 }) as u8),
            } by {
                assert(acts[i] == PlaybackAction::InsertNote {
                    track: TrackId(0),
                    at: sel[i].position(),
                    length: sel[i].length(),
                });
            }
        },
        _ => {},
    }
}

/// Space plays or pauses in normal and visual mode, and places a note in insert mode.
pub proof fn lemma_space(mode: Mode)
    ensures
        (mode == Mode::Normal || mode == Mode::Visual) ==> matched(seq![Key::Char(' ')], bound_commands(mode))
            == Match::Exact(Command::PlayPause),
        mode == Mode::Insert ==> matched(seq![Key::Char(' ')], bound_commands(mode)) == Match::Exact(
            Command::PlaceNote,
        ),
{
    reveal_with_fuel(first_bound, 18);
    let space = seq![Key::Char(' ')];
    assert forall|c: Command| c != Command::PlayPause && c != Command::PlaceNote implies !#[trigger] binds(c, space) by {
        if binds(c, space) {
            let j = choose|j: int| 0 <= j < chords(c).len() && chords(c)[j] == space;
            assert(chords(c)[j][0] == space[0]);
        }
    }
    assert(chords(Command::PlayPause)[0] == space);
    assert(binds(Command::PlayPause, space));
    assert(chords(Command::PlaceNote)[0] == space);
    assert(binds(Command::PlaceNote, space));
}

/// Pressing Space, with nothing pending, in normal or visual mode switches the transport to
/// whichever of playing and paused it is not in — so a playing transport is paused.
pub proof fn lemma_space_plays_or_pauses(before: Keymap, after: Keymap, e: Editor, v: Viewport, r: Option<Action>)
    requires
        before.pending().len() == 0,
        e.mode == Mode::Normal || e.mode == Mode::Visual,
        fed(before, after, Key::Char(' '), e, v, r),
    ensures
        r matches Some(Action::Playback(PlaybackAction::SetPlaybackIntent(i))) && i != e.playback.transport.intent,
        after.pending().len() == 0,
{
    let keys = before.pending().push(Key::Char(' '));
    assert(keys =~= seq![Key::Char(' ')]);
    lemma_space(e.mode);
    let res = choose|res: Resolution|
        resolves(keys, e, v, res) && match res {
            Resolution::Pending => r is None && after.pending() == keys,
            Resolution::Cancelled => r is None && after.pending() == Seq::<Key>::empty(),
            Resolution::Action(a) => r == Some(a) && after.pending() == Seq::<Key>::empty(),
        };
    let r2 = choose|r2: Option<Action>|
        applies(Command::PlayPause, e, v, r2) && res == (match r2 {
            Some(a) => Resolution::Action(a),
            None => Resolution::Cancelled,
        });
    lemma_what_commands_do(Command::PlayPause, e, v, r2);
}

} // verus!
