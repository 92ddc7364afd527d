//! What the screen shows, as plain values: the grid's cells, the status line, and the help
//! overlay's text. Drawing them is left to the terminal front end.

use vstd::prelude::*;
use vstd::string::*;

use crate::editor::Editor;
use crate::keymap::{
    bindings, bound_commands, described, edited_notes, edited_track, keys_label, keys_text, text_command_table,
    text_commands, Command,
};
use crate::mode::Mode;
use crate::pitch::Pitch;
use crate::selection::covered;
use crate::time::{Length, Tick};
use crate::track::{covering, lists_notes, note_at, position_lt, Position};
use crate::viewport::{highest_of, lowest_of, Viewport};

verus! {

/// What a grid cell shows of the notes there.
///
/// A note's first tick is marked distinctly from the rest of its span, so two same-pitch notes
/// placed back to back (no gap) still show a visible seam instead of merging into one block.
#[derive(Debug, Clone, Copy, PartialEq, Eq, Structural)]
pub enum Mark {
    /// A note starts here.
    NoteStart,
    /// A note that started earlier is still sounding here.
    NoteBody,
    /// No note sounds here.
    Empty,
}

/// One cell of the grid: a pitch row at a tick column.
#[derive(Debug, Clone, Copy, PartialEq, Eq, Structural)]
pub struct Cell {
    /// What the notes there look like.
    pub mark: Mark,
    /// The playhead is at this cell's tick.
    pub playhead: bool,
    /// A range of the selection covers this cell.
    pub selected: bool,
}

/// A note of `m` starting at `p`, at `pitch`, sounds at `tick`.
pub open spec fn sounds_here(m: Map<Position, Length>, p: Position, pitch: Pitch, tick: Tick) -> bool {
    m.contains_key(p) && p.pitch == pitch && note_at(m, p).covers(tick)
}

/// What the cell at `pitch`, `tick` shows of the notes of `m`: the body of a note sounding there
/// since an earlier tick, else the start of one starting there, else nothing.
pub open spec fn mark_at(m: Map<Position, Length>, pitch: Pitch, tick: Tick) -> Mark {
    if exists|p: Position| #[trigger] sounds_here(m, p, pitch, tick) && p.tick.0 < tick.0 {
        Mark::NoteBody
    } else if exists|p: Position| #[trigger] sounds_here(m, p, pitch, tick) {
        Mark::NoteStart
    } else {
        Mark::Empty
    }
}

/// The cell at `pitch`, `tick` of editor `e`'s grid, with the playhead at `playhead`.
pub open spec fn cell_at(e: Editor, playhead: Tick, pitch: Pitch, tick: Tick) -> Cell {
    Cell {
        mark: mark_at(edited_notes(e), pitch, tick),
        playhead: tick == playhead,
        selected: covered(e.selection@, Position { tick, pitch }),
    }
}

/// How many pitch rows `v` shows.
pub open spec fn row_count(v: Viewport) -> int {
    if v.pitches@.start.0 <= v.pitches@.end.0 {
        v.pitches@.end.0 - v.pitches@.start.0 + 1
    } else {
        0
    }
}

/// How many tick columns `v` shows.
pub open spec fn column_count(v: Viewport) -> int {
    if v.ticks.start.0 <= v.ticks.end.0 {
        v.ticks.end.0 - v.ticks.start.0
    } else {
        0
    }
}

/// What the cell at `pitch`, `tick` shows of the edited track's notes.
fn mark(editor: &Editor, pitch: Pitch, tick: Tick) -> (m: Mark)
    requires
        editor.wf(),
    ensures
        m == mark_at(edited_notes(*editor), pitch, tick),
{
    let track = editor.playback.track(edited_track());
    let notes = track.sounding_at(tick);
    let ghost m = edited_notes(*editor);
    let mut i: usize = 0;
    while i < notes.len()
        invariant
            i <= notes.len(),
            m == edited_notes(*editor),
            lists_notes(notes@, m, covering(tick)),
            forall|k: int| 0 <= k < i ==> (#[trigger] notes@[k]).position.pitch != pitch,
        decreases notes.len() - i,
    {
        let note = notes[i];
        if note.position.pitch == pitch {
            proof {
                // Every note sounding here at this pitch comes at or after this one in grid
                // order, so none starts earlier.
                assert forall|p: Position| #[trigger] sounds_here(m, p, pitch, tick) implies note.position.tick.0
                    <= p.tick.0 by {
                    assert(covering(tick)(note_at(m, p)));
                    let j = choose|j: int| 0 <= j < notes@.len() && #[trigger] notes@[j].position == p;
                    if j < i {
                        assert(notes@[j].position.pitch != pitch);
                    } else if j > i {
                        assert(position_lt(notes@[i as int].position, notes@[j].position));
                    }
                }
                assert(sounds_here(m, note.position, pitch, tick));
            }
            if note.position.tick.0 == tick.0 {
                assert(!exists|p: Position| #[trigger] sounds_here(m, p, pitch, tick) && p.tick.0 < tick.0);
                assert(exists|p: Position| #[trigger] sounds_here(m, p, pitch, tick));
                return Mark::NoteStart;
            } else {
                assert(sounds_here(m, note.position, pitch, tick) && note.position.tick.0 < tick.0);
                return Mark::NoteBody;
            }
        }
        i = i + 1;
    }
    proof {
        assert forall|p: Position| !#[trigger] sounds_here(m, p, pitch, tick) by {
            if sounds_here(m, p, pitch, tick) {
                assert(covering(tick)(note_at(m, p)));
                let j = choose|j: int| 0 <= j < notes@.len() && #[trigger] notes@[j].position == p;
                assert(notes@[j].position.pitch != pitch);
            }
        }
    }
    Mark::Empty
}

/// Whether some range of the selection covers the cell at `position`.
fn selected(editor: &Editor, position: Position) -> (b: bool)
    ensures
        b == covered(editor.selection@, position),
{
    let ranges = editor.selection.ranges();
    let mut i: usize = 0;
    while i < ranges.len()
        invariant
            ranges@ == editor.selection@,
            i <= ranges.len(),
            forall|k: int| 0 <= k < i ==> !(#[trigger] ranges@[k]).covers(position),
        decreases ranges.len() - i,
    {
        if ranges[i].covers(position) {
            assert(editor.selection@[i as int].covers(position));
            return true;
        }
        i = i + 1;
    }
    false
}

/// Every visible cell of the grid, row by row from the highest pitch down, each row column by
/// column from the first visible tick — with the playhead at `playhead`.
pub fn grid(editor: &Editor, playhead: Tick, viewport: &Viewport) -> (rows: Vec<Vec<Cell>>)
    requires
        editor.wf(),
    ensures
        rows@.len() == row_count(*viewport),
        forall|r: int| 0 <= r < rows@.len() ==> (#[trigger] rows@[r])@.len() == column_count(*viewport),
        forall|r: int, c: int|
            0 <= r < rows@.len() && 0 <= c < column_count(*viewport) ==> #[trigger] rows@[r]@[c]
                == cell_at(
                *editor,
                playhead,
                Pitch((viewport.pitches@.end.0 - r) as u8),
                Tick((viewport.ticks.start.0 + c) as u16),
            ),
{
    let low = lowest_of(&viewport.pitches).0;
    let high = highest_of(&viewport.pitches).0;
    let first = viewport.ticks.start.0;
    let count: u16 = if low <= high { high as u16 - low as u16 + 1 } else { 0 };
    let width: u16 = if first <= viewport.ticks.end.0 { viewport.ticks.end.0 - first } else { 0 };
    let mut rows: Vec<Vec<Cell>> = Vec::new();
    let mut r: u16 = 0;
    while r < count
        invariant
            editor.wf(),
            low == viewport.pitches@.start.0,
            high == viewport.pitches@.end.0,
            first == viewport.ticks.start.0,
            count == row_count(*viewport),
            width == column_count(*viewport),
            r <= count,
            rows@.len() == r,
            forall|k: int| 0 <= k < r ==> (#[trigger] rows@[k])@.len() == width,
            forall|k: int, c: int|
                0 <= k < r && 0 <= c < width ==> #[trigger] rows@[k]@[c] == cell_at(
                    *editor,
                    playhead,
                    Pitch((high - k) as u8),
                    Tick((first + c) as u16),
                ),
        decreases count - r,
    {
        let pitch = Pitch((high as u16 - r) as u8);
        let mut row: Vec<Cell> = Vec::new();
        let mut c: u16 = 0;
        while c < width
            invariant
                editor.wf(),
                first == viewport.ticks.start.0,
                width == column_count(*viewport),
                c <= width,
                row@.len() == c,
                forall|j: int| 0 <= j < c ==> #[trigger] row@[j] == cell_at(
                    *editor,
                    playhead,
                    pitch,
                    Tick((first + j) as u16),
                ),
            decreases width - c,
        {
            let tick = Tick(first + c);
            row.push(
                Cell {
                    mark: mark(editor, pitch, tick),
                    playhead: tick == playhead,
                    selected: selected(editor, Position { tick, pitch }),
                },
            );
            c = c + 1;
        }
        rows.push(row);
        r = r + 1;
    }
    rows
}

/// What the status line shows in `mode`, with `typed` on the command line.
pub open spec fn status_text(mode: Mode, typed: Seq<char>) -> Seq<char> {
    match mode {
        Mode::Normal => "NORMAL"@,
        Mode::Insert => "INSERT"@,
        Mode::Visual => "VISUAL"@,
        Mode::Help => "HELP"@,
        Mode::Command => seq![':'] + typed,
    }
}

/// The status line: always the mode, or — on the command line — what is being typed there.
pub fn status_line(editor: &Editor) -> (s: String)
    ensures
        s@ == status_text(editor.mode, editor.command_line@),
{
    match editor.mode {
        Mode::Normal => String::from_str("NORMAL"),
        Mode::Insert => String::from_str("INSERT"),
        Mode::Visual => String::from_str("VISUAL"),
        Mode::Help => String::from_str("HELP"),
        Mode::Command => {
            proof {
                reveal_strlit(":");
            }
            let mut s = String::from_str(":");
            s.append(editor.command_line.as_str());
            s
        },
    }
}

/// `text` padded with spaces on the right to at least `width` characters.
pub open spec fn padded(text: Seq<char>, width: nat) -> Seq<char> {
    if text.len() >= width {
        text
    } else {
        text + Seq::new((width - text.len()) as nat, |i: int| ' ')
    }
}

/// One entry of the help overlay: its keys, in a column 14 characters wide, then what they do.
pub open spec fn help_entry(keys: Seq<char>, description: Seq<char>) -> Seq<char> {
    "   "@ + padded(keys, 14) + " "@ + description
}

/// The help overlay's section for `mode`: its title, an entry per command bound there, then a
/// blank line.
pub open spec fn help_section(title: Seq<char>, mode: Mode) -> Seq<Seq<char>> {
    seq![" "@ + title] + bound_commands(mode).map_values(
        |c: Command| help_entry(keys_text(c), described(c)),
    ) + seq![Seq::<char>::empty()]
}

/// The help overlay's lines — computed from the same tables that drive dispatch, not a
/// separately maintained wall of text that could drift out of sync with the real bindings.
pub open spec fn help_text() -> Seq<Seq<char>> {
    seq![Seq::<char>::empty()] + help_section("Normal"@, Mode::Normal) + help_section("Insert"@, Mode::Insert)
        + help_section("Visual"@, Mode::Visual) + help_section("Help"@, Mode::Help) + seq![
        " Command line (`:`, then Enter)"@,
    ] + text_command_table().map_values(|e: (Seq<char>, Seq<char>)| help_entry(e.0, e.1))
}

/// The text of each of `lines`.
pub open spec fn texts(lines: Seq<String>) -> Seq<Seq<char>> {
    lines.map_values(|line: String| line@)
}

/// The texts of lines with one more pushed are the texts before, with its text pushed.
proof fn lemma_texts_push(lines: Seq<String>, line: String)
    ensures
        texts(lines.push(line)) == texts(lines).push(line@),
{
    assert(texts(lines.push(line)) =~= texts(lines).push(line@));
}

/// Pad `text` with spaces on the right to at least `width` characters.
fn pad(text: &mut String, width: usize)
    ensures
        final(text)@ == padded(old(text)@, width as nat),
{
    let ghost start = text@;
    let mut n = text.as_str().unicode_len();
    while n < width
        invariant
            n == text@.len(),
            start.len() <= n,
            n == start.len() || n <= width,
            text@ == start + Seq::new((n - start.len()) as nat, |i: int| ' '),
        decreases width - n,
    {
        crate::keymap::push_char(text, ' ');
        assert(text@ =~= start + Seq::new((n + 1 - start.len()) as nat, |i: int| ' '));
        n = n + 1;
    }
    assert(start.len() >= width ==> text@ =~= start);
    assert(start.len() < width ==> text@ =~= start + Seq::new((width - start.len()) as nat, |i: int| ' '));
}

/// One entry of the help overlay — see [`help_entry`].
fn entry(keys: &str, description: &str) -> (s: String)
    ensures
        s@ == help_entry(keys@, description@),
{
    proof {
        reveal_strlit("   ");
        reveal_strlit(" ");
    }
    let mut column = String::from_str(keys);
    pad(&mut column, 14);
    let mut s = String::from_str("   ");
    s.append(column.as_str());
    s.append(" ");
    s.append(description);
    s
}

/// Append the help overlay's section for `mode` — see [`help_section`].
fn push_section(lines: &mut Vec<String>, title: &str, mode: Mode)
    ensures
        texts(final(lines)@) == texts(old(lines)@) + help_section(title@, mode),
{
    proof {
        reveal_strlit(" ");
    }
    let ghost start = texts(lines@);
    let mut heading = String::from_str(" ");
    heading.append(title);
    lines.push(heading);
    let commands = bindings(mode);
    let ghost entries = bound_commands(mode).map_values(|c: Command| help_entry(keys_text(c), described(c)));
    assert(texts(lines@) =~= start + seq![" "@ + title@]);
    let mut i: usize = 0;
    while i < commands.len()
        invariant
            commands@ == bound_commands(mode),
            entries == bound_commands(mode).map_values(|c: Command| help_entry(keys_text(c), described(c))),
            i <= commands.len(),
            texts(lines@) == start + seq![" "@ + title@] + entries.take(i as int),
        decreases commands.len() - i,
    {
        let command = commands[i];
        let keys = keys_label(command);
        let line = entry(keys.as_str(), command.description());
        assert(line@ == entries[i as int]);
        proof {
            lemma_texts_push(lines@, line);
        }
        lines.push(line);
        assert(entries.take(i + 1) =~= entries.take(i as int).push(entries[i as int]));
        assert(texts(lines@) =~= start + seq![" "@ + title@] + entries.take(i + 1));
        i = i + 1;
    }
    let blank = String::new();
    proof {
        lemma_texts_push(lines@, blank);
    }
    lines.push(blank);
    assert(entries.take(commands@.len() as int) =~= entries);
    assert(texts(lines@) =~= start + help_section(title@, mode));
}

/// The help overlay's lines — see [`help_text`].
pub fn help_lines() -> (lines: Vec<String>)
    ensures
        texts(lines@) == help_text(),
{
    let mut lines: Vec<String> = Vec::new();
    lines.push(String::new());
    assert(texts(lines@) =~= seq![Seq::<char>::empty()]);
    push_section(&mut lines, "Normal", Mode::Normal);
    push_section(&mut lines, "Insert", Mode::Insert);
    push_section(&mut lines, "Visual", Mode::Visual);
    push_section(&mut lines, "Help", Mode::Help);
    let ghost before = texts(lines@);
    lines.push(String::from_str(" Command line (`:`, then Enter)"));
    let table = text_commands();
    let ghost entries = text_command_table().map_values(|e: (Seq<char>, Seq<char>)| help_entry(e.0, e.1));
    assert(texts(lines@) =~= before + seq![" Command line (`:`, then Enter)"@]);
    let mut i: usize = 0;
    while i < table.len()
        invariant
            table@.len() == text_command_table().len(),
            forall|k: int|
                0 <= k < table@.len() ==> (#[trigger] table@[k].0@, table@[k].1@) == text_command_table()[k],
            entries == text_command_table().map_values(|e: (Seq<char>, Seq<char>)| help_entry(e.0, e.1)),
            i <= table.len(),
            texts(lines@) == before + seq![" Command line (`:`, then Enter)"@] + entries.take(i as int),
        decreases table.len() - i,
    {
        let (name, description) = table[i];
        assert((table@[i as int].0@, table@[i as int].1@) == text_command_table()[i as int]);
        let line = entry(name, description);
        assert(line@ == entries[i as int]);
        proof {
            lemma_texts_push(lines@, line);
        }
        lines.push(line);
        assert(entries.take(i + 1) =~= entries.take(i as int).push(entries[i as int]));
        assert(texts(lines@) =~= before + seq![" Command line (`:`, then Enter)"@] + entries.take(i + 1));
        i = i + 1;
    }
    assert(entries.take(table@.len() as int) =~= entries);
    assert(texts(lines@) =~= help_text());
    lines
}

/// A rectangle of the terminal: its top-left corner and size, in cells.
#[derive(Debug, Clone, Copy, PartialEq, Eq, Structural)]
pub struct Area {
    /// The leftmost column.
    pub x: u16,
    /// The top row.
    pub y: u16,
    /// How many columns it spans.
    pub width: u16,
    /// How many rows it spans.
    pub height: u16,
}

/// A `width` by `height` rectangle centered within `area`, shrunk to fit it.
pub fn centered(area: Area, width: u16, height: u16) -> (r: Area)
    requires
        area.x + area.width <= u16::MAX,
        area.y + area.height <= u16::MAX,
    ensures
        r.width == (if width <= area.width { width } else { area.width }),
        r.height == (if height <= area.height { height } else { area.height }),
        r.x == area.x + (area.width - r.width) / 2,
        r.y == area.y + (area.height - r.height) / 2,
{
    let width = if width <= area.width { width } else { area.width };
    let height = if height <= area.height { height } else { area.height };
    Area {
        x: area.x + (area.width - width) / 2,
        y: area.y + (area.height - height) / 2,
        width,
        height,
    }
}

/// A grid cell shows the notes of its own row only: a note mark where a note at that very pitch
/// sounds at that tick — the start mark where it starts there and no note on the row has been
/// sounding since earlier, the body mark where one has — and nothing otherwise. The cell is
/// marked as the playhead exactly at the playhead's tick, and as selected exactly where a
/// range of the selection on that row spans that tick.
pub proof fn lemma_cells_show_their_own_row(e: Editor, playhead: Tick, pitch: Pitch, tick: Tick)
    ensures
        cell_at(e, playhead, pitch, tick).mark != Mark::Empty <==> exists|p: Position|
            edited_notes(e).contains_key(p) && p.pitch == pitch && #[trigger] note_at(edited_notes(e), p).covers(tick),
        cell_at(e, playhead, pitch, tick).mark == Mark::NoteBody <==> exists|p: Position|
            edited_notes(e).contains_key(p) && p.pitch == pitch && p.tick.0 < tick.0 && #[trigger] note_at(
                edited_notes(e),
                p,
            ).covers(tick),
        cell_at(e, playhead, pitch, tick).mark == Mark::NoteStart ==> edited_notes(e).contains_key(
            Position { tick, pitch },
        ),
        cell_at(e, playhead, pitch, tick).playhead <==> tick == playhead,
        cell_at(e, playhead, pitch, tick).selected <==> exists|i: int|
            0 <= i < e.selection@.len() && (#[trigger] e.selection@[i]).pitch == pitch && (if e.selection@[i].anchor.0
                <= e.selection@[i].head.0 {
                e.selection@[i].anchor.0 <= tick.0 <= e.selection@[i].head.0
            } else {
                e.selection@[i].head.0 <= tick.0 <= e.selection@[i].anchor.0
            }),
{
    let m = edited_notes(e);
    if exists|p: Position| m.contains_key(p) && p.pitch == pitch && #[trigger] note_at(m, p).covers(tick) {
        let p = choose|p: Position| m.contains_key(p) && p.pitch == pitch && #[trigger] note_at(m, p).covers(tick);
        assert(sounds_here(m, p, pitch, tick));
    }
    if exists|p: Position| m.contains_key(p) && p.pitch == pitch && p.tick.0 < tick.0 && #[trigger] note_at(m, p).covers(tick) {
        let p = choose|p: Position| m.contains_key(p) && p.pitch == pitch && p.tick.0 < tick.0 && #[trigger] note_at(m, p).covers(tick);
        assert(sounds_here(m, p, pitch, tick));
    }
    if cell_at(e, playhead, pitch, tick).mark == Mark::NoteStart {
        let p = choose|p: Position| #[trigger] sounds_here(m, p, pitch, tick);
        assert(p.tick.0 >= tick.0);
        assert(p == Position { tick, pitch });
    }
    let sel = e.selection@;
    if covered(sel, Position { tick, pitch }) {
        let i = choose|i: int| 0 <= i < sel.len() && #[trigger] sel[i].covers(Position { tick, pitch });
        assert(sel[i].pitch == pitch);
    }
    if exists|i: int|
        0 <= i < sel.len() && (#[trigger] sel[i]).pitch == pitch && (if sel[i].anchor.0 <= sel[i].head.0 {
            sel[i].anchor.0 <= tick.0 <= sel[i].head.0
        } else {
            sel[i].head.0 <= tick.0 <= sel[i].anchor.0
        }) {
        let i = choose|i: int|
            0 <= i < sel.len() && (#[trigger] sel[i]).pitch == pitch && (if sel[i].anchor.0 <= sel[i].head.0 {
                sel[i].anchor.0 <= tick.0 <= sel[i].head.0
            } else {
                sel[i].head.0 <= tick.0 <= sel[i].anchor.0
            });
        assert(sel[i].covers(Position { tick, pitch }));
    }
}

} // verus!
