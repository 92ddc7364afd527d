//! Editing mode — which keys mean what.

use vstd::prelude::*;

verus! {

/// The editor's current mode, following the Vim/Kakoune/Helix lineage.
#[derive(Debug, Clone, Copy, PartialEq, Eq, Structural)]
pub enum Mode {
    /// Movement and commands, not insertion.
    Normal,
    /// Inserting a note.
    Insert,
    /// Movement extends the selection instead of moving it (Helix's select mode).
    Visual,
    /// Typing a command on the `:` command line.
    Command,
    /// Showing the keybinding help overlay.
    Help,
}

impl Default for Mode {
    /// Normal mode.
    fn default() -> (m: Mode)
        ensures
            m == Mode::Normal,
    {
        Mode::Normal
    }
}

impl Mode {
    /// Enter `other`, or go back to normal mode if already in it — how a key that opens a mode
    /// (`v`, `?`) also closes it when pressed again.
    #[verifier::allow_in_spec]
    pub fn toggled(self, other: Mode) -> Mode
        returns
            (if self == other { Mode::Normal } else { other }),
    {
        if self == other {
            Mode::Normal
        } else {
            other
        }
    }
}

/// A key that opens a mode closes it again: from normal mode, entering another mode and toggling
/// it once more comes back to normal mode — and from inside that mode, the other way round.
pub proof fn lemma_toggled_twice(m: Mode, other: Mode)
    requires
        other != Mode::Normal,
        m == Mode::Normal || m == other,
    ensures
        m.toggled(other).toggled(other) == m,
{
}

} // verus!
