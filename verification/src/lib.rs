//! `osti`, a keyboard-driven, modal tool for composing music: tracks, notes, selection, and the
//! action/undo core; the keymap that turns keys into actions; what the screen shows; and which
//! voices the audio side renders.

pub mod action;
pub mod editor;
pub mod grid;
pub mod history;
pub mod keymap;
pub mod mode;
pub mod pattern;
pub mod pitch;
pub mod playback;
pub mod range;
pub mod screen;
pub mod selection;
pub mod session;
pub mod time;
pub mod track;
pub mod transport;
pub mod viewport;
pub mod voices;

pub use action::Action;
pub use editor::Editor;
pub use keymap::{Key, Keymap};
pub use mode::Mode;
pub use pitch::Pitch;
pub use playback::{Playback, PlaybackAction, TrackId};
pub use range::Range;
pub use selection::Selection;
pub use time::{Length, Tick};
pub use track::{Note, Position, Track};
pub use transport::{PlaybackIntent, Transport};
pub use viewport::Viewport;
