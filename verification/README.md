# osti

A terminal, keyboard-driven, modal tool for composing music — its core verified with Verus.

- `src/` is the library, every function of it verified: the note grid (`track`, `pattern`,
  `range`, `selection`), the audio-relevant state and its undoable actions (`playback`,
  `transport`), the editing session with its history (`editor`, `history`, `action`), the keymap
  that turns keys into actions (`keymap`, `viewport`), what the screen shows (`screen`), which
  voices the audio side renders (`voices`), and one step of the interactive loop (`session`).
- `app/` is the program around it: the terminal (`crossterm`, `ratatui`), the audio device
  (`cpal`, `dasp_signal`, `rtrb`), and the command line (`clap`).
- `tests/` exercises the library from outside.
