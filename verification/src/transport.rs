//! Playback intent and position.

use vstd::prelude::*;

use crate::time::Tick;

verus! {

/// Whether the transport is advancing.
///
/// There's no separate "stopped" state: stopping is pausing and seeking to the start (`Tick(0)`)
/// at once, not a third thing to represent.
#[derive(Debug, Clone, Copy, PartialEq, Eq, Structural)]
pub enum PlaybackIntent {
    /// Not advancing.
    Paused,
    /// Advancing.
    Playing,
}

impl Default for PlaybackIntent {
    /// Paused.
    fn default() -> (i: PlaybackIntent)
        ensures
            i == PlaybackIntent::Paused,
    {
        PlaybackIntent::Paused
    }
}

impl PlaybackIntent {
    /// The other state — play/pause always means "switch to whichever I'm not."
    #[verifier::allow_in_spec]
    pub fn toggled(self) -> PlaybackIntent
        returns
            (match self {
                PlaybackIntent::Playing => PlaybackIntent::Paused,
                PlaybackIntent::Paused => PlaybackIntent::Playing,
            }),
    {
        match self {
            PlaybackIntent::Playing => PlaybackIntent::Paused,
            PlaybackIntent::Paused => PlaybackIntent::Playing,
        }
    }
}

/// Toggling twice comes back to where it started: play/pause pressed twice is a no-op.
pub proof fn lemma_toggled_twice(i: PlaybackIntent)
    ensures
        i.toggled() != i,
        i.toggled().toggled() == i,
{
}

/// The transport's state: whether it's running, and where.
#[derive(Debug, Clone, Copy, PartialEq, Eq, Structural)]
pub struct Transport {
    /// Whether playback is currently advancing.
    pub intent: PlaybackIntent,
    /// The current (or, while paused, the resume) position.
    pub position: Tick,
}

impl Default for Transport {
    /// Paused at the start.
    fn default() -> (t: Transport)
        ensures
            t == (Transport { intent: PlaybackIntent::Paused, position: Tick(0) }),
    {
        Transport { intent: PlaybackIntent::Paused, position: Tick(0) }
    }
}

} // verus!
