//! What the 2D note highway shows about a chart item besides its hole: the
//! badge of the multi-note play modes.

use vstd::prelude::*;

verus! {

/// How the notes of one chart item are played: a single note, a chord of
/// neighbouring holes, or an octave split.
#[derive(Debug, Clone, Copy, PartialEq, Eq, Structural)]
pub enum PlayMode {
    Single,
    Chord,
    Split,
}

/// The badge text of a play mode; a single note (or an item that names no
/// mode) carries no badge.
pub open spec fn play_mode_badge(mode: Option<PlayMode>) -> Option<Seq<char>> {
    match mode {
        Some(PlayMode::Chord) => Some("chord"@),
        Some(PlayMode::Split) => Some("split"@),
        _ => None,
    }
}

/// Label for the multi-note play modes; `single` (and absent) needs no badge.
pub fn play_mode_label(mode: Option<&PlayMode>) -> (r: Option<&'static str>)
    ensures
        match (r, play_mode_badge(match mode { Some(m) => Some(*m), None => None })) {
            (Some(s), Some(b)) => s@ == b,
            (None, None) => true,
            _ => false,
        },
{
    match mode {
        Some(PlayMode::Chord) => Some("chord"),
        Some(PlayMode::Split) => Some("split"),
        Some(PlayMode::Single) | None => None,
    }
}

} // verus!
