//! The pause menu's rules: stepping the phrase selector through the song's
//! sections, the adaptive-difficulty readout, and what the resume / restart /
//! quit buttons and the Escape key do to the pause state.

use vstd::prelude::*;
use vstd::arithmetic::div_mod::{lemma_mod_add_multiples_vanish, lemma_mod_self_0, lemma_small_mod};

verus! {

/// Whether gameplay is paused.
#[derive(Debug, Default, Clone, Copy, PartialEq, Eq)]
pub struct Paused(pub bool);

/// Set when leaving a song should land on the song list, not the main menu.
#[derive(Debug, Default, Clone, Copy, PartialEq, Eq)]
pub struct ReturnToSongList(pub bool);

/// Which of the song's phrase sections the selector is showing/editing.
#[derive(Debug, Default, Clone, Copy, PartialEq, Eq)]
pub struct SelectedPhraseIndex(pub usize);

/// The screen a pause-menu button sends the game to.
#[derive(Debug, Clone, Copy, PartialEq, Eq, Structural)]
pub enum NextScreen {
    /// Reload the current song from the start.
    SongLoading,
    /// Leave the song for the menus.
    Menu,
}

/// The index after `current` among `count` sections, wrapping.
pub open spec fn index_after(current: int, count: int) -> int {
    if count == 0 { 0 } else { (current + 1) % count }
}

/// The index before `current` among `count` sections, wrapping.
pub open spec fn index_before(current: int, count: int) -> int {
    if count == 0 { 0 } else { (current + count - 1) % count }
}

/// Next index in `0..count`, wrapping; `0` for a song with no sections.
pub fn next_phrase_index(current: usize, count: usize) -> (r: usize)
    requires
        count > 0 ==> current < usize::MAX,
    ensures
        r == index_after(current as int, count as int),
{
    if count == 0 {
        return 0;
    }
    (current + 1) % count
}

/// Previous index in `0..count`, wrapping; `0` for a song with no sections.
pub fn prev_phrase_index(current: usize, count: usize) -> (r: usize)
    requires
        count > 0 ==> current + count <= usize::MAX,
    ensures
        r == index_before(current as int, count as int),
{
    if count == 0 {
        return 0;
    }
    (current + count - 1) % count
}

/// Stepping forward then back (or back then forward) returns to a selected
/// section, and each step stays within the sections.
pub proof fn lemma_phrase_steps_invert(current: int, count: int)
    requires
        0 <= current < count,
    ensures
        0 <= index_after(current, count) < count,
        0 <= index_before(current, count) < count,
        index_before(index_after(current, count), count) == current,
        index_after(index_before(current, count), count) == current,
{
    let a = index_after(current, count);
    let b = index_before(current, count);
    if current + 1 < count {
        lemma_small_mod((current + 1) as nat, count as nat);
        assert(a == current + 1);
        lemma_mod_add_multiples_vanish(current, count);
        lemma_small_mod(current as nat, count as nat);
        assert(index_before(a, count) == (count + current) % count);
    } else {
        lemma_mod_self_0(count);
        assert(a == 0);
        lemma_small_mod((count - 1) as nat, count as nat);
    }
    if current == 0 {
        lemma_small_mod((count - 1) as nat, count as nat);
        assert(b == count - 1);
        lemma_mod_self_0(count);
    } else {
        lemma_mod_add_multiples_vanish(current - 1, count);
        lemma_small_mod((current - 1) as nat, count as nat);
        assert(b == (count + (current - 1)) % count);
        assert(b == current - 1);
        lemma_small_mod(current as nat, count as nat);
    }
}

/// "Adaptive Difficulty: on" or "... off".
pub open spec fn adaptive_label(enabled: bool) -> Seq<char> {
    "Adaptive Difficulty: "@ + if enabled { "on"@ } else { "off"@ }
}

/// The "Adaptive Difficulty: on/off" readout.
pub fn adaptive_difficulty_label_text(enabled: bool) -> (r: String)
    ensures
        r@ == adaptive_label(enabled),
{
    let mut s = String::from_str("Adaptive Difficulty: ");
    s.append(if enabled { "on" } else { "off" });
    s
}

/// Resume: unpause, staying in the song.
pub fn apply_resume(paused: &mut Paused)
    ensures
        final(paused).0 == false,
{
    paused.0 = false;
}

/// Restart: unpause and reload the song from the start.
pub fn apply_restart(paused: &mut Paused) -> (next: NextScreen)
    ensures
        final(paused).0 == false,
        next == NextScreen::SongLoading,
{
    paused.0 = false;
    NextScreen::SongLoading
}

/// Quit the song: unpause and land back on the song list.
pub fn apply_quit(paused: &mut Paused, return_to_song_list: &mut ReturnToSongList) -> (next: NextScreen)
    ensures
        final(paused).0 == false,
        final(return_to_song_list).0 == true,
        next == NextScreen::Menu,
{
    paused.0 = false;
    return_to_song_list.0 = true;
    NextScreen::Menu
}

/// Escape toggles the pause state; returns whether the game is now paused.
pub fn toggle_pause(paused: &mut Paused) -> (now_paused: bool)
    ensures
        final(paused).0 == !old(paused).0,
        now_paused == final(paused).0,
{
    paused.0 = !paused.0;
    paused.0
}

} // verus!
