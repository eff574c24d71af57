//! Jam Session rules: how well a played note fits the harmony of the bar,
//! the running improvisation tally, the play/rest phrasing pattern, and when
//! the looping backing music restarts.

use vstd::prelude::*;

verus! {

/// How "targeted" a sounding note is, worst to best.
#[derive(Debug, Clone, Copy, PartialEq, Eq, Structural)]
pub enum NoteFit {
    OutOfScale,
    InScale,
    ChordTone,
}

/// `note` is one of `classes`.
pub open spec fn listed(classes: Seq<String>, note: Seq<char>) -> bool {
    exists|i: int| 0 <= i < classes.len() && (#[trigger] classes[i])@ == note
}

/// Whether `note` is one of `classes`.
fn is_listed(classes: &[String], note: &str) -> (r: bool)
    ensures
        r == listed(classes@, note@),
{
    let wanted = note.to_string();
    proof {
        vstd::string::to_string_from_display_ensures_for_str(note, wanted);
    }
    let n = classes.len();
    let mut i: usize = 0;
    while i < n
        invariant
            n == classes@.len(),
            i <= n,
            wanted@ == note@,
            forall|j: int| 0 <= j < i ==> (#[trigger] classes@[j])@ != note@,
        decreases n - i,
    {
        if classes[i] == wanted {
            return true;
        }
        i = i + 1;
    }
    false
}

/// Classifies one played note class (e.g. `"G"`, no octave) by how well it
/// fits the harmonic context right now: a tone of the bar's chord is the most
/// targeted choice, elsewhere in the scale is still safe, anything else is out.
pub fn classify_note_fit(note: &str, chord_tones: &[String], scale_classes: &[String]) -> (r: NoteFit)
    ensures
        r == if listed(chord_tones@, note@) {
            NoteFit::ChordTone
        } else if listed(scale_classes@, note@) {
            NoteFit::InScale
        } else {
            NoteFit::OutOfScale
        },
{
    if is_listed(chord_tones, note) {
        NoteFit::ChordTone
    } else if is_listed(scale_classes, note) {
        NoteFit::InScale
    } else {
        NoteFit::OutOfScale
    }
}

/// Running tally of every fresh note attack of a Jam Session, by fit, and of
/// the attacks that landed in a rest window of the phrasing pattern.
#[derive(Debug, Default, Clone, Copy, PartialEq, Eq, Structural)]
pub struct ImprovStats {
    pub chord_tone: u32,
    pub in_scale: u32,
    pub out_of_scale: u32,
    pub rest_violations: u32,
}

impl ImprovStats {
    /// How many attacks were classified.
    pub fn total(&self) -> (r: u32)
        requires
            self.chord_tone + self.in_scale + self.out_of_scale <= u32::MAX,
        ensures
            r == self.chord_tone + self.in_scale + self.out_of_scale,
    {
        self.chord_tone + self.in_scale + self.out_of_scale
    }

    /// Tallies one fresh attack of fit `fit`; `resting` when it landed in a
    /// rest window.
    pub fn record_attack(&mut self, fit: NoteFit, resting: bool)
        requires
            match fit {
                NoteFit::ChordTone => old(self).chord_tone < u32::MAX,
                NoteFit::InScale => old(self).in_scale < u32::MAX,
                NoteFit::OutOfScale => old(self).out_of_scale < u32::MAX,
            },
            resting ==> old(self).rest_violations < u32::MAX,
        ensures
            final(self).chord_tone == old(self).chord_tone + if fit == NoteFit::ChordTone { 1int } else { 0int },
            final(self).in_scale == old(self).in_scale + if fit == NoteFit::InScale { 1int } else { 0int },
            final(self).out_of_scale == old(self).out_of_scale + if fit == NoteFit::OutOfScale { 1int } else { 0int },
            final(self).rest_violations == old(self).rest_violations + if resting { 1int } else { 0int },
    {
        match fit {
            NoteFit::ChordTone => self.chord_tone = self.chord_tone + 1,
            NoteFit::InScale => self.in_scale = self.in_scale + 1,
            NoteFit::OutOfScale => self.out_of_scale = self.out_of_scale + 1,
        }
        if resting {
            self.rest_violations = self.rest_violations + 1;
        }
    }
}

/// Bars of playing, then bars of rest, in the phrasing pattern every jam is
/// measured against.
pub const PHRASE_PLAY_BARS: usize = 2;
/// Bars of rest after the playing bars of the phrasing pattern.
pub const PHRASE_REST_BARS: usize = 2;

/// Whether `bar_index` (an absolute bar count) falls inside a rest window of
/// a repeating pattern of `play_bars` bars of playing then `rest_bars` bars
/// of rest. A zero-length cycle never counts as rest.
pub fn in_rest_window(bar_index: usize, play_bars: usize, rest_bars: usize) -> (r: bool)
    requires
        play_bars + rest_bars <= usize::MAX,
    ensures
        r == (play_bars + rest_bars > 0 && (bar_index as int) % (play_bars + rest_bars) >= play_bars),
{
    let cycle = play_bars + rest_bars;
    if cycle == 0 {
        return false;
    }
    bar_index % cycle >= play_bars
}

/// Whether the jam's music should be (re)spawned right now: the jam has
/// started, Loop is on, and the previous playthrough has finished.
pub fn should_restart_jam_music(loop_on: bool, music_started: bool, music_player_alive: bool) -> (r: bool)
    ensures
        r == (music_started && loop_on && !music_player_alive),
{
    music_started && loop_on && !music_player_alive
}

} // verus!
