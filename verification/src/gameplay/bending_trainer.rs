//! The Bending Trainer's rules: stepping through the twelve keys, the Richter
//! harp of a key (the C layout transposed to where the real harp sits), the
//! six technique rows the ear-training target cycles through, and the note a
//! hole/technique target asks for.

use vstd::prelude::*;
use crate::audio_system::midi::{midi_name, midi_to_note, note_to_midi};
use crate::gameplay::harmonica_overlay::{
    blow_note, bend_notes, draw_note, hole_notes, hole_notes_defined, over_note, HoleNotes, opt_view,
};
use crate::harmonica::{
    name_views, root_index, root_index_of, semitone, semitone_name, views, BendingProfile, DiatonicLayout, Harmonica,
};
use crate::midi_to_chart::{c_blow_midi, c_draw_midi, c_richter_blow, c_richter_draw, lemma_c_richter_notes};
use crate::text::{nat_digits, push_nat_digits};

verus! {

// ── Keys ────────────────────────────────────────────────────────────────────

/// The key the trainer's diagram is currently built for.
#[derive(Debug, Clone)]
pub struct TrainerKey(pub String);

impl Default for TrainerKey {
    fn default() -> (r: Self)
        ensures
            r.0@ == "C"@,
    {
        TrainerKey(String::from_str("C"))
    }
}

/// The key after `k` in C, C#, ..., B, wrapping to C; an unknown key counts as C.
pub fn next_key(k: &str) -> (r: String)
    ensures
        r@ == semitone_name(k@, 1),
{
    semitone(k, 1)
}

/// The key before `k` in C, C#, ..., B, wrapping to B; an unknown key counts as C.
pub fn prev_key(k: &str) -> (r: String)
    ensures
        r@ == semitone_name(k@, 11),
{
    semitone(k, 11)
}

/// Stepping to the next key and back returns to the key (for any of the
/// twelve names; an unknown name is read as C).
pub proof fn lemma_key_steps_invert(k: Seq<char>)
    ensures
        semitone_name(semitone_name(k, 1), 11) == semitone_name(k, 0),
        semitone_name(semitone_name(k, 11), 1) == semitone_name(k, 0),
{
    let i = root_index(k);
    crate::harmonica::lemma_sharp_name_index(k);
    assert(0 <= i < 12);
    let up = (i + 1) % 12;
    let down = (i + 11) % 12;
    crate::harmonica::lemma_sharp_name_index(crate::audio_system::midi::note_names()[up]);
    crate::harmonica::lemma_sharp_name_index(crate::audio_system::midi::note_names()[down]);
    assert(root_index(semitone_name(k, 1)) == up);
    assert(root_index(semitone_name(k, 11)) == down);
}

/// Semitone shift from a C harp to a key, choosing the octave the real harp
/// sits in: keys up to F# pitch above C, G–B below (the "low" harps).
pub open spec fn key_shift(key: Seq<char>) -> int {
    if root_index(key) <= 6 { root_index(key) } else { root_index(key) - 12 }
}

/// Semitone shift from a C harp to `key`, choosing the octave the real harp
/// sits in: keys up to F# pitch above C, G–B pitch below (the "low" harps).
pub fn key_offset(key: &str) -> (r: i32)
    ensures
        r == key_shift(key@),
        -5 <= r <= 6,
{
    let k = root_index_of(key);
    if k <= 6 { k } else { k - 12 }
}

/// The note names of the MIDI numbers `midi` moved by `off` semitones.
pub open spec fn shifted_names(midi: Seq<int>, off: int) -> Seq<Seq<char>> {
    Seq::new(midi.len(), |i: int| midi_name(midi[i] + off))
}

/// Reads each name and writes the note `off` semitones away.
fn transpose_layout(names: [&'static str; 10], midi: Ghost<Seq<int>>, off: i32) -> (r: Vec<String>)
    requires
        midi@.len() == 10,
        forall|i: int| 0 <= i < 10 ==> crate::audio_system::midi::note_value(#[trigger] names@[i]@) == Some(midi@[i]),
        forall|i: int| 0 <= i < 10 ==> crate::audio_system::midi::note_value_fits(#[trigger] names@[i]@),
        forall|i: int| 0 <= i < 10 ==> 0 <= #[trigger] midi@[i] <= 127,
        -12 <= off <= 12,
    ensures
        views(r@) == shifted_names(midi@, off as int),
{
    let mut r: Vec<String> = Vec::new();
    let mut i: usize = 0;
    while i < 10
        invariant
            i <= 10,
            midi@.len() == 10,
            forall|j: int| 0 <= j < 10 ==> crate::audio_system::midi::note_value(#[trigger] names@[j]@) == Some(midi@[j]),
            forall|j: int| 0 <= j < 10 ==> crate::audio_system::midi::note_value_fits(#[trigger] names@[j]@),
            forall|j: int| 0 <= j < 10 ==> 0 <= #[trigger] midi@[j] <= 127,
            -12 <= off <= 12,
            views(r@) == shifted_names(midi@, off as int).take(i as int),
        decreases 10 - i,
    {
        let name = names[i];
        assert(name@ == names@[i as int]@);
        if let Some(m) = note_to_midi(name) {
            let ghost before = r@;
            let t = midi_to_note(m + off);
            r.push(t);
            assert(views(r@) =~= shifted_names(midi@, off as int).take(i + 1)) by {
                assert(views(before).len() == before.len());
                assert(before.len() == i);
                assert(r@ == before.push(t));
                assert(views(r@).len() == i + 1);
                assert forall|j: int| 0 <= j < i + 1 implies #[trigger] views(r@)[j]
                    == shifted_names(midi@, off as int).take(i + 1)[j] by {
                    if j < i {
                        assert(r@[j] == before[j]);
                        assert(views(before)[j] == shifted_names(midi@, off as int).take(i as int)[j]);
                    }
                }
            }
        }
        i = i + 1;
    }
    assert(shifted_names(midi@, off as int).take(10) =~= shifted_names(midi@, off as int));
    r
}

/// A Richter diatonic harp for `key`, transposed from the C reference layout.
pub fn richter_harp(key: &str) -> (r: Harmonica)
    ensures
        r matches Harmonica::Diatonic { holes, bending_profile, position, layout: Some(l) }
            && holes == 10 && bending_profile == BendingProfile::RichterStandard && position is None
            && l.blow is Some && l.draw is Some
            && name_views(l.blow) == shifted_names(c_blow_midi(), key_shift(key@))
            && name_views(l.draw) == shifted_names(c_draw_midi(), key_shift(key@)),
{
    let off = key_offset(key);
    proof {
        lemma_c_richter_notes();
    }
    let blow = transpose_layout(c_richter_blow(), Ghost(c_blow_midi()), off);
    let draw = transpose_layout(c_richter_draw(), Ghost(c_draw_midi()), off);
    Harmonica::Diatonic {
        holes: 10,
        bending_profile: BendingProfile::RichterStandard,
        position: None,
        layout: Some(DiatonicLayout { blow: Some(blow), draw: Some(draw) }),
    }
}

// ── Ear-training target ─────────────────────────────────────────────────────

/// Which of the six technique rows in the diagram is the current target.
#[derive(Debug, Clone, Copy, PartialEq, Eq, Structural)]
pub enum Technique {
    Blow,
    Draw,
    Bend1,
    Bend2,
    Bend3,
    Over,
}

/// The technique after `t` in the row cycle, wrapping from Over to Blow.
pub open spec fn technique_after(t: Technique) -> Technique {
    match t {
        Technique::Blow => Technique::Draw,
        Technique::Draw => Technique::Bend1,
        Technique::Bend1 => Technique::Bend2,
        Technique::Bend2 => Technique::Bend3,
        Technique::Bend3 => Technique::Over,
        Technique::Over => Technique::Blow,
    }
}

/// `n` steps along the cycle from `t`.
pub open spec fn technique_steps(t: Technique, n: nat) -> Technique
    decreases n,
{
    if n == 0 { t } else { technique_after(technique_steps(t, (n - 1) as nat)) }
}

/// The label of a technique row.
pub open spec fn technique_label(t: Technique) -> Seq<char> {
    match t {
        Technique::Blow => "Blow"@,
        Technique::Draw => "Draw"@,
        Technique::Bend1 => "\u{00BD}-step bend"@,
        Technique::Bend2 => "1-step bend"@,
        Technique::Bend3 => "1\u{00BD}-step bend"@,
        Technique::Over => "Overblow/draw"@,
    }
}

/// The note of `holes` for technique `t`.
pub open spec fn technique_note_of(t: Technique, blow: Option<Seq<char>>, draw: Option<Seq<char>>,
    bends: Seq<Seq<char>>, over: Option<Seq<char>>) -> Option<Seq<char>> {
    match t {
        Technique::Blow => blow,
        Technique::Draw => draw,
        Technique::Bend1 => if bends.len() > 0 { Some(bends[0]) } else { None },
        Technique::Bend2 => if bends.len() > 1 { Some(bends[1]) } else { None },
        Technique::Bend3 => if bends.len() > 2 { Some(bends[2]) } else { None },
        Technique::Over => over,
    }
}

impl Technique {
    /// The row's label, e.g. "½-step bend".
    pub fn label(self) -> (r: &'static str)
        ensures
            r@ == technique_label(self),
    {
        match self {
            Technique::Blow => "Blow",
            Technique::Draw => "Draw",
            Technique::Bend1 => "\u{00BD}-step bend",
            Technique::Bend2 => "1-step bend",
            Technique::Bend3 => "1\u{00BD}-step bend",
            Technique::Over => "Overblow/draw",
        }
    }

    /// The next row: Blow, Draw, the three bends, Over, then Blow again.
    pub fn next(self) -> (r: Self)
        ensures
            r == technique_after(self),
    {
        match self {
            Technique::Blow => Technique::Draw,
            Technique::Draw => Technique::Bend1,
            Technique::Bend1 => Technique::Bend2,
            Technique::Bend2 => Technique::Bend3,
            Technique::Bend3 => Technique::Over,
            Technique::Over => Technique::Blow,
        }
    }

    /// The previous row: the same cycle walked backward, which with six rows
    /// is five steps forward.
    pub fn prev(self) -> (r: Self)
        ensures
            r == technique_steps(self, 5),
    {
        let mut t = self;
        let mut i: u8 = 0;
        while i < 5
            invariant
                i <= 5,
                t == technique_steps(self, i as nat),
            decreases 5 - i,
        {
            t = t.next();
            i = i + 1;
        }
        t
    }

    /// The note the row shows for one hole, or `None` when the hole has no
    /// such technique.
    pub fn note(self, holes: &HoleNotes) -> (r: Option<&str>)
        ensures
            technique_note_of(self, opt_view(holes.blow), opt_view(holes.draw), views(holes.bends@), opt_view(holes.over))
                == match r {
                    Some(s) => Some(s@),
                    None => None::<Seq<char>>,
                },
    {
        match self {
            Technique::Blow => match &holes.blow {
                Some(s) => Some(s.as_str()),
                None => None,
            },
            Technique::Draw => match &holes.draw {
                Some(s) => Some(s.as_str()),
                None => None,
            },
            Technique::Bend1 => if holes.bends.len() > 0 { Some(holes.bends[0].as_str()) } else { None },
            Technique::Bend2 => if holes.bends.len() > 1 { Some(holes.bends[1].as_str()) } else { None },
            Technique::Bend3 => if holes.bends.len() > 2 { Some(holes.bends[2].as_str()) } else { None },
            Technique::Over => match &holes.over {
                Some(s) => Some(s.as_str()),
                None => None,
            },
        }
    }
}

/// Six steps along the technique cycle come back to the start, and stepping
/// back undoes stepping forward (and the other way round).
pub proof fn lemma_technique_cycle(t: Technique)
    ensures
        technique_steps(t, 6) == t,
        technique_steps(technique_after(t), 5) == t,
        technique_after(technique_steps(t, 5)) == t,
{
    reveal_with_fuel(technique_steps, 7);
    assert(technique_steps(technique_after(t), 5) == technique_steps(t, 6)) by {
        lemma_steps_shift(t, 5);
    }
}

proof fn lemma_steps_shift(t: Technique, n: nat)
    ensures
        technique_steps(technique_after(t), n) == technique_steps(t, (n + 1) as nat),
    decreases n,
{
    if n > 0 {
        lemma_steps_shift(t, (n - 1) as nat);
        assert(technique_steps(t, (n + 1) as nat) == technique_after(technique_steps(t, n)));
    } else {
        assert(technique_steps(t, 1) == technique_after(technique_steps(t, 0)));
    }
}

/// The hole + technique the "Listen" button and the live tuner readout target.
#[derive(Debug, Clone, Copy, PartialEq, Eq)]
pub struct TrainerTarget {
    pub hole: u8,
    pub technique: Technique,
}

impl Default for TrainerTarget {
    /// Hole 2's half-step draw bend: the classic first bend most players learn.
    fn default() -> (r: Self)
        ensures
            r.hole == 2 && r.technique == Technique::Bend1,
    {
        TrainerTarget { hole: 2, technique: Technique::Bend1 }
    }
}

/// The note `harp` sounds at `hole` with technique `t`.
pub open spec fn target_note_of(harp: Harmonica, hole: int, t: Technique) -> Option<Seq<char>> {
    technique_note_of(t, blow_note(harp, hole), draw_note(harp, hole), bend_notes(harp, hole), over_note(harp, hole))
}

/// Note name for the current target on `harp`, or `None` if that hole doesn't
/// have that technique (e.g. hole 5 has no bend, most holes have no overblow).
pub fn target_note(harp: &Harmonica, target: TrainerTarget) -> (r: Option<String>)
    requires
        hole_notes_defined(*harp, target.hole as int),
    ensures
        opt_view(r) == target_note_of(*harp, target.hole as int, target.technique),
{
    let holes = hole_notes(harp, target.hole);
    match target.technique.note(&holes) {
        Some(s) => {
            let owned = s.to_string();
            proof {
                vstd::string::to_string_from_display_ensures_for_str(s, owned);
            }
            Some(owned)
        },
        None => None,
    }
}

/// "Target: Hole 2  ·  ½-step bend".
pub open spec fn target_label(hole: u8, t: Technique) -> Seq<char> {
    "Target: Hole "@ + nat_digits(hole as nat) + "  \u{00B7}  "@ + technique_label(t)
}

/// The text of the "Target: ..." readout.
pub fn target_label_text(hole: u8, technique: Technique) -> (r: String)
    ensures
        r@ == target_label(hole, technique),
{
    let mut s = String::from_str("Target: Hole ");
    push_nat_digits(&mut s, hole as u64);
    s.append("  \u{00B7}  ");
    s.append(technique.label());
    s
}

} // verus!
