//! The harp-layout module's own note-name conversions. Unlike
//! [`super::midi::note_to_midi`], this reader does not screen out non-ASCII
//! text: it needs the first character to be ASCII, since it splits the name
//! at byte offsets 1 and 2 (a split inside a multi-byte character panics).

use vstd::prelude::*;
use crate::audio_system::midi::{fields_fit, fields_value, midi_name, note_parts, pitch_class_of, push_pitch_name, trunc_div};
use crate::text::{chars_of, parse_i32_from, push_i64_decimal};

verus! {

/// Converts a note string like "G4", "C#5" or "Bb3" to a MIDI number, reading
/// flats as their enharmonic sharps, a semitone below the natural (so "Cb4"
/// is B3).
pub fn note_to_midi(note: &str) -> (r: Option<i32>)
    requires
        note@.len() > 0,
        (note@[0] as int) < 128,
        fields_fit(note_parts(note@)),
    ensures
        match r {
            Some(v) => fields_value(note_parts(note@)) == Some(v as int),
            None => fields_value(note_parts(note@)) is None,
        },
{
    let cs = chars_of(note);
    let ghost s = note@;
    let two = cs.len() >= 3 && (cs[1] == '#' || cs[1] == 'b');
    let c1 = if cs.len() >= 2 { cs[1] } else { ' ' };
    let st = pitch_class_of(cs[0], c1, two);
    proof {
        if two {
            assert(s.take(2) =~= seq![s[0], s[1]]);
        } else {
            assert(s.take(1) =~= seq![s[0]]);
        }
    }
    let st = match st {
        Some(v) => v,
        None => return None,
    };
    let start: usize = if two { 2 } else { 1 };
    match parse_i32_from(&cs, start) {
        Some(oc) => Some((oc + 1) * 12 + st),
        None => None,
    }
}

/// Sharp-spelled note name for a MIDI number: 60 is "C4".
pub fn midi_to_note(midi: i32) -> (r: String)
    ensures
        r@ == midi_name(midi as int),
{
    let semitone = ((midi % 12) + 12) % 12;
    let m = midi as i64;
    let am: u64 = if m >= 0 { m as u64 } else { (-m) as u64 };
    let q = (am / 12) as i64;
    let octave = if m >= 0 { q - 1 } else { -q - 1 };
    assert(semitone == (midi as int) % 12);
    assert(octave == trunc_div(midi as int, 12) - 1);
    let mut s = String::new();
    push_pitch_name(&mut s, semitone as u8);
    push_i64_decimal(&mut s, octave);
    s
}

} // verus!
