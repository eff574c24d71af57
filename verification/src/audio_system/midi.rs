//! Note names ("G4", "C#5", "Bb3") and MIDI note numbers.

use vstd::prelude::*;
use vstd::utf8::is_ascii_chars;
use crate::text::{chars_of, int_decimal, is_digit, lemma_int_decimal_ascii, lemma_parse_int_decimal, parse_i32_from, parse_i32_spec, push_i64_decimal};

verus! {

/// The twelve sharp-spelled pitch-class names, C first.
pub open spec fn note_names() -> Seq<Seq<char>> {
    seq![
        seq!['C'], seq!['C', '#'], seq!['D'], seq!['D', '#'], seq!['E'], seq!['F'],
        seq!['F', '#'], seq!['G'], seq!['G', '#'], seq!['A'], seq!['A', '#'], seq!['B'],
    ]
}

/// Index in [`note_names`] of a natural letter name.
pub open spec fn natural_class(c: char) -> Option<int> {
    if c == 'C' { Some(0) }
    else if c == 'D' { Some(2) }
    else if c == 'E' { Some(4) }
    else if c == 'F' { Some(5) }
    else if c == 'G' { Some(7) }
    else if c == 'A' { Some(9) }
    else if c == 'B' { Some(11) }
    else { None }
}

/// Index in [`note_names`] of `c` followed by `#`: only the five sharps the
/// table spells (`E#` and `B#` are not note names).
pub open spec fn sharp_class(c: char) -> Option<int> {
    if c == 'C' { Some(1) }
    else if c == 'D' { Some(3) }
    else if c == 'F' { Some(6) }
    else if c == 'G' { Some(8) }
    else if c == 'A' { Some(10) }
    else { None }
}

/// Semitones above the written octave's C of `c` followed by `b`: the flat
/// is read as its enharmonic sharp one semitone below the natural (`Db`→`C#`,
/// `Eb`→`D#`, `Fb`→`E`, `Gb`→`F#`, `Ab`→`G#`, `Bb`→`A#`). `Cb` is the `B` of
/// the octave below, so its offset is -1 (Cb4 is B3).
pub open spec fn flat_class(c: char) -> Option<int> {
    if c == 'D' { Some(1) }
    else if c == 'E' { Some(3) }
    else if c == 'F' { Some(4) }
    else if c == 'G' { Some(6) }
    else if c == 'A' { Some(8) }
    else if c == 'B' { Some(10) }
    else if c == 'C' { Some(-1) }
    else { None }
}

/// Semitones above the written octave's C of a one- or two-character pitch
/// spelling (a pitch class, except -1 for `Cb`).
pub open spec fn pitch_class(p: Seq<char>) -> Option<int> {
    if p.len() == 1 {
        natural_class(p[0])
    } else if p.len() == 2 && p[1] == '#' {
        sharp_class(p[0])
    } else if p.len() == 2 && p[1] == 'b' {
        flat_class(p[0])
    } else {
        None
    }
}

/// Whether a note name's pitch part is two characters long: a `#` or `b`
/// second character, with at least one character after it.
pub open spec fn has_accidental(s: Seq<char>) -> bool {
    s.len() >= 3 && (s[1] == '#' || s[1] == 'b')
}

/// `(semitone offset, octave)` read from a note name whose first character exists:
/// the pitch part is the first one or two characters (see [`has_accidental`]),
/// the octave is the rest, parsed as an `i32`.
pub open spec fn note_parts(s: Seq<char>) -> Option<(int, int)> {
    let p = if has_accidental(s) { s.take(2) } else { s.take(1) };
    let o = if has_accidental(s) { s.skip(2) } else { s.skip(1) };
    match pitch_class(p) {
        Some(st) => match parse_i32_spec(o) {
            Some(oc) => Some((st, oc)),
            None => None,
        },
        None => None,
    }
}

/// `(semitone offset, octave)` of a note name such as `"G4"` or `"Bb3"`; empty or
/// non-ASCII names have none.
pub open spec fn note_fields(s: Seq<char>) -> Option<(int, int)> {
    if s.len() == 0 || !is_ascii_chars(s) {
        None
    } else {
        note_parts(s)
    }
}

/// The MIDI number `(octave + 1) * 12 + semitone offset` of `fields` can be
/// computed in `i32` arithmetic without overflowing.
pub open spec fn fields_fit(fields: Option<(int, int)>) -> bool {
    match fields {
        Some((st, oc)) => fits_i32(oc + 1) && fits_i32((oc + 1) * 12) && fits_i32((oc + 1) * 12 + st),
        None => true,
    }
}

/// MIDI number `(octave + 1) * 12 + semitone offset` of `fields`.
pub open spec fn fields_value(fields: Option<(int, int)>) -> Option<int> {
    match fields {
        Some((st, oc)) => Some((oc + 1) * 12 + st),
        None => None,
    }
}

pub open spec fn fits_i32(x: int) -> bool {
    i32::MIN <= x <= i32::MAX
}

/// The MIDI number of an ASCII note name can be computed without overflow.
pub open spec fn note_value_fits(s: Seq<char>) -> bool {
    fields_fit(note_fields(s))
}

/// MIDI number of a note name: C4 is 60.
pub open spec fn note_value(s: Seq<char>) -> Option<int> {
    fields_value(note_fields(s))
}

/// A flat sounds a semitone below its natural: for a natural letter `c` and
/// an octave text `o` that reads as an `i32`, the name `c` `b` `o` is one
/// semitone below the name `c` `o` (so "Cb4" is one below "C4", B3).
pub proof fn lemma_flat_below_natural(c: char, o: Seq<char>)
    requires
        natural_class(c) is Some,
        parse_i32_spec(o) is Some,
    ensures
        fields_value(note_parts(seq![c] + o)) is Some,
        fields_value(note_parts(seq![c, 'b'] + o))
            == Some(fields_value(note_parts(seq![c] + o)).unwrap() - 1),
{
    let flat = seq![c, 'b'] + o;
    let natural = seq![c] + o;
    assert(o.len() > 0);
    assert(o[0] == '-' || o[0] == '+' || is_digit(o[0])) by {
        if !(o[0] == '-' || o[0] == '+') {
            assert(o[0] == o[0 as int]);
        }
    }
    assert(has_accidental(flat));
    assert(flat.take(2) =~= seq![c, 'b']);
    assert(flat.skip(2) =~= o);
    assert(natural[1] == o[0]);
    assert(!has_accidental(natural));
    assert(natural.take(1) =~= seq![c]);
    assert(natural.skip(1) =~= o);
}

/// Rust's truncating integer division (`/` on `i32`).
pub open spec fn trunc_div(a: int, b: int) -> int {
    if a >= 0 {
        a / b
    } else {
        -((-a) / b)
    }
}

/// Sharp-spelled name of a MIDI number: the pitch class by Euclidean remainder,
/// the octave as `midi / 12 - 1` with truncating division.
pub open spec fn midi_name(m: int) -> Seq<char> {
    note_names()[m % 12] + int_decimal(trunc_div(m, 12) - 1)
}

/// Semitone offset (see [`pitch_class`]) of the pitch spelled by `cs[0]` and,
/// when `two`, `cs[1]`.
pub(crate) fn pitch_class_of(c0: char, c1: char, two: bool) -> (r: Option<i32>)
    ensures
        match r {
            Some(v) => (if two { pitch_class(seq![c0, c1]) } else { pitch_class(seq![c0]) }) == Some(v as int),
            None => (if two { pitch_class(seq![c0, c1]) } else { pitch_class(seq![c0]) }) is None,
        },
{
    if !two {
        match c0 {
            'C' => Some(0), 'D' => Some(2), 'E' => Some(4), 'F' => Some(5),
            'G' => Some(7), 'A' => Some(9), 'B' => Some(11), _ => None,
        }
    } else if c1 == '#' {
        match c0 {
            'C' => Some(1), 'D' => Some(3), 'F' => Some(6), 'G' => Some(8),
            'A' => Some(10), _ => None,
        }
    } else if c1 == 'b' {
        match c0 {
            'D' => Some(1), 'E' => Some(3), 'F' => Some(4), 'G' => Some(6),
            'A' => Some(8), 'B' => Some(10), 'C' => Some(-1), _ => None,
        }
    } else {
        None
    }
}

/// Converts a note string like "G4", "C#5" or "Bb3" to a MIDI number; flats
/// are read as their enharmonic sharps, a semitone below the natural (so
/// "Cb4" is B3). Non-ASCII or empty input, an unknown
/// pitch spelling, or an octave that does not parse as an `i32` give `None`.
pub fn note_to_midi(note: &str) -> (r: Option<i32>)
    requires
        note_value_fits(note@),
    ensures
        match r {
            Some(v) => note_value(note@) == Some(v as int),
            None => note_value(note@) is None,
        },
{
    if !note.is_ascii() {
        return None;
    }
    let cs = chars_of(note);
    if cs.len() == 0 {
        return None;
    }
    let ghost s = note@;
    let two = cs.len() >= 3 && (cs[1] == '#' || cs[1] == 'b');
    let c1 = if cs.len() >= 2 { cs[1] } else { ' ' };
    let st = pitch_class_of(cs[0], c1, two);
    proof {
        if two {
            assert(s.take(2) =~= seq![s[0], s[1]]);
        } else {
            assert(s.take(1) =~= seq![s[0]]);
        }
    }
    let st = match st {
        Some(v) => v,
        None => return None,
    };
    let start: usize = if two { 2 } else { 1 };
    match parse_i32_from(&cs, start) {
        Some(oc) => Some((oc + 1) * 12 + st),
        None => None,
    }
}

/// Appends the sharp-spelled name of pitch class `st` to `s`.
pub(crate) fn push_pitch_name(s: &mut String, st: u8)
    requires
        st < 12,
    ensures
        final(s)@ == old(s)@ + note_names()[st as int],
{
    let letter = if st <= 1 { 'C' } else if st <= 3 { 'D' } else if st == 4 { 'E' }
        else if st <= 6 { 'F' } else if st <= 8 { 'G' } else if st <= 10 { 'A' } else { 'B' };
    s.push(letter);
    if st == 1 || st == 3 || st == 6 || st == 8 || st == 10 {
        s.push('#');
    }
    assert(final(s)@ =~= old(s)@ + note_names()[st as int]);
}

/// Sharp-spelled note name for a MIDI number: 60 is "C4", 61 is "C#4".
pub fn midi_to_note(midi: i32) -> (r: String)
    ensures
        r@ == midi_name(midi as int),
{
    let m = midi as i64;
    let am: u64 = if m >= 0 { m as u64 } else { (-m) as u64 };
    let q = (am / 12) as i64;
    let rem = (am % 12) as i64;
    let octave = if m >= 0 { q - 1 } else { -q - 1 };
    let st = if m >= 0 || rem == 0 { rem } else { 12 - rem };
    assert(st == (midi as int) % 12);
    assert(octave == trunc_div(midi as int, 12) - 1);
    let mut s = String::new();
    push_pitch_name(&mut s, st as u8);
    push_i64_decimal(&mut s, octave);
    s
}

/// Every MIDI number from 0 up names a note that reads back as the same number:
/// `note_to_midi(midi_to_note(m)) == Some(m)` for `m >= 0`.
pub proof fn lemma_midi_name_roundtrip(m: int)
    requires
        0 <= m <= i32::MAX,
    ensures
        note_value(midi_name(m)) == Some(m),
        note_value_fits(midi_name(m)),
{
    let st = m % 12;
    let oc = m / 12 - 1;
    let name = note_names()[st];
    let dec = int_decimal(oc);
    let s = midi_name(m);
    lemma_parse_int_decimal(oc);
    lemma_int_decimal_ascii(oc);
    assert(s =~= name + dec);
    assert(name.len() == 1 || (name.len() == 2 && name[1] == '#'));
    assert(is_ascii_chars(s)) by {
        assert forall|i: int| 0 <= i < s.len() implies '\0' <= #[trigger] s[i] <= '\u{7f}' by {
            if i >= name.len() {
                assert(s[i] == dec[i - name.len()]);
                assert(dec[i - name.len()] == '-' || is_digit(dec[i - name.len()]));
            }
        }
    }
    if name.len() == 2 {
        assert(has_accidental(s));
        assert(s.take(2) =~= name);
        assert(s.skip(2) =~= dec);
    } else {
        assert(s[1] == dec[0]);
        assert(dec[0] == '-' || is_digit(dec[0]));
        assert(!has_accidental(s));
        assert(s.take(1) =~= name);
        assert(s.skip(1) =~= dec);
    }
    assert(pitch_class(name) == Some(st));
}

} // verus!
