//! The note math behind the "Let's Bend"-style harmonica diagram: for each
//! hole, every note it can sound — overblow/overdraw, blow, draw, and the
//! bends between blow and draw — read off the harp's blow/draw layout.

use vstd::prelude::*;
use crate::audio_system::midi::{fits_i32, note_names, push_pitch_name};
use crate::harmonica::{hole_label, sharp_name_index, views, wind_direction_label, Harmonica};
use crate::text::{chars_of, int_decimal, is_digit, lemma_digits_value_nonneg, parse_i32_from, parse_i32_spec, push_i64_decimal};

verus! {

// ── Note math ───────────────────────────────────────────────────────────────

/// Index of the first ASCII digit of `s` at or after `i` (the length if none).
pub open spec fn first_digit_from(s: Seq<char>, i: int) -> int
    decreases s.len() - i,
{
    if i < 0 || i >= s.len() {
        s.len() as int
    } else if is_digit(s[i]) {
        i
    } else {
        first_digit_from(s, i + 1)
    }
}

/// A label like "C#4" split at its first digit: the pitch class of the part
/// before (one of the twelve sharp names) and the octave the rest parses to.
pub open spec fn label_parts(s: Seq<char>) -> Option<(int, int)> {
    let i = first_digit_from(s, 0);
    if i >= s.len() {
        None
    } else {
        match (parse_i32_spec(s.skip(i)), sharp_name_index(s.take(i))) {
            (Some(octave), Some(class)) => Some((class, octave)),
            _ => None,
        }
    }
}

/// The MIDI number of a note label (C4 = 60).
pub open spec fn label_value(s: Seq<char>) -> Option<int> {
    match label_parts(s) {
        Some((class, octave)) => Some((octave + 1) * 12 + class),
        None => None,
    }
}

/// The label's MIDI number, if it has one, fits in an `i32`.
pub open spec fn label_fits(s: Seq<char>) -> bool {
    match label_value(s) {
        Some(v) => fits_i32(v),
        None => true,
    }
}

/// The name of a MIDI number with the octave taken by floor division.
pub open spec fn euclid_name(m: int) -> Seq<char> {
    note_names()[m % 12] + int_decimal(m / 12 - 1)
}

/// Pitch class of the sharp name `cs[..len]`.
fn class_index(cs: &Vec<char>, len: usize) -> (r: Option<i32>)
    requires
        len <= cs@.len(),
    ensures
        match sharp_name_index(cs@.take(len as int)) {
            Some(c) => r == Some(c as i32),
            None => r is None,
        },
{
    let ghost p = cs@.take(len as int);
    if len == 1 {
        assert(p[0] == cs@[0]);
        match cs[0] {
            'C' => Some(0), 'D' => Some(2), 'E' => Some(4), 'F' => Some(5),
            'G' => Some(7), 'A' => Some(9), 'B' => Some(11), _ => None,
        }
    } else if len == 2 && cs[1] == '#' {
        assert(p[0] == cs@[0] && p[1] == cs@[1]);
        match cs[0] {
            'C' => Some(1), 'D' => Some(3), 'F' => Some(6), 'G' => Some(8),
            'A' => Some(10), _ => None,
        }
    } else {
        proof {
            if len == 2 {
                assert(p[1] == cs@[1]);
            }
        }
        None
    }
}

/// Parse a note label like `"C#4"` to a MIDI number (C4 = 60): the part
/// before the first digit must be one of the twelve sharp names, the rest an
/// octave number.
pub fn note_to_midi(s: &str) -> (r: Option<i32>)
    requires
        label_fits(s@),
    ensures
        match label_value(s@) {
            Some(v) => r == Some(v as i32),
            None => r is None,
        },
        r matches Some(v) ==> v >= 12,
{
    let cs = chars_of(s);
    let n = cs.len();
    let mut i: usize = 0;
    while i < n && !('0' <= cs[i] && cs[i] <= '9')
        invariant
            n == s@.len(),
            cs@ == s@,
            i <= n,
            first_digit_from(s@, 0) == first_digit_from(s@, i as int),
        decreases n - i,
    {
        i = i + 1;
    }
    if i == n {
        return None;
    }
    assert(first_digit_from(s@, i as int) == i);
    let octave = match parse_i32_from(&cs, i) {
        Some(o) => o,
        None => return None,
    };
    let class = match class_index(&cs, i) {
        Some(c) => c,
        None => return None,
    };
    proof {
        let body = s@.skip(i as int);
        assert(is_digit(body[0]));
        assert(body =~= (if body.len() > 0 && (body[0] == '-' || body[0] == '+') { body.skip(1) } else { body }));
        lemma_digits_value_nonneg(body);
        crate::harmonica::lemma_sharp_name_index(s@.take(i as int));
    }
    Some((octave + 1) * 12 + class)
}

/// The label of a MIDI number with the octave taken by floor division:
/// `midi_to_note(-1)` is "B-2".
pub fn midi_to_note(m: i32) -> (r: String)
    ensures
        r@ == euclid_name(m as int),
{
    let idx = ((m % 12) + 12) % 12;
    assert(idx == (m as int) % 12);
    let q = ((m as i64) - (idx as i64)) / 12;
    assert(q == (m as int) / 12) by (nonlinear_arith)
        requires
            idx == (m as int) % 12,
            q == ((m as int) - idx) / 12,
            0 <= idx < 12,
    ;
    let mut s = String::new();
    push_pitch_name(&mut s, idx as u8);
    push_i64_decimal(&mut s, q - 1);
    s
}

/// Labels written by [`midi_to_note`] read back as the same MIDI number, from
/// C0 (MIDI 12) up: `note_to_midi(&midi_to_note(m)) == Some(m)`.
pub proof fn lemma_label_roundtrip(m: int)
    requires
        12 <= m <= i32::MAX,
    ensures
        label_value(euclid_name(m)) == Some(m),
        label_fits(euclid_name(m)),
{
    let st = m % 12;
    let oc = m / 12 - 1;
    let name = note_names()[st];
    let dec = int_decimal(oc);
    let s = euclid_name(m);
    crate::text::lemma_parse_int_decimal(oc);
    crate::text::lemma_nat_digits_shape(oc as nat);
    crate::harmonica::lemma_sharp_name_index(name);
    assert(s =~= name + dec);
    assert(is_digit(dec[0]));
    if name.len() == 1 {
        assert(!is_digit(s[0]));
        assert(first_digit_from(s, 1) == 1);
        assert(first_digit_from(s, 0) == 1);
        assert(s.take(1) =~= name);
        assert(s.skip(1) =~= dec);
    } else {
        assert(name.len() == 2 && name[1] == '#');
        assert(!is_digit(s[0]));
        assert(!is_digit(s[1]));
        assert(first_digit_from(s, 2) == 2);
        assert(first_digit_from(s, 1) == 2);
        assert(first_digit_from(s, 0) == 2);
        assert(s.take(2) =~= name);
        assert(s.skip(2) =~= dec);
    }
}

/// `s` transposed by `semis` semitones, when `s` is a note label.
pub open spec fn transposed(s: Seq<char>, semis: int) -> Option<Seq<char>> {
    match label_value(s) {
        Some(v) => Some(euclid_name(v + semis)),
        None => None,
    }
}

/// Transposing `s` by `semis` stays within `i32`.
pub open spec fn transpose_fits(s: Seq<char>, semis: int) -> bool {
    label_fits(s) && match label_value(s) {
        Some(v) => fits_i32(v + semis),
        None => true,
    }
}

/// Transpose a note label by `semis` semitones, e.g. `transpose("B4", 1)` is "C5".
pub fn transpose(s: &str, semis: i32) -> (r: Option<String>)
    requires
        transpose_fits(s@, semis as int),
    ensures
        match transposed(s@, semis as int) {
            Some(t) => r matches Some(x) && x@ == t,
            None => r is None,
        },
{
    match note_to_midi(s) {
        Some(m) => Some(midi_to_note(m + semis)),
        None => None,
    }
}

/// The index where the trailing ASCII digits of `s[..n]` begin.
pub open spec fn class_end(s: Seq<char>, n: int) -> int
    decreases n,
{
    if n <= 0 || n > s.len() {
        if n > s.len() { s.len() as int } else { 0 }
    } else if is_digit(s[n - 1]) {
        class_end(s, n - 1)
    } else {
        n
    }
}

/// Note label with its octave digits dropped: `"D#5"` gives `"D#"`.
pub fn note_class(s: &str) -> (r: &str)
    ensures
        r@ == s@.take(class_end(s@, s@.len() as int)),
{
    let mut end = s.unicode_len();
    while end > 0 && '0' <= s.get_char(end - 1) && s.get_char(end - 1) <= '9'
        invariant
            end <= s@.len(),
            class_end(s@, s@.len() as int) == class_end(s@, end as int),
        decreases end,
    {
        end = end - 1;
    }
    s.substring_char(0, end)
}

/// `s` itself when it is a real note label (a dash "not available" is not).
pub open spec fn valid_label(s: Seq<char>) -> Option<Seq<char>> {
    if label_value(s) is Some { Some(s) } else { None }
}

/// Keep a harp label only if it's a real note (drops the "—" "not available").
pub fn valid_note(s: String) -> (r: Option<String>)
    requires
        label_fits(s@),
    ensures
        match valid_label(s@) {
            Some(t) => r matches Some(x) && x@ == t,
            None => r is None,
        },
{
    match note_to_midi(s.as_str()) {
        Some(_) => Some(s),
        None => None,
    }
}

// ── Per-hole note set ───────────────────────────────────────────────────────

/// Every note one hole can produce, by technique.
#[derive(Debug, Clone)]
pub struct HoleNotes {
    pub over: Option<String>,
    pub blow: Option<String>,
    pub draw: Option<String>,
    /// Bends, smallest first (½ step, whole, 1½). Draw bends on holes 1–6,
    /// blow bends on holes 7–10.
    pub bends: Vec<String>,
}

/// Which row of the diagram a cell belongs to.
#[derive(Debug, Clone, Copy, PartialEq, Eq)]
pub enum Row {
    Over,
    Blow,
    Draw,
    Bend(usize),
}

/// Character view of an optional string.
pub open spec fn opt_view(o: Option<String>) -> Option<Seq<char>> {
    match o {
        Some(s) => Some(s@),
        None => None,
    }
}

/// The hole's blow note, when its layout label is a note.
pub open spec fn blow_note(harp: Harmonica, hole: int) -> Option<Seq<char>> {
    valid_label(hole_label(harp, hole, true))
}

/// The hole's draw note, when its layout label is a note.
pub open spec fn draw_note(harp: Harmonica, hole: int) -> Option<Seq<char>> {
    valid_label(hole_label(harp, hole, false))
}

/// Overblow (holes 1, 4, 5, 6) sits a semitone above the draw reed; overdraw
/// (holes 7–10) a semitone above the blow reed; other holes have neither.
pub open spec fn over_note(harp: Harmonica, hole: int) -> Option<Seq<char>> {
    if hole == 1 || 4 <= hole <= 6 {
        match draw_note(harp, hole) {
            Some(d) => transposed(d, 1),
            None => None,
        }
    } else if 7 <= hole <= 10 {
        match blow_note(harp, hole) {
            Some(b) => transposed(b, 1),
            None => None,
        }
    } else {
        None
    }
}

/// Which holes overblow and which overdraw: on holes 1, 4, 5 and 6 the extra
/// note is a semitone above the draw note, on holes 7 to 10 a semitone above
/// the blow note, and holes 2 and 3 (and holes off the harp) have none.
pub proof fn lemma_overblow_holes(harp: Harmonica, hole: int)
    ensures
        hole == 1 || hole == 4 || hole == 5 || hole == 6 ==> over_note(harp, hole) == match draw_note(harp, hole) {
            Some(d) => transposed(d, 1),
            None => None,
        },
        7 <= hole <= 10 ==> over_note(harp, hole) == match blow_note(harp, hole) {
            Some(b) => transposed(b, 1),
            None => None,
        },
        hole <= 0 || hole == 2 || hole == 3 || hole > 10 ==> over_note(harp, hole) is None,
{
}

/// The `n` notes just below MIDI `top`, nearest first.
pub open spec fn notes_below(top: int, n: int) -> Seq<Seq<char>> {
    Seq::new(if n > 0 { n as nat } else { 0 }, |k: int| euclid_name(top - (k + 1)))
}

/// The bends of a hole: the chromatic steps strictly between blow and draw,
/// bent down from the draw reed on holes 1–6 (when draw is above blow by more
/// than a semitone), down from the blow reed on holes 7 and up (when blow is
/// above draw by more than a semitone).
pub open spec fn bend_notes(harp: Harmonica, hole: int) -> Seq<Seq<char>> {
    match (blow_note(harp, hole), draw_note(harp, hole)) {
        (Some(b), Some(d)) => {
            let bm = label_value(b)->Some_0;
            let dm = label_value(d)->Some_0;
            if hole <= 6 && dm > bm + 1 {
                notes_below(dm, dm - bm - 1)
            } else if hole >= 7 && bm > dm + 1 {
                notes_below(bm, bm - dm - 1)
            } else {
                Seq::empty()
            }
        },
        _ => Seq::empty(),
    }
}

/// The search for the first digit stops inside the label only on a digit.
proof fn lemma_first_digit_found(s: Seq<char>, i: int)
    requires
        0 <= i,
    ensures
        i <= s.len() ==> first_digit_from(s, i) >= i,
        first_digit_from(s, i) < s.len() ==> is_digit(s[first_digit_from(s, i)]),
    decreases s.len() - i,
{
    if i < s.len() && !is_digit(s[i]) {
        lemma_first_digit_found(s, i + 1);
    }
}

/// A note label never reads below C0 (MIDI 12): its octave is written with
/// digits alone, so it is never negative.
pub proof fn lemma_label_value_at_least_c0(s: Seq<char>)
    ensures
        label_value(s) matches Some(v) ==> v >= 12,
{
    let i = first_digit_from(s, 0);
    lemma_first_digit_found(s, 0);
    if i < s.len() {
        let body = s.skip(i);
        assert(body[0] == s[i]);
        assert(body =~= (if body.len() > 0 && (body[0] == '-' || body[0] == '+') { body.skip(1) } else { body }));
        if parse_i32_spec(body) is Some {
            lemma_digits_value_nonneg(body);
        }
        crate::harmonica::lemma_sharp_name_index(s.take(i));
    }
}

/// The bends of a hole are the chromatic steps strictly between its two
/// reeds, counted down from the higher one: on holes 1–6, when the draw reed
/// is more than a semitone above the blow reed, bend `k` sounds `k + 1`
/// semitones below the draw reed and there is one bend per step between; on
/// holes 7 and up the same holds with the reeds' roles swapped; otherwise
/// the hole has no bends.
pub proof fn lemma_bends_between_reeds(harp: Harmonica, hole: int, k: int)
    requires
        hole_notes_defined(harp, hole),
    ensures
        match (blow_note(harp, hole), draw_note(harp, hole)) {
            (Some(b), Some(d)) => {
                let bm = label_value(b)->Some_0;
                let dm = label_value(d)->Some_0;
                &&& hole <= 6 && dm > bm + 1 ==> bend_notes(harp, hole).len() == dm - bm - 1
                    && (0 <= k < dm - bm - 1 ==> label_value(bend_notes(harp, hole)[k]) == Some(dm - 1 - k))
                &&& hole >= 7 && bm > dm + 1 ==> bend_notes(harp, hole).len() == bm - dm - 1
                    && (0 <= k < bm - dm - 1 ==> label_value(bend_notes(harp, hole)[k]) == Some(bm - 1 - k))
                &&& !(hole <= 6 && dm > bm + 1) && !(hole >= 7 && bm > dm + 1)
                    ==> bend_notes(harp, hole).len() == 0
            },
            _ => bend_notes(harp, hole).len() == 0,
        },
{
    let b = hole_label(harp, hole, true);
    let d = hole_label(harp, hole, false);
    lemma_label_value_at_least_c0(b);
    lemma_label_value_at_least_c0(d);
    if label_value(b) is Some && label_value(d) is Some {
        let bm = label_value(b)->Some_0;
        let dm = label_value(d)->Some_0;
        if hole <= 6 && dm > bm + 1 && 0 <= k < dm - bm - 1 {
            lemma_label_roundtrip(dm - 1 - k);
        }
        if hole >= 7 && bm > dm + 1 && 0 <= k < bm - dm - 1 {
            lemma_label_roundtrip(bm - 1 - k);
        }
    }
}

/// The hole's labels can be read and stepped from without overflowing `i32`:
/// each label's MIDI number fits, and the semitone above the reed that an
/// overblow/overdraw or a bend comparison steps from is one too.
pub open spec fn hole_notes_defined(harp: Harmonica, hole: int) -> bool {
    let b = hole_label(harp, hole, true);
    let d = hole_label(harp, hole, false);
    &&& label_fits(b)
    &&& label_fits(d)
    &&& (hole == 1 || 4 <= hole <= 6) ==> transpose_fits(d, 1)
    &&& 7 <= hole <= 10 ==> transpose_fits(b, 1)
    &&& (label_value(b) is Some && label_value(d) is Some) ==> {
        &&& hole <= 6 ==> label_value(b)->Some_0 < i32::MAX
        &&& hole >= 7 ==> label_value(d)->Some_0 < i32::MAX
    }
}

/// The names of the `n` notes just below `top`, nearest first.
fn bends_below(top: i32, n: i32) -> (r: Vec<String>)
    requires
        0 <= n,
        top - n >= i32::MIN,
    ensures
        views(r@) == notes_below(top as int, n as int),
{
    let mut r: Vec<String> = Vec::new();
    let mut k: i32 = 0;
    while k < n
        invariant
            0 <= k <= n,
            top - n >= i32::MIN,
            views(r@) == notes_below(top as int, k as int),
        decreases n - k,
    {
        let ghost before = r@;
        let name = midi_to_note(top - (k + 1));
        r.push(name);
        assert(views(r@) =~= notes_below(top as int, (k + 1) as int)) by {
            assert(views(before).len() == before.len());
            assert(before.len() == k);
            assert(r@ == before.push(name));
            assert(views(r@).len() == k + 1);
            assert forall|j: int| 0 <= j < k + 1 implies #[trigger] views(r@)[j]
                == notes_below(top as int, (k + 1) as int)[j] by {
                if j < k {
                    assert(r@[j] == before[j]);
                    assert(views(before)[j] == notes_below(top as int, k as int)[j]);
                } else {
                    assert(r@[j] == name);
                }
            }
        }
        k = k + 1;
    }
    r
}

/// Every note `hole` of `harp` can produce, by technique.
pub fn hole_notes(harp: &Harmonica, hole: u8) -> (r: HoleNotes)
    requires
        hole_notes_defined(*harp, hole as int),
    ensures
        opt_view(r.blow) == blow_note(*harp, hole as int),
        opt_view(r.draw) == draw_note(*harp, hole as int),
        opt_view(r.over) == over_note(*harp, hole as int),
        views(r.bends@) == bend_notes(*harp, hole as int),
        hole == 1 || hole == 4 || hole == 5 || hole == 6 ==> opt_view(r.over) == match opt_view(r.draw) {
            Some(d) => transposed(d, 1),
            None => None,
        },
        7 <= hole <= 10 ==> opt_view(r.over) == match opt_view(r.blow) {
            Some(b) => transposed(b, 1),
            None => None,
        },
        hole == 0 || hole == 2 || hole == 3 || hole > 10 ==> r.over is None,
        match (opt_view(r.blow), opt_view(r.draw)) {
            (Some(b), Some(d)) => {
                let bm = label_value(b)->Some_0;
                let dm = label_value(d)->Some_0;
                &&& hole <= 6 && dm > bm + 1 ==> r.bends@.len() == dm - bm - 1
                    && forall|k: int| 0 <= k < r.bends@.len()
                        ==> label_value(#[trigger] r.bends@[k]@) == Some(dm - 1 - k)
                &&& hole >= 7 && bm > dm + 1 ==> r.bends@.len() == bm - dm - 1
                    && forall|k: int| 0 <= k < r.bends@.len()
                        ==> label_value(#[trigger] r.bends@[k]@) == Some(bm - 1 - k)
                &&& !(hole <= 6 && dm > bm + 1) && !(hole >= 7 && bm > dm + 1) ==> r.bends@.len() == 0
            },
            _ => r.bends@.len() == 0,
        },
{
    let blow = valid_note(wind_direction_label(harp, hole, true));
    let draw = valid_note(wind_direction_label(harp, hole, false));

    let over = if hole == 1 || (4 <= hole && hole <= 6) {
        match &draw {
            Some(d) => transpose(d.as_str(), 1),
            None => None,
        }
    } else if 7 <= hole && hole <= 10 {
        match &blow {
            Some(b) => transpose(b.as_str(), 1),
            None => None,
        }
    } else {
        None
    };

    let mut bends: Vec<String> = Vec::new();
    if let (Some(b), Some(d)) = (&blow, &draw) {
        if let (Some(bm), Some(dm)) = (note_to_midi(b.as_str()), note_to_midi(d.as_str())) {
            if hole <= 6 && dm > bm + 1 {
                bends = bends_below(dm, dm - bm - 1);
            } else if hole >= 7 && bm > dm + 1 {
                bends = bends_below(bm, bm - dm - 1);
            }
        }
    }
    proof {
        if !(blow is Some && draw is Some) {
            assert(views(bends@) =~= Seq::<Seq<char>>::empty());
        }
        lemma_bends_between_reeds(*harp, hole as int, 0);
        let hb = blow_note(*harp, hole as int);
        let hd = draw_note(*harp, hole as int);
        if hb is Some && hd is Some {
            let bm = label_value(hb->Some_0)->Some_0;
            let dm = label_value(hd->Some_0)->Some_0;
            if hole <= 6 && dm > bm + 1 {
                assert forall|k: int| 0 <= k < bends@.len()
                    implies label_value(#[trigger] bends@[k]@) == Some(dm - 1 - k) by {
                    lemma_bends_between_reeds(*harp, hole as int, k);
                    assert(views(bends@)[k] == bends@[k]@);
                }
            }
            if hole >= 7 && bm > dm + 1 {
                assert forall|k: int| 0 <= k < bends@.len()
                    implies label_value(#[trigger] bends@[k]@) == Some(bm - 1 - k) by {
                    lemma_bends_between_reeds(*harp, hole as int, k);
                    assert(views(bends@)[k] == bends@[k]@);
                }
            }
        }
    }
    HoleNotes { over, blow, draw, bends }
}

/// The note a diagram cell shows: the hole's note for that row, if any.
pub fn note_for(h: &HoleNotes, row: Row) -> (r: Option<&str>)
    ensures
        match row {
            Row::Over => opt_view(h.over),
            Row::Blow => opt_view(h.blow),
            Row::Draw => opt_view(h.draw),
            Row::Bend(i) => if i < h.bends@.len() { Some(h.bends@[i as int]@) } else { None },
        } == match r {
            Some(s) => Some(s@),
            None => None::<Seq<char>>,
        },
{
    match row {
        Row::Over => match &h.over {
            Some(s) => Some(s.as_str()),
            None => None,
        },
        Row::Blow => match &h.blow {
            Some(s) => Some(s.as_str()),
            None => None,
        },
        Row::Draw => match &h.draw {
            Some(s) => Some(s.as_str()),
            None => None,
        },
        Row::Bend(i) => {
            if i < h.bends.len() {
                Some(h.bends[i].as_str())
            } else {
                None
            }
        },
    }
}

} // verus!
