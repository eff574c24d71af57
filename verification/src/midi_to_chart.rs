//! MIDI track to harmonica chart conversion: mapping each MIDI pitch onto a
//! hole and breath direction of a standard C richter diatonic harp (with a
//! draw or blow bend where the pitch needs one, else the nearest playable
//! note), grouping the notes that start together into chart items, and the
//! paths of the files the converter writes.

use vstd::prelude::*;
use crate::json_schema::{fault_message, fault_text, render_violations, report_text, schema_report, schema_violations};
use std::collections::HashMap;
use crate::audio_system::midi::{midi_name, midi_to_note, note_to_midi, note_value};
use crate::midi_timeline::Note;
use crate::text::{nat_digits, push_nat_digits};

verus! {

broadcast use vstd::std_specs::hash::group_hash_axioms;

/// Blowing into or drawing from a hole.
#[derive(Debug, Clone, Copy, PartialEq, Eq, Structural)]
pub enum HarpAction {
    Blow,
    Draw,
}

impl HarpAction {
    /// The chart's spelling of the action: "blow" or "draw".
    pub fn label(self) -> (r: &'static str)
        ensures
            r@ == (match self {
                HarpAction::Blow => "blow"@,
                HarpAction::Draw => "draw"@,
            }),
    {
        match self {
            HarpAction::Blow => "blow",
            HarpAction::Draw => "draw",
        }
    }
}

/// A resolved playing instruction for one MIDI pitch.
#[derive(Debug, Clone, Copy, PartialEq, Eq)]
pub struct Mapped {
    pub hole: u8,
    pub action: HarpAction,
    /// The harmonica's natural note for that hole/action (e.g. the un-bent draw).
    pub natural: u8,
    /// Bend depth in semitones (negative), if the pitch needs a bend.
    pub bend: Option<i32>,
}

/// MIDI number → hole of the blow notes of the standard C richter layout.
pub open spec fn c_richter_blow_map() -> Map<u8, u8> {
    map![60u8 => 1u8, 64u8 => 2u8, 67u8 => 3u8, 72u8 => 4u8, 76u8 => 5u8,
         79u8 => 6u8, 84u8 => 7u8, 88u8 => 8u8, 91u8 => 9u8, 96u8 => 10u8]
}

/// MIDI number → hole of the draw notes of the standard C richter layout.
pub open spec fn c_richter_draw_map() -> Map<u8, u8> {
    map![62u8 => 1u8, 67u8 => 2u8, 71u8 => 3u8, 74u8 => 4u8, 77u8 => 5u8,
         81u8 => 6u8, 83u8 => 7u8, 86u8 => 8u8, 89u8 => 9u8, 93u8 => 10u8]
}

/// Blow note names of the standard C richter layout, hole 1 first.
pub open spec fn c_blow_names() -> Seq<&'static str> {
    seq!["C4", "E4", "G4", "C5", "E5", "G5", "C6", "E6", "G6", "C7"]
}

/// Draw note names of the standard C richter layout, hole 1 first.
pub open spec fn c_draw_names() -> Seq<&'static str> {
    seq!["D4", "G4", "B4", "D5", "F5", "A5", "B5", "D6", "F6", "A6"]
}

/// MIDI numbers of the blow notes of the standard C richter layout.
pub open spec fn c_blow_midi() -> Seq<int> {
    seq![60int, 64, 67, 72, 76, 79, 84, 88, 91, 96]
}

/// MIDI numbers of the draw notes of the standard C richter layout.
pub open spec fn c_draw_midi() -> Seq<int> {
    seq![62int, 67, 71, 74, 77, 81, 83, 86, 89, 93]
}

/// The C richter note names read as their MIDI numbers.
pub proof fn lemma_c_richter_notes()
    ensures
        forall|i: int| 0 <= i < 10 ==> note_value(#[trigger] c_blow_names()[i]@) == Some(c_blow_midi()[i]),
        forall|i: int| 0 <= i < 10 ==> note_value(#[trigger] c_draw_names()[i]@) == Some(c_draw_midi()[i]),
        forall|i: int| 0 <= i < 10 ==> crate::audio_system::midi::note_value_fits(#[trigger] c_blow_names()[i]@),
        forall|i: int| 0 <= i < 10 ==> crate::audio_system::midi::note_value_fits(#[trigger] c_draw_names()[i]@),
{
    reveal_strlit("C4"); reveal_strlit("E4"); reveal_strlit("G4"); reveal_strlit("C5");
    reveal_strlit("E5"); reveal_strlit("G5"); reveal_strlit("C6"); reveal_strlit("E6");
    reveal_strlit("G6"); reveal_strlit("C7");
    reveal_strlit("D4"); reveal_strlit("B4"); reveal_strlit("D5"); reveal_strlit("F5");
    reveal_strlit("A5"); reveal_strlit("B5"); reveal_strlit("D6"); reveal_strlit("F6");
    reveal_strlit("A6");
    reveal_with_fuel(crate::text::digits_value, 2);
}

/// Blow note names of the standard C richter layout, hole 1 first.
pub fn c_richter_blow() -> (r: [&'static str; 10])
    ensures
        r@ == c_blow_names(),
{
    ["C4", "E4", "G4", "C5", "E5", "G5", "C6", "E6", "G6", "C7"]
}

/// Draw note names of the standard C richter layout, hole 1 first.
pub fn c_richter_draw() -> (r: [&'static str; 10])
    ensures
        r@ == c_draw_names(),
{
    ["D4", "G4", "B4", "D5", "F5", "A5", "B5", "D6", "F6", "A6"]
}

/// The map from MIDI number to hole (counted from 1) of a list of note values,
/// a later hole replacing an earlier one with the same number.
pub open spec fn hole_map(values: Seq<int>, n: int) -> Map<u8, u8>
    decreases n,
{
    if n <= 0 {
        Map::empty()
    } else {
        hole_map(values, n - 1).insert(values[n - 1] as u8, n as u8)
    }
}

/// Fills `map` with the MIDI number of each name in `names` mapped to its hole.
fn fill_pitch_map(map: &mut HashMap<u8, u8>, names: [&'static str; 10], values: Ghost<Seq<int>>)
    requires
        old(map)@ == Map::<u8, u8>::empty(),
        values@.len() == 10,
        forall|i: int| 0 <= i < 10 ==> note_value(#[trigger] names@[i]@) == Some(values@[i]),
        forall|i: int| 0 <= i < 10 ==> 0 <= #[trigger] values@[i] < 256,
        forall|i: int| 0 <= i < 10 ==> crate::audio_system::midi::note_value_fits(#[trigger] names@[i]@),
    ensures
        final(map)@ == hole_map(values@, 10),
{
    let mut i: usize = 0;
    while i < 10
        invariant
            i <= 10,
            values@.len() == 10,
            forall|j: int| 0 <= j < 10 ==> note_value(#[trigger] names@[j]@) == Some(values@[j]),
            forall|j: int| 0 <= j < 10 ==> 0 <= #[trigger] values@[j] < 256,
            forall|j: int| 0 <= j < 10 ==> crate::audio_system::midi::note_value_fits(#[trigger] names@[j]@),
            map@ == hole_map(values@, i as int),
        decreases 10 - i,
    {
        let name = names[i];
        assert(name@ == names@[i as int]@);
        if let Some(m) = note_to_midi(name) {
            map.insert(m as u8, (i + 1) as u8);
        }
        i = i + 1;
    }
}

/// The blow and draw maps (MIDI number → hole) of the standard C richter harp.
pub fn build_pitch_maps() -> (r: (HashMap<u8, u8>, HashMap<u8, u8>))
    ensures
        r.0@ == c_richter_blow_map(),
        r.1@ == c_richter_draw_map(),
{
    let mut blow: HashMap<u8, u8> = HashMap::new();
    let mut draw: HashMap<u8, u8> = HashMap::new();
    let names_b = c_richter_blow();
    let names_d = c_richter_draw();
    let ghost vb = c_blow_midi();
    let ghost vd = c_draw_midi();
    proof {
        lemma_c_richter_notes();
    }
    fill_pitch_map(&mut blow, names_b, Ghost(vb));
    fill_pitch_map(&mut draw, names_d, Ghost(vd));
    proof {
        reveal_with_fuel(hole_map, 11);
        assert(hole_map(vb, 10) =~= c_richter_blow_map());
        assert(hole_map(vd, 10) =~= c_richter_draw_map());
    }
    (blow, draw)
}


/// Distance between two MIDI numbers.
pub open spec fn dist(a: int, b: int) -> int {
    if a < b { b - a } else { a - b }
}

/// Hole 1–6 of `draw` sounds `k` semitones above `t`: a draw bend of depth `k`.
pub open spec fn draw_bend_at(t: int, k: int, draw: Map<u8, u8>) -> bool {
    t + k <= 255 && draw.contains_key((t + k) as u8) && 1 <= draw[(t + k) as u8] <= 6
}

/// Hole 8–10 of `blow` sounds `k` semitones above `t`: a blow bend of depth `k`.
pub open spec fn blow_bend_at(t: int, k: int, blow: Map<u8, u8>) -> bool {
    t + k <= 255 && blow.contains_key((t + k) as u8) && 8 <= blow[(t + k) as u8] <= 10
}

/// The shallowest draw bend (1 to 3 semitones) reaching `t`.
pub open spec fn first_draw_bend(t: int, draw: Map<u8, u8>) -> Option<int> {
    if draw_bend_at(t, 1, draw) { Some(1) }
    else if draw_bend_at(t, 2, draw) { Some(2) }
    else if draw_bend_at(t, 3, draw) { Some(3) }
    else { None }
}

/// The shallowest blow bend (1 to 3 semitones) reaching `t`.
pub open spec fn first_blow_bend(t: int, blow: Map<u8, u8>) -> Option<int> {
    if blow_bend_at(t, 1, blow) { Some(1) }
    else if blow_bend_at(t, 2, blow) { Some(2) }
    else if blow_bend_at(t, 3, blow) { Some(3) }
    else { None }
}

/// `m` is at least as near to `t` as `m2`, the lower number winning a tie.
pub open spec fn nearer(m: u8, m2: u8, t: u8) -> bool {
    dist(m as int, t as int) < dist(m2 as int, t as int)
        || (dist(m as int, t as int) == dist(m2 as int, t as int) && m <= m2)
}

/// `r` snaps `t` to the nearest playable natural note: the nearest blow note
/// when no draw note is strictly nearer, otherwise the nearest draw note.
pub open spec fn is_nearest_natural(t: u8, blow: Map<u8, u8>, draw: Map<u8, u8>, r: Mapped) -> bool {
    &&& r.bend is None
    &&& match r.action {
        HarpAction::Blow => {
            &&& blow.contains_key(r.natural)
            &&& r.hole == blow[r.natural]
            &&& forall|m: u8| #[trigger] blow.contains_key(m) ==> nearer(r.natural, m, t)
            &&& forall|m: u8| #[trigger] draw.contains_key(m) ==> dist(r.natural as int, t as int) <= dist(m as int, t as int)
        },
        HarpAction::Draw => {
            &&& draw.contains_key(r.natural)
            &&& r.hole == draw[r.natural]
            &&& forall|m: u8| #[trigger] draw.contains_key(m) ==> nearer(r.natural, m, t)
            &&& forall|m: u8| #[trigger] blow.contains_key(m) ==> dist(r.natural as int, t as int) < dist(m as int, t as int)
        },
    }
}

/// How a MIDI pitch is played: directly as a blow note, else directly as a
/// draw note, else as the shallowest draw bend on holes 1–6, else as the
/// shallowest blow bend on holes 8–10, else snapped to the nearest natural note.
pub open spec fn is_mapping(t: u8, blow: Map<u8, u8>, draw: Map<u8, u8>, r: Mapped) -> bool {
    if blow.contains_key(t) {
        r == Mapped { hole: blow[t], action: HarpAction::Blow, natural: t, bend: None }
    } else if draw.contains_key(t) {
        r == Mapped { hole: draw[t], action: HarpAction::Draw, natural: t, bend: None }
    } else if first_draw_bend(t as int, draw) is Some {
        let k = first_draw_bend(t as int, draw)->Some_0;
        r == Mapped {
            hole: draw[(t + k) as u8],
            action: HarpAction::Draw,
            natural: (t + k) as u8,
            bend: Some((-k) as i32),
        }
    } else if first_blow_bend(t as int, blow) is Some {
        let k = first_blow_bend(t as int, blow)->Some_0;
        r == Mapped {
            hole: blow[(t + k) as u8],
            action: HarpAction::Blow,
            natural: (t + k) as u8,
            bend: Some((-k) as i32),
        }
    } else {
        is_nearest_natural(t, blow, draw, r)
    }
}

/// The inputs on which the mapping is defined: the bend search never steps
/// past MIDI 255 before it finds a bend, and a pitch that needs snapping has
/// some playable note less than 255 semitones away.
pub open spec fn mapping_defined(t: u8, blow: Map<u8, u8>, draw: Map<u8, u8>) -> bool {
    ||| blow.contains_key(t)
    ||| draw.contains_key(t)
    ||| {
        &&& (t <= 252 || exists|k: int| 1 <= k && #[trigger] draw_bend_at(t as int, k, draw))
        &&& (first_draw_bend(t as int, draw) is Some || first_blow_bend(t as int, blow) is Some
            || exists|m: u8| (#[trigger] blow.contains_key(m) || draw.contains_key(m)) && dist(m as int, t as int) < 255)
    }
}

fn abs_diff(a: u8, b: u8) -> (r: u8)
    ensures
        r == dist(a as int, b as int),
{
    if a > b { a - b } else { b - a }
}

/// Maps a MIDI pitch onto the harp described by `blow` and `draw` (MIDI number
/// → hole): directly playable if possible, else by a draw bend on holes 1–6 or
/// a blow bend on holes 8–10 of up to three semitones, else snapped to the
/// nearest playable natural note.
pub fn map_pitch(target: u8, blow: &HashMap<u8, u8>, draw: &HashMap<u8, u8>) -> (r: Mapped)
    requires
        mapping_defined(target, blow@, draw@),
    ensures
        is_mapping(target, blow@, draw@, r),
{
    // Directly playable.
    if let Some(h) = blow.get(&target) {
        return Mapped { hole: *h, action: HarpAction::Blow, natural: target, bend: None };
    }
    if let Some(h) = draw.get(&target) {
        return Mapped { hole: *h, action: HarpAction::Draw, natural: target, bend: None };
    }
    // Draw bend: holes 1..=6 can bend the draw note down by 1..=3 semitones.
    let mut k: u8 = 1;
    while k <= 3
        invariant
            1 <= k <= 4,
            !blow@.contains_key(target),
            !draw@.contains_key(target),
            mapping_defined(target, blow@, draw@),
            forall|j: int| 1 <= j < k ==> !#[trigger] draw_bend_at(target as int, j, draw@),
        decreases 4 - k,
    {
        assert(target as int + k <= 255) by {
            if target > 252 {
                let j = choose|j: int| 1 <= j && #[trigger] draw_bend_at(target as int, j, draw@);
                assert(j >= k);
            }
        }
        let key = target + k;
        if let Some(h) = draw.get(&key) {
            if 1 <= *h && *h <= 6 {
                assert(draw_bend_at(target as int, k as int, draw@));
                return Mapped { hole: *h, action: HarpAction::Draw, natural: key, bend: Some(-(k as i32)) };
            }
        }
        k = k + 1;
    }
    assert(first_draw_bend(target as int, draw@) is None);
    // Blow bend: high holes 8..=10 can bend the blow note down.
    let mut k: u8 = 1;
    while k <= 3
        invariant
            1 <= k <= 4,
            target <= 252,
            !blow@.contains_key(target),
            !draw@.contains_key(target),
            first_draw_bend(target as int, draw@) is None,
            forall|j: int| 1 <= j < k ==> !#[trigger] blow_bend_at(target as int, j, blow@),
        decreases 4 - k,
    {
        let key = target + k;
        if let Some(h) = blow.get(&key) {
            if 8 <= *h && *h <= 10 {
                assert(blow_bend_at(target as int, k as int, blow@));
                return Mapped { hole: *h, action: HarpAction::Blow, natural: key, bend: Some(-(k as i32)) };
            }
        }
        k = k + 1;
    }
    assert(first_blow_bend(target as int, blow@) is None);
    // Fallback: snap to the nearest playable natural note.
    let mut best_action = HarpAction::Blow;
    let mut best_natural = target;
    let mut best_dist: u8 = 255;
    let mut m: u16 = 0;
    while m < 256
        invariant
            m <= 256,
            best_dist <= 255,
            best_action == HarpAction::Blow,
            best_dist < 255 ==> blow@.contains_key(best_natural) && best_dist == dist(best_natural as int, target as int) && best_natural < m,
            best_dist == 255 ==> best_natural == target,
            forall|j: u8| j < m && #[trigger] blow@.contains_key(j) ==> (best_dist < 255 && nearer(best_natural, j, target)) || dist(j as int, target as int) >= 255,
        decreases 256 - m,
    {
        let key = m as u8;
        if blow.contains_key(&key) {
            let d = abs_diff(key, target);
            if d < best_dist {
                best_dist = d;
                best_action = HarpAction::Blow;
                best_natural = key;
            }
        }
        m = m + 1;
    }
    let ghost blow_dist = best_dist;
    let mut m: u16 = 0;
    while m < 256
        invariant
            m <= 256,
            best_dist <= blow_dist,
            best_dist < 255 ==> best_dist == dist(best_natural as int, target as int),
            best_action == HarpAction::Blow ==> best_dist == blow_dist,
            best_action == HarpAction::Blow && best_dist < 255 ==> blow@.contains_key(best_natural),
            best_action == HarpAction::Blow && best_dist == 255 ==> best_natural == target,
            best_action == HarpAction::Draw ==> draw@.contains_key(best_natural) && best_dist < blow_dist && best_natural < m,
            blow_dist < 255 ==> blow@.contains_key(best_natural) || best_action == HarpAction::Draw,
            forall|j: u8| #[trigger] blow@.contains_key(j) ==> (blow_dist < 255 && dist(j as int, target as int) >= blow_dist) || dist(j as int, target as int) >= 255,
            best_action == HarpAction::Blow ==> forall|j: u8| #[trigger] blow@.contains_key(j) ==> (best_dist < 255 && nearer(best_natural, j, target)) || dist(j as int, target as int) >= 255,
            forall|j: u8| j < m && #[trigger] draw@.contains_key(j) ==> dist(j as int, target as int) >= best_dist,
            best_action == HarpAction::Draw ==> forall|j: u8| j < m && #[trigger] draw@.contains_key(j) ==> nearer(best_natural, j, target),
        decreases 256 - m,
    {
        let key = m as u8;
        if draw.contains_key(&key) {
            let d = abs_diff(key, target);
            if d < best_dist {
                best_dist = d;
                best_action = HarpAction::Draw;
                best_natural = key;
            }
        }
        m = m + 1;
    }
    proof {
        let j = choose|j: u8| (#[trigger] blow@.contains_key(j) || draw@.contains_key(j)) && dist(j as int, target as int) < 255;
        assert(best_dist < 255);
    }
    let hole = if best_action == HarpAction::Blow {
        *blow.get(&best_natural).unwrap()
    } else {
        *draw.get(&best_natural).unwrap()
    };
    Mapped { hole, action: best_action, natural: best_natural, bend: None }
}

/// Every pitch up to 252 can be played on the standard C richter harp: the
/// bend search stays within MIDI numbers, and C4 is never 255 semitones away.
pub proof fn lemma_c_richter_defined(t: u8)
    requires
        t <= 252,
    ensures
        mapping_defined(t, c_richter_blow_map(), c_richter_draw_map()),
{
    assert(c_richter_blow_map().contains_key(60u8));
    assert(dist(60, t as int) < 255);
}

/// A pitch has exactly one way to be played: two mappings of the same pitch
/// onto the same harp are the same.
pub proof fn lemma_mapping_unique(t: u8, blow: Map<u8, u8>, draw: Map<u8, u8>, r1: Mapped, r2: Mapped)
    requires
        is_mapping(t, blow, draw, r1),
        is_mapping(t, blow, draw, r2),
    ensures
        r1 == r2,
{
    if !blow.contains_key(t) && !draw.contains_key(t) && first_draw_bend(t as int, draw) is None
        && first_blow_bend(t as int, blow) is None {
        match (r1.action, r2.action) {
            (HarpAction::Blow, HarpAction::Blow) => {
                assert(nearer(r1.natural, r2.natural, t));
                assert(nearer(r2.natural, r1.natural, t));
            },
            (HarpAction::Draw, HarpAction::Draw) => {
                assert(nearer(r1.natural, r2.natural, t));
                assert(nearer(r2.natural, r1.natural, t));
            },
            (HarpAction::Blow, HarpAction::Draw) => {
                assert(blow.contains_key(r1.natural));
                assert(draw.contains_key(r2.natural));
            },
            (HarpAction::Draw, HarpAction::Blow) => {
                assert(blow.contains_key(r2.natural));
                assert(draw.contains_key(r1.natural));
            },
        }
    }
}

/// Every mapping plays a note the harp has: the natural note sits in the
/// blow or draw map as the action says, on the hole that map gives it; a
/// bend lowers it by one to three semitones onto the pitch asked for, on a
/// draw hole 1–6 or a blow hole 8–10; without a bend the natural note is the
/// pitch asked for whenever the harp has that pitch.
pub proof fn lemma_mapping_playable(t: u8, blow: Map<u8, u8>, draw: Map<u8, u8>, r: Mapped)
    requires
        is_mapping(t, blow, draw, r),
    ensures
        r.action == HarpAction::Blow ==> blow.contains_key(r.natural) && r.hole == blow[r.natural],
        r.action == HarpAction::Draw ==> draw.contains_key(r.natural) && r.hole == draw[r.natural],
        r.bend matches Some(b) ==> -3 <= b <= -1 && r.natural == t - b
            && (r.action == HarpAction::Draw ==> 1 <= r.hole <= 6)
            && (r.action == HarpAction::Blow ==> 8 <= r.hole <= 10),
        (blow.contains_key(t) || draw.contains_key(t)) ==> r.natural == t && r.bend is None,
{
}

// ── Chart items ─────────────────────────────────────────────────────────────

/// One note of a chart item: how to play it, and the name of the harp's
/// natural note for that hole and breath.
#[derive(Debug, Clone)]
pub struct ChartEvent {
    pub mapped: Mapped,
    pub note: String,
}

/// One chart item: the notes that start together on one tick (a chord when
/// there are several), from their start tick to the end of the longest.
#[derive(Debug, Clone)]
pub struct ChartItem {
    pub id: String,
    pub start_tick: u64,
    pub end_tick: u64,
    pub chord: bool,
    pub events: Vec<ChartEvent>,
}

impl ChartItem {
    /// The chart's spelling of the play mode: "chord" or "single".
    pub fn play_mode(&self) -> (r: &'static str)
        ensures
            r@ == (if self.chord { "chord"@ } else { "single"@ }),
    {
        if self.chord { "chord" } else { "single" }
    }
}

/// The end of the run of notes starting on the tick of `s[i]`, searched from `j`.
pub open spec fn run_end(s: Seq<Note>, i: int, j: int) -> int
    decreases s.len() - j,
{
    if j < 0 || j >= s.len() || s[j].start_tick != s[i].start_tick {
        j
    } else {
        run_end(s, i, j + 1)
    }
}

/// The notes from `i` on, cut into runs that start on the same tick.
pub open spec fn groups_from(s: Seq<Note>, i: int) -> Seq<Seq<Note>>
    decreases s.len() - i,
{
    if i < 0 || i >= s.len() {
        Seq::empty()
    } else {
        let e = run_end(s, i, i + 1);
        if e <= i || e > s.len() {
            Seq::empty()
        } else {
            seq![s.subrange(i, e)] + groups_from(s, e)
        }
    }
}

/// The longest duration in `g` (0 for none).
pub open spec fn max_dur(g: Seq<Note>) -> int
    decreases g.len(),
{
    if g.len() == 0 {
        0
    } else {
        let m = max_dur(g.drop_last());
        if g.last().dur_ticks > m { g.last().dur_ticks as int } else { m }
    }
}

/// The longest duration of a group is at least every note's duration and is
/// the duration of one of its notes (0 for an empty group).
pub proof fn lemma_max_dur_is_longest(g: Seq<Note>)
    ensures
        forall|j: int| 0 <= j < g.len() ==> (#[trigger] g[j]).dur_ticks <= max_dur(g),
        g.len() > 0 ==> exists|j: int| 0 <= j < g.len() && max_dur(g) == (#[trigger] g[j]).dur_ticks,
        g.len() == 0 ==> max_dur(g) == 0,
    decreases g.len(),
{
    if g.len() > 0 {
        let h = g.drop_last();
        lemma_max_dur_is_longest(h);
        assert forall|j: int| 0 <= j < g.len() implies (#[trigger] g[j]).dur_ticks <= max_dur(g) by {
            if j < h.len() {
                assert(g[j] == h[j]);
            }
        }
        if g.last().dur_ticks > max_dur(h) || h.len() == 0 {
            assert(max_dur(g) == g[g.len() - 1].dur_ticks);
        } else {
            let j = choose|j: int| 0 <= j < h.len() && max_dur(h) == (#[trigger] h[j]).dur_ticks;
            assert(g[j] == h[j]);
        }
    }
}

/// `d` padded on the left with zeros to at least `w` characters.
pub open spec fn zero_padded(d: Seq<char>, w: int) -> Seq<char> {
    if d.len() >= w {
        d
    } else {
        Seq::new((w - d.len()) as nat, |_i: int| '0') + d
    }
}

/// The id of the `k`-th chart item (from 1): "n" and `k` in at least four digits.
pub open spec fn chart_id(k: nat) -> Seq<char> {
    seq!['n'] + zero_padded(nat_digits(k), 4)
}

/// `e` plays note `n` on the harp described by `blow` and `draw`.
pub open spec fn plays(e: ChartEvent, n: Note, blow: Map<u8, u8>, draw: Map<u8, u8>) -> bool {
    &&& is_mapping(n.key, blow, draw, e.mapped)
    &&& e.note@ == midi_name(e.mapped.natural as int)
}

/// `item` is the `k`-th item (from 0) of a chart, made of the notes of `g`.
pub open spec fn item_of_group(item: ChartItem, g: Seq<Note>, k: int, blow: Map<u8, u8>, draw: Map<u8, u8>) -> bool {
    &&& item.id@ == chart_id((k + 1) as nat)
    &&& item.start_tick == g[0].start_tick
    &&& item.end_tick == g[0].start_tick + max_dur(g)
    &&& item.chord == (g.len() > 1)
    &&& item.events@.len() == g.len()
    &&& forall|j: int| 0 <= j < g.len() ==> plays(#[trigger] item.events@[j], g[j], blow, draw)
}

/// `items` are the chart items of the groups `gs`, one for one.
pub open spec fn items_of_groups(items: Seq<ChartItem>, gs: Seq<Seq<Note>>, blow: Map<u8, u8>, draw: Map<u8, u8>) -> bool {
    &&& items.len() == gs.len()
    &&& forall|k: int| 0 <= k < gs.len() ==> item_of_group(#[trigger] items[k], gs[k], k, blow, draw)
}

/// The notes can be charted: each is a pitch the harp can reach without the
/// bend search stepping past MIDI 255, and ends at a tick a `u64` can count.
pub open spec fn chartable(notes: Seq<Note>) -> bool {
    forall|i: int| 0 <= i < notes.len() ==> {
        &&& (#[trigger] notes[i]).key <= 252
        &&& notes[i].start_tick + notes[i].dur_ticks <= u64::MAX
    }
}

proof fn lemma_nat_digits_len(k: nat)
    ensures
        k < 10 ==> nat_digits(k).len() == 1,
        10 <= k < 100 ==> nat_digits(k).len() == 2,
        100 <= k < 1000 ==> nat_digits(k).len() == 3,
        1000 <= k ==> nat_digits(k).len() >= 4,
{
    reveal_with_fuel(nat_digits, 4);
    if k >= 1000 {
        crate::text::lemma_nat_digits_shape(k / 1000);
        assert(k / 10 / 10 / 10 == k / 1000);
    }
}

/// The id of the `k`-th chart item: "n0001" for the first.
pub fn chart_item_id(k: u64) -> (r: String)
    ensures
        r@ == chart_id(k as nat),
{
    let mut s = String::from_str("n");
    proof {
        reveal_strlit("n");
        lemma_nat_digits_len(k as nat);
    }
    let ghost d = nat_digits(k as nat);
    if k < 1000 {
        s.push('0');
    }
    if k < 100 {
        s.push('0');
    }
    if k < 10 {
        s.push('0');
    }
    push_nat_digits(&mut s, k);
    assert(s@ =~= chart_id(k as nat));
    s
}

/// The end of the run of notes that start on the tick of `notes[i]`.
fn run_end_of(notes: &Vec<Note>, i: usize) -> (e: usize)
    requires
        i < notes@.len(),
    ensures
        e == run_end(notes@, i as int, i + 1),
        i < e <= notes@.len(),
        forall|j: int| i <= j < e ==> (#[trigger] notes@[j]).start_tick == notes@[i as int].start_tick,
{
    let len = notes.len();
    let start = notes[i].start_tick;
    let mut e = i + 1;
    while e < notes.len() && notes[e].start_tick == start
        invariant
            i < e <= notes@.len(),
            start == notes@[i as int].start_tick,
            run_end(notes@, i as int, i + 1) == run_end(notes@, i as int, e as int),
            forall|j: int| i <= j < e ==> (#[trigger] notes@[j]).start_tick == start,
        decreases notes@.len() - e,
    {
        e = e + 1;
    }
    e
}

/// Groups notes that start on the same tick into one chart item (a chord),
/// in order, and maps every note onto the standard C richter harp.
pub fn chart_items(notes: &Vec<Note>) -> (r: Vec<ChartItem>)
    requires
        chartable(notes@),
    ensures
        items_of_groups(r@, groups_from(notes@, 0), c_richter_blow_map(), c_richter_draw_map()),
        forall|k: int, j: int| 0 <= k < r@.len() && 0 <= j < groups_from(notes@, 0)[k].len()
            ==> (#[trigger] groups_from(notes@, 0)[k][j]).dur_ticks <= r@[k].end_tick - r@[k].start_tick,
        forall|k: int| 0 <= k < r@.len() ==> (#[trigger] r@[k]).chord == (r@[k].events@.len() > 1)
            && r@[k].events@.len() == groups_from(notes@, 0)[k].len()
            && forall|j: int| 0 <= j < groups_from(notes@, 0)[k].len()
                ==> (#[trigger] groups_from(notes@, 0)[k][j]).start_tick == r@[k].start_tick,
        forall|k: int| 0 <= k < r@.len() ==> #[trigger] r@[k].end_tick - r@[k].start_tick >= 0
            && exists|j: int| 0 <= j < groups_from(notes@, 0)[k].len()
            && r@[k].end_tick - r@[k].start_tick == (#[trigger] groups_from(notes@, 0)[k][j]).dur_ticks,
{
    let (blow, draw) = build_pitch_maps();
    let ghost gs = groups_from(notes@, 0);
    let mut items: Vec<ChartItem> = Vec::new();
    let n = notes.len();
    let mut i: usize = 0;
    while i < n
        invariant
            n == notes@.len(),
            i <= n,
            chartable(notes@),
            blow@ == c_richter_blow_map(),
            draw@ == c_richter_draw_map(),
            items@.len() <= i,
            gs == groups_from(notes@, 0),
            gs == items_groups(gs, items@.len() as int) + groups_from(notes@, i as int),
            items_of_groups(items@, items_groups(gs, items@.len() as int), blow@, draw@),
        decreases n - i,
    {
        let e = run_end_of(notes, i);
        let start = notes[i].start_tick;
        let ghost g = notes@.subrange(i as int, e as int);
        let mut longest: u64 = 0;
        let mut events: Vec<ChartEvent> = Vec::new();
        let mut j: usize = i;
        while j < e
            invariant
                i <= j <= e <= n,
                n == notes@.len(),
                chartable(notes@),
                blow@ == c_richter_blow_map(),
                draw@ == c_richter_draw_map(),
                start == notes@[i as int].start_tick,
                g == notes@.subrange(i as int, e as int),
                forall|q: int| i <= q < e ==> (#[trigger] notes@[q]).start_tick == start,
                longest == max_dur(notes@.subrange(i as int, j as int)),
                start + longest <= u64::MAX,
                events@.len() == j - i,
                forall|q: int| 0 <= q < j - i ==> plays(#[trigger] events@[q], g[q], blow@, draw@),
            decreases e - j,
        {
            let note = notes[j];
            assert(notes@.subrange(i as int, j + 1).drop_last() =~= notes@.subrange(i as int, j as int));
            assert(note.start_tick == start);
            if note.dur_ticks > longest {
                longest = note.dur_ticks;
            }
            proof {
                lemma_c_richter_defined(note.key);
            }
            let m = map_pitch(note.key, &blow, &draw);
            let name = midi_to_note(m.natural as i32);
            events.push(ChartEvent { mapped: m, note: name });
            assert(g[j - i] == note);
            j = j + 1;
        }
        assert(notes@.subrange(i as int, e as int) == g);
        let k = items.len();
        let id = chart_item_id((k + 1) as u64);
        let item = ChartItem { id, start_tick: start, end_tick: start + longest, chord: e - i > 1, events };
        proof {
            let before = items_groups(gs, k as int);
            assert(groups_from(notes@, i as int) == seq![g] + groups_from(notes@, e as int));
            assert(gs == before + (seq![g] + groups_from(notes@, e as int)));
            assert(gs[k as int] == g);
            assert(items_groups(gs, k + 1) =~= before.push(g));
            assert(gs =~= items_groups(gs, k + 1) + groups_from(notes@, e as int));
        }
        items.push(item);
        assert forall|q: int| 0 <= q < items@.len() implies item_of_group(#[trigger] items@[q], items_groups(gs, items@.len() as int)[q], q, blow@, draw@) by {
            if q < k {
                assert(items_groups(gs, items@.len() as int)[q] == items_groups(gs, k as int)[q]);
            }
        }
        i = e;
    }
    proof {
        assert(groups_from(notes@, n as int) =~= Seq::<Seq<Note>>::empty());
        assert(gs =~= items_groups(gs, items@.len() as int));
        lemma_groups_cover(notes@, 0);
        assert forall|k: int, j: int| 0 <= k < items@.len() && 0 <= j < gs[k].len()
            implies (#[trigger] gs[k][j]).dur_ticks <= items@[k].end_tick - items@[k].start_tick by {
            lemma_max_dur_is_longest(gs[k]);
            assert(item_of_group(items@[k], gs[k], k, blow@, draw@));
        }
        assert forall|k: int| 0 <= k < items@.len() implies (#[trigger] items@[k]).chord == (items@[k].events@.len() > 1)
            && items@[k].events@.len() == gs[k].len()
            && forall|j: int| 0 <= j < gs[k].len() ==> (#[trigger] gs[k][j]).start_tick == items@[k].start_tick by {
            assert(item_of_group(items@[k], gs[k], k, blow@, draw@));
        }
        assert forall|k: int| 0 <= k < items@.len() implies #[trigger] items@[k].end_tick - items@[k].start_tick >= 0
            && exists|j: int| 0 <= j < gs[k].len()
            && items@[k].end_tick - items@[k].start_tick == (#[trigger] gs[k][j]).dur_ticks by {
            lemma_max_dur_is_longest(gs[k]);
            assert(item_of_group(items@[k], gs[k], k, blow@, draw@));
            assert(gs[k].len() > 0);
            let j = choose|j: int| 0 <= j < gs[k].len() && max_dur(gs[k]) == (#[trigger] gs[k][j]).dur_ticks;
            assert(items@[k].end_tick - items@[k].start_tick == gs[k][j].dur_ticks);
        }
    }
    items
}

/// The notes of `gs`, group after group.
pub open spec fn concat_groups(gs: Seq<Seq<Note>>) -> Seq<Note>
    decreases gs.len(),
{
    if gs.len() == 0 {
        Seq::empty()
    } else {
        gs[0] + concat_groups(gs.skip(1))
    }
}

proof fn lemma_run_end(s: Seq<Note>, i: int, j: int)
    requires
        0 <= i < j <= s.len(),
        forall|q: int| i <= q < j ==> (#[trigger] s[q]).start_tick == s[i].start_tick,
    ensures
        j <= run_end(s, i, j) <= s.len(),
        forall|q: int| i <= q < run_end(s, i, j) ==> (#[trigger] s[q]).start_tick == s[i].start_tick,
        run_end(s, i, j) < s.len() ==> s[run_end(s, i, j)].start_tick != s[i].start_tick,
    decreases s.len() - j,
{
    if j < s.len() && s[j].start_tick == s[i].start_tick {
        lemma_run_end(s, i, j + 1);
    }
}

/// Grouping loses and reorders nothing: the groups, one after another, are
/// the notes; every group is non-empty and starts on one tick, and
/// neighbouring groups start on different ticks.
pub proof fn lemma_groups_cover(s: Seq<Note>, i: int)
    requires
        0 <= i <= s.len(),
    ensures
        concat_groups(groups_from(s, i)) == s.skip(i),
        groups_from(s, i).len() > 0 ==> groups_from(s, i)[0].len() > 0 && groups_from(s, i)[0][0] == s[i],
        forall|g: int, q: int| 0 <= g < groups_from(s, i).len() && 0 <= q < groups_from(s, i)[g].len()
            ==> (#[trigger] groups_from(s, i)[g][q]).start_tick == groups_from(s, i)[g][0].start_tick,
        forall|g: int| 0 <= g < groups_from(s, i).len() ==> (#[trigger] groups_from(s, i)[g]).len() > 0,
        forall|g: int| 0 < g < groups_from(s, i).len()
            ==> (#[trigger] groups_from(s, i)[g])[0].start_tick != groups_from(s, i)[g - 1][0].start_tick,
    decreases s.len() - i,
{
    if i == s.len() {
        assert(s.skip(i) =~= Seq::<Note>::empty());
    } else {
        lemma_run_end(s, i, i + 1);
        let e = run_end(s, i, i + 1);
        let head = s.subrange(i, e);
        let rest = groups_from(s, e);
        lemma_groups_cover(s, e);
        let gs = groups_from(s, i);
        assert(gs == seq![head] + rest);
        assert(gs.skip(1) =~= rest);
        assert(s.skip(i) =~= head + s.skip(e));
        assert forall|g: int, q: int| 0 <= g < gs.len() && 0 <= q < gs[g].len()
            implies (#[trigger] gs[g][q]).start_tick == gs[g][0].start_tick by {
            if g > 0 {
                assert(gs[g] == rest[g - 1]);
            }
        }
        assert forall|g: int| 0 <= g < gs.len() implies (#[trigger] gs[g]).len() > 0 by {
            if g > 0 {
                assert(gs[g] == rest[g - 1]);
            }
        }
        assert forall|g: int| 0 < g < gs.len() implies (#[trigger] gs[g])[0].start_tick != gs[g - 1][0].start_tick by {
            assert(gs[g] == rest[g - 1]);
            if g > 1 {
                assert(gs[g - 1] == rest[g - 2]);
            }
        }
    }
}

/// The first `k` groups.
pub open spec fn items_groups(gs: Seq<Seq<Note>>, k: int) -> Seq<Seq<Note>> {
    gs.take(k)
}

// ── Output paths ────────────────────────────────────────────────────────────

/// What `Path::file_stem` gives for `path` under the path rules of the
/// platform the crate is built for: the file name without its last
/// extension, `None` when the path has no file name.
pub uninterp spec fn path_file_stem(path: Seq<char>) -> Option<Seq<char>>;

/// What `PathBuf::set_file_name` makes of `path` with the file name `name`
/// under the path rules of the platform the crate is built for.
pub uninterp spec fn path_with_file_name(path: Seq<char>, name: Seq<char>) -> Seq<char>;

/// Index of the last `c` in `p`, or -1.
pub open spec fn last_index(p: Seq<char>, c: char) -> int
    decreases p.len(),
{
    if p.len() == 0 {
        -1
    } else if p.last() == c {
        p.len() - 1
    } else {
        last_index(p.drop_last(), c)
    }
}

/// The text after the last `/` of a path (all of it when there is none).
pub open spec fn final_name(p: Seq<char>) -> Seq<char> {
    p.skip(last_index(p, '/') + 1)
}

/// The text before the last `/` of a path (empty when there is none).
pub open spec fn parent_text(p: Seq<char>) -> Seq<char> {
    if last_index(p, '/') < 0 { Seq::empty() } else { p.take(last_index(p, '/')) }
}

/// A file name that is neither empty, `.` nor `..`.
pub open spec fn ordinary_name(n: Seq<char>) -> bool {
    n.len() > 0 && n != "."@ && n != ".."@
}

/// A path that every platform splits the same way and whose last component
/// is its final name: no `\`, `:` or leading `//`, an ordinary final name,
/// and a parent that does not end in `/`, `/.` or is `.`.
pub open spec fn simple_path(p: Seq<char>) -> bool {
    let d = parent_text(p);
    &&& !p.contains('\\') && !p.contains(':')
    &&& !(p.len() >= 2 && p[0] == '/' && p[1] == '/')
    &&& ordinary_name(final_name(p))
    &&& (d.len() == 0 || (d.last() != '/' && d != "."@ && !(d.len() >= 2 && d.last() == '.' && d[d.len() - 2] == '/')))
}

/// The stem of a file name as `Path::file_stem` documents it: the whole name
/// when it has no `.` or only a leading one, else the part before the last
/// `.`.
pub open spec fn stem_of_file_name(n: Seq<char>) -> Seq<char> {
    if last_index(n, '.') <= 0 { n } else { n.take(last_index(n, '.')) }
}

/// What `PathBuf::set_file_name(name)` makes of a simple path, with the
/// platform's separator `sep` (`/` or `\\`): the name alone when the path has no
/// directory, `/name` under the root, else the directory, `sep` and the name.
pub open spec fn renamed_simple_path(p: Seq<char>, name: Seq<char>, sep: char) -> Seq<char> {
    if last_index(p, '/') < 0 {
        name
    } else if last_index(p, '/') == 0 {
        "/"@ + name
    } else {
        parent_text(p) + seq![sep] + name
    }
}

/// `Path::file_stem` of a UTF-8 path (whose stem is then UTF-8 too). The
/// contract names the stem and states the documented rule on simple paths,
/// where the file name is the final name; other paths are left to the name.
#[verifier::external_body]
fn file_stem_of(path: &str) -> (r: Option<String>)
    ensures
        match path_file_stem(path@) {
            Some(s) => r matches Some(x) && x@ == s,
            None => r is None,
        },
        simple_path(path@) ==> (r is Some && r->0@ == stem_of_file_name(final_name(path@))),
{
    std::path::Path::new(path).file_stem().and_then(|s| s.to_str()).map(|s| s.to_string())
}

/// `PathBuf::set_file_name` on a UTF-8 path with a UTF-8 file name (the
/// result is UTF-8, so reading it back loses nothing). The contract names the
/// result and states what the documentation gives for a simple path and an
/// ordinary name: the last component replaced, joined with the platform's
/// separator (`/` or `\\`); other paths are left to the name.
#[verifier::external_body]
fn with_file_name(path: &str, name: &str) -> (r: String)
    ensures
        r@ == path_with_file_name(path@, name@),
        simple_path(path@) && ordinary_name(name@) && !name@.contains('/') && !name@.contains('\\')
            && !name@.contains(':') ==> (r@ == renamed_simple_path(path@, name@, '/')
            || r@ == renamed_simple_path(path@, name@, '\\')),
{
    let mut out = std::path::PathBuf::from(path);
    out.set_file_name(name);
    out.to_string_lossy().into_owned()
}

/// The file name of the MIDI file left after a track is taken out of it:
/// the source file's stem (or "song" when there is none) and "_processed.midi".
pub open spec fn processed_name(stem: Option<Seq<char>>) -> Seq<char> {
    let base = match stem {
        Some(s) => s,
        None => "song"@,
    };
    base + "_processed.midi"@
}

/// The path `<dir>/<stem>_processed.midi` next to the source MIDI file.
pub fn processed_path(source: &str) -> (r: String)
    ensures
        r@ == path_with_file_name(source@, processed_name(path_file_stem(source@))),
{
    let mut name = match file_stem_of(source) {
        Some(s) => s,
        None => String::from_str("song"),
    };
    name.append("_processed.midi");
    with_file_name(source, name.as_str())
}

/// The title of a song charted from the MIDI file at `path`: the file's stem,
/// or "Untitled".
pub fn song_title(path: &str) -> (r: String)
    ensures
        r@ == match path_file_stem(path@) {
            Some(s) => s,
            None => "Untitled"@,
        },
{
    match file_stem_of(path) {
        Some(s) => s,
        None => String::from_str("Untitled"),
    }
}

/// Why a generated chart did not pass the schema check.
#[derive(Debug)]
pub enum ChartRejection {
    /// The schema (or the chart text) could not be used; the message says why.
    Unusable(String),
    /// The chart breaks the schema: one "  - <message> (at /<path>)" line per
    /// violation.
    Violations(String),
}

/// Checks a generated chart's JSON text against the song schema text: `Ok`
/// when the schema reports no violation; otherwise the violations, one
/// "  - <message> (at /<path>)" line each, or why an input was unusable.
pub fn check_chart(chart_json: &[u8], schema: &str) -> (r: Result<(), ChartRejection>)
    ensures
        match schema_report(chart_json@, schema@) {
            Err((fault, msg)) => r matches Err(ChartRejection::Unusable(m)) && m@ == fault_message(fault, msg),
            Ok(vs) => if vs.len() == 0 {
                r is Ok
            } else {
                r matches Err(ChartRejection::Violations(m)) && m@ == report_text(vs, "  - "@, "\n"@)
            },
        },
{
    match schema_violations(chart_json, schema) {
        Err((fault, msg)) => Err(ChartRejection::Unusable(fault_text(fault, msg.as_str()))),
        Ok(vs) => {
            if vs.len() == 0 {
                Ok(())
            } else {
                Err(ChartRejection::Violations(render_violations(&vs, "  - ", "\n")))
            }
        },
    }
}

} // verus!
