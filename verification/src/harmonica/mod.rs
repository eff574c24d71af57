//! The harmonica model a chart carries, and the labels and note sets derived
//! from it: the twelve-bar chord roots of a key, per-hole blow/draw labels, a
//! one-line description of the harp, and every note the harp can produce.

use vstd::prelude::*;
use vstd::arithmetic::div_mod::{lemma_add_mod_noop, lemma_mod_add_multiples_vanish, lemma_small_mod};
use crate::audio_system::midi::{fields_fit, fields_value, midi_name, note_names, note_parts, natural_class, sharp_class};
use crate::audio_system::midi_functions::{midi_to_note, note_to_midi};
use crate::text::{chars_of, nat_digits, push_nat_digits};

verus! {

/// Which reed tuning a diatonic harp uses.
#[derive(Debug, Clone, Copy, PartialEq, Eq)]
pub enum BendingProfile {
    RichterStandard,
    CountryTuned,
}

/// Note names of each hole of a diatonic harp, hole 1 first.
#[derive(Debug, Clone)]
pub struct DiatonicLayout {
    pub blow: Option<Vec<String>>,
    pub draw: Option<Vec<String>>,
}

/// Note names of each hole of a chromatic harp, with and without the slide.
#[derive(Debug, Clone)]
pub struct ChromaticLayout {
    pub blow: Option<Vec<String>>,
    pub draw: Option<Vec<String>>,
    pub blow_slide: Option<Vec<String>>,
    pub draw_slide: Option<Vec<String>>,
}

/// The harmonica a chart is written for.
#[derive(Debug, Clone)]
pub enum Harmonica {
    Diatonic {
        holes: u8,
        bending_profile: BendingProfile,
        position: Option<String>,
        layout: Option<DiatonicLayout>,
    },
    Chromatic {
        holes: u8,
        position: Option<String>,
        layout: Option<ChromaticLayout>,
    },
}

/// The part of a song chart that the harp labels read: its harmonica.
#[derive(Debug, Clone)]
pub struct HarpChart {
    pub harmonica: Harmonica,
}

/// Character views of an optional list of note names (empty when absent).
pub open spec fn name_views(o: Option<Vec<String>>) -> Seq<Seq<char>> {
    match o {
        Some(v) => v@.map_values(|s: String| s@),
        None => Seq::empty(),
    }
}

/// The em dash shown for a hole/direction the harp cannot produce.
pub open spec fn dash() -> Seq<char> {
    seq!['\u{2014}']
}

/// The layout's note for `hole` (counted from 1) blown (`blow`) or drawn, on a
/// diatonic harp with a layout.
pub open spec fn layout_note(harp: Harmonica, hole: int, blow: bool) -> Option<Seq<char>> {
    match harp {
        Harmonica::Diatonic { layout: Some(l), .. } => {
            let notes = if blow { l.blow } else { l.draw };
            if 1 <= hole && notes is Some && hole - 1 < notes->Some_0@.len() {
                Some(notes->Some_0@[hole - 1]@)
            } else {
                None
            }
        },
        _ => None,
    }
}

/// The label of a hole/direction: its layout note, or the dash.
pub open spec fn hole_label(harp: Harmonica, hole: int, blow: bool) -> Seq<char> {
    match layout_note(harp, hole, blow) {
        Some(n) => n,
        None => dash(),
    }
}

/// Position of a name among the twelve sharp-spelled names.
pub open spec fn sharp_name_index(r: Seq<char>) -> Option<int> {
    if r.len() == 1 {
        natural_class(r[0])
    } else if r.len() == 2 && r[1] == '#' {
        sharp_class(r[0])
    } else {
        None
    }
}

/// Position of `root` among the twelve sharp names, or 0 (C) when it is not one.
pub open spec fn root_index(r: Seq<char>) -> int {
    match sharp_name_index(r) {
        Some(i) => i,
        None => 0,
    }
}

/// The name `n` semitones above `root` (below when negative), wrapping within
/// the octave; an unknown root counts as C.
pub open spec fn semitone_name(root: Seq<char>, n: int) -> Seq<char> {
    note_names()[(root_index(root) + n) % 12]
}

/// [`sharp_name_index`] finds exactly the table entry.
pub proof fn lemma_sharp_name_index(r: Seq<char>)
    ensures
        sharp_name_index(r) matches Some(i) ==> 0 <= i < 12 && r == note_names()[i],
        forall|i: int| 0 <= i < 12 && r == note_names()[i] ==> sharp_name_index(r) == Some(i),
{
    if r.len() == 1 {
        if let Some(i) = natural_class(r[0]) {
            assert(r =~= note_names()[i]);
        }
    } else if r.len() == 2 && r[1] == '#' {
        if let Some(i) = sharp_class(r[0]) {
            assert(r =~= note_names()[i]);
        }
    }
}

/// Moving by semitones composes and wraps at the octave: for a root among
/// the twelve sharp names, moving by `a` then `b` is moving by `a + b`,
/// twelve semitones change nothing, zero gives the root back, and every
/// result is one of the twelve names.
pub proof fn lemma_semitone_steps_compose(r: Seq<char>, a: int, b: int)
    requires
        note_names().contains(r),
    ensures
        semitone_name(semitone_name(r, a), b) == semitone_name(r, a + b),
        semitone_name(r, a + 12) == semitone_name(r, a),
        semitone_name(r, 0) == r,
        note_names().contains(semitone_name(r, a)),
{
    let i = choose|i: int| 0 <= i < note_names().len() && note_names()[i] == r;
    lemma_sharp_name_index(r);
    assert(root_index(r) == i);
    let j = (i + a) % 12;
    assert(0 <= j < 12);
    let s = note_names()[j];
    lemma_sharp_name_index(s);
    assert(root_index(s) == j);
    assert((j + b) % 12 == (i + a + b) % 12) by {
        lemma_add_mod_noop(i + a, b, 12);
        lemma_small_mod(j as nat, 12);
        lemma_add_mod_noop(j, b, 12);
    }
    assert((i + a + 12) % 12 == (i + a) % 12) by {
        lemma_mod_add_multiples_vanish(i + a, 12);
    }
    assert(i % 12 == i) by {
        lemma_small_mod(i as nat, 12);
    }
    assert(note_names()[j] == s);
}

/// Position of `root` among the twelve sharp names, or 0 (C) when it is not one.
pub fn root_index_of(root: &str) -> (r: i32)
    ensures
        r == root_index(root@),
        0 <= r < 12,
{
    let cs = chars_of(root);
    let mut i: i32 = 0;
    if cs.len() == 1 {
        i = match cs[0] {
            'C' => 0, 'D' => 2, 'E' => 4, 'F' => 5, 'G' => 7, 'A' => 9, 'B' => 11, _ => 0,
        };
    } else if cs.len() == 2 && cs[1] == '#' {
        i = match cs[0] {
            'C' => 1, 'D' => 3, 'F' => 6, 'G' => 8, 'A' => 10, _ => 0,
        };
    }
    i
}

/// Returns the semitone label for the given root and offset.
pub fn semitone(root: &str, n: i32) -> (r: String)
    requires
        root_index(root@) + n <= i32::MAX,
    ensures
        r@ == semitone_name(root@, n as int),
{
    let i = root_index_of(root);
    let k = ((i + n) % 12 + 12) % 12;
    let mut s = String::new();
    crate::audio_system::midi::push_pitch_name(&mut s, k as u8);
    s
}

/// The twelve-bar chord roots of a key: I I I I, IV IV I I, V IV I V.
pub open spec fn twelve_bar_roots(key: Seq<char>) -> Seq<Seq<char>> {
    let iv = semitone_name(key, 5);
    let v = semitone_name(key, 7);
    seq![key, key, key, key, iv, iv, key, key, v, iv, key, v]
}

/// Creates the twelve-bar key signature for the given key.
pub fn twelve_bar(key: &str) -> (r: [String; 12])
    ensures
        r@.map_values(|s: String| s@) == twelve_bar_roots(key@),
{
    let iv = semitone(key, 5);
    let v = semitone(key, 7);
    let r = [
        key.to_owned(), key.to_owned(), key.to_owned(), key.to_owned(),
        iv.clone(), iv.clone(), key.to_owned(), key.to_owned(),
        v.clone(), iv.clone(), key.to_owned(), v.clone(),
    ];
    assert(r@.map_values(|s: String| s@) =~= twelve_bar_roots(key@));
    r
}

/// The dash label as a `String`.
fn dash_string() -> (r: String)
    ensures
        r@ == dash(),
{
    let mut s = String::new();
    s.push('\u{2014}');
    assert(s@ =~= dash());
    s
}

/// The label of `hole` on `harp`, blown or drawn.
pub fn wind_direction_label(harp: &Harmonica, hole: u8, blow: bool) -> (r: String)
    ensures
        r@ == hole_label(*harp, hole as int, blow),
{
    if hole == 0 {
        return dash_string();
    }
    let idx = (hole - 1) as usize;
    if let Harmonica::Diatonic { layout: Some(l), .. } = harp {
        let notes = if blow { &l.blow } else { &l.draw };
        if let Some(notes) = notes {
            if idx < notes.len() {
                return notes[idx].clone();
            }
        }
    }
    dash_string()
}

/// Returns the blow label for the given hole, or a dash if not available.
pub fn blow_label(hole: u8, chart: &HarpChart) -> (r: String)
    ensures
        r@ == hole_label(chart.harmonica, hole as int, true),
{
    wind_direction_label(&chart.harmonica, hole, true)
}

/// Returns the draw label for the given hole, or a dash if not available.
pub fn draw_label(hole: u8, chart: &HarpChart) -> (r: String)
    ensures
        r@ == hole_label(chart.harmonica, hole as int, false),
{
    wind_direction_label(&chart.harmonica, hole, false)
}

/// The harp's position, or "?" when the chart gives none.
pub open spec fn position_text(p: Option<String>) -> Seq<char> {
    match p {
        Some(s) => s@,
        None => seq!['?'],
    }
}

/// One-line description of a chart's harmonica, e.g.
/// "Diatonic · 10 holes · 1st position · Richter".
pub open spec fn harp_description(harp: Harmonica) -> Seq<char> {
    match harp {
        Harmonica::Diatonic { holes, bending_profile, position, .. } =>
            "Diatonic \u{00B7} "@ + nat_digits(holes as nat) + " holes \u{00B7} "@
                + position_text(position) + " position \u{00B7} "@
                + (match bending_profile {
                    BendingProfile::RichterStandard => "Richter"@,
                    BendingProfile::CountryTuned => "Country"@,
                }),
        Harmonica::Chromatic { holes, position, .. } =>
            "Chromatic \u{00B7} "@ + nat_digits(holes as nat) + " holes \u{00B7} "@
                + position_text(position) + " position"@,
    }
}

/// Returns a human-readable string describing the harmonica type and settings.
pub fn harp_display(chart: &HarpChart) -> (r: String)
    ensures
        r@ == harp_description(chart.harmonica),
{
    let mut s = String::new();
    match &chart.harmonica {
        Harmonica::Diatonic { holes, bending_profile, position, .. } => {
            s.append("Diatonic \u{00B7} ");
            push_nat_digits(&mut s, *holes as u64);
            s.append(" holes \u{00B7} ");
            match position {
                Some(p) => s.append(p.as_str()),
                None => s.push('?'),
            }
            s.append(" position \u{00B7} ");
            match bending_profile {
                BendingProfile::RichterStandard => s.append("Richter"),
                BendingProfile::CountryTuned => s.append("Country"),
            }
        },
        Harmonica::Chromatic { holes, position, .. } => {
            s.append("Chromatic \u{00B7} ");
            push_nat_digits(&mut s, *holes as u64);
            s.append(" holes \u{00B7} ");
            match position {
                Some(p) => s.append(p.as_str()),
                None => s.push('?'),
            }
            s.append(" position");
        },
    }
    assert(s@ =~= harp_description(chart.harmonica));
    s
}


/// Whether `note_to_midi` of the harp-layout module may read `s`: its first
/// character is ASCII and its MIDI number does not overflow.
pub open spec fn readable_note(s: Seq<char>) -> bool {
    s.len() > 0 && (s[0] as int) < 128 && fields_fit(note_parts(s))
}

/// `x` is a note strictly between the two named notes (both must be readable
/// note names): a pitch reachable by bending one reed toward the other.
pub open spec fn bend_between(a: Seq<char>, b: Seq<char>, x: Seq<char>) -> bool {
    match (fields_value(note_parts(a)), fields_value(note_parts(b))) {
        (Some(p), Some(q)) => exists|m: int|
            #![trigger midi_name(m)]
            (if p < q { p } else { q }) < m < (if p < q { q } else { p }) && x == midi_name(m),
        _ => false,
    }
}

/// Hole `i` (from 0) of a diatonic layout can sound `x`: its blow note, its draw
/// note, or a bend between them.
pub open spec fn diatonic_hole_sounds(b: Seq<Seq<char>>, d: Seq<Seq<char>>, i: int, x: Seq<char>) -> bool {
    x == b[i] || x == d[i] || bend_between(b[i], d[i], x)
}

/// Every note the harp can physically produce: for a diatonic layout, each
/// paired hole's blow and draw notes and all pitches between them; for a
/// chromatic layout, every listed note.
pub open spec fn harp_can_sound(chart: HarpChart, x: Seq<char>) -> bool {
    match chart.harmonica {
        Harmonica::Diatonic { layout: Some(l), .. } => {
            let b = name_views(l.blow);
            let d = name_views(l.draw);
            exists|i: int| 0 <= i < b.len() && i < d.len() && #[trigger] diatonic_hole_sounds(b, d, i, x)
        },
        Harmonica::Chromatic { layout: Some(l), .. } =>
            name_views(l.blow).contains(x) || name_views(l.draw).contains(x)
                || name_views(l.blow_slide).contains(x) || name_views(l.draw_slide).contains(x),
        _ => false,
    }
}

/// The lower of two readable notes is below `i32::MAX`, so the first pitch
/// above it can be computed.
pub open spec fn bend_start_fits(a: Seq<char>, b: Seq<char>) -> bool {
    match (fields_value(note_parts(a)), fields_value(note_parts(b))) {
        (Some(p), Some(q)) => p < i32::MAX || q < i32::MAX,
        _ => true,
    }
}

/// Every paired hole of a diatonic layout is a readable note name, and the
/// pitches between its blow and draw notes can be enumerated without overflow.
pub open spec fn layout_readable(chart: HarpChart) -> bool {
    match chart.harmonica {
        Harmonica::Diatonic { layout: Some(l), .. } => {
            let b = name_views(l.blow);
            let d = name_views(l.draw);
            forall|i: int| 0 <= i < b.len() && i < d.len() ==> readable_note(#[trigger] b[i]) && readable_note(d[i])
                && bend_start_fits(b[i], d[i])
        },
        _ => true,
    }
}

/// Character views of a list of strings.
pub open spec fn views(v: Seq<String>) -> Seq<Seq<char>> {
    v.map_values(|s: String| s@)
}

/// No two strings of `v` are equal.
pub open spec fn no_duplicates(v: Seq<String>) -> bool {
    forall|i: int, j: int| 0 <= i < j < v.len() ==> v[i]@ != v[j]@
}

/// Adds `s` to `set` unless an equal string is already there.
fn insert_unique(set: &mut Vec<String>, s: String)
    requires
        no_duplicates(old(set)@),
    ensures
        no_duplicates(final(set)@),
        views(final(set)@).to_set() == views(old(set)@).to_set().insert(s@),
{
    let mut i: usize = 0;
    while i < set.len()
        invariant
            i <= set@.len(),
            set@ == old(set)@,
            no_duplicates(set@),
            forall|j: int| 0 <= j < i ==> set@[j]@ != s@,
        decreases set@.len() - i,
    {
        if set[i] == s {
            proof {
                assert(views(set@).to_set() =~= views(set@).to_set().insert(s@)) by {
                    assert(views(set@)[i as int] == s@);
                }
            }
            return;
        }
        i = i + 1;
    }
    let ghost before = set@;
    set.push(s);
    proof {
        assert(views(set@) =~= views(before).push(s@));
        assert(views(set@).to_set() =~= views(before).to_set().insert(s@)) by {
            assert forall|x: Seq<char>| views(set@).to_set().contains(x) <==> views(before).to_set().insert(s@).contains(x) by {
                if views(set@).to_set().contains(x) {
                    let k = choose|k: int| 0 <= k < views(set@).len() && views(set@)[k] == x;
                    if k < before.len() {
                        assert(views(before)[k] == x);
                    }
                }
                if views(before).to_set().contains(x) {
                    let k = choose|k: int| 0 <= k < views(before).len() && views(before)[k] == x;
                    assert(views(set@)[k] == x);
                }
                if x == s@ {
                    assert(views(set@)[before.len() as int] == x);
                }
            }
        }
    }
}

/// Adds every string of `names` to `set`.
fn insert_all(set: &mut Vec<String>, names: &Option<Vec<String>>)
    requires
        no_duplicates(old(set)@),
    ensures
        no_duplicates(final(set)@),
        views(final(set)@).to_set() == views(old(set)@).to_set().union(name_views(*names).to_set()),
{
    if let Some(v) = names {
        let mut i: usize = 0;
        while i < v.len()
            invariant
                i <= v@.len(),
                no_duplicates(set@),
                views(set@).to_set() == views(old(set)@).to_set().union(views(v@.subrange(0, i as int)).to_set()),
            decreases v@.len() - i,
        {
            let ghost mid = set@;
            insert_unique(set, v[i].clone());
            proof {
                assert(views(v@.subrange(0, i + 1)) =~= views(v@.subrange(0, i as int)).push(v@[i as int]@));
                assert(views(v@.subrange(0, i + 1)).to_set() =~= views(v@.subrange(0, i as int)).to_set().insert(v@[i as int]@)) by {
                    views(v@.subrange(0, i as int)).lemma_push_to_set_commute(v@[i as int]@);
                }
            }
            i = i + 1;
        }
        assert(v@.subrange(0, v@.len() as int) =~= v@);
    } else {
        assert(name_views(*names).to_set() =~= Set::empty());
        assert(views(set@).to_set().union(Set::empty()) =~= views(set@).to_set());
    }
}


/// Build the complete set of notes this harmonica can physically produce,
/// including all bendable pitches between blow and draw notes. Each note is
/// listed once.
pub fn build_valid_notes(chart: &HarpChart) -> (r: Vec<String>)
    requires
        layout_readable(*chart),
    ensures
        no_duplicates(r@),
        forall|x: Seq<char>| #[trigger] views(r@).to_set().contains(x) <==> harp_can_sound(*chart, x),
{
    let mut set: Vec<String> = Vec::new();
    match &chart.harmonica {
        Harmonica::Diatonic { layout: Some(l), .. } => {
            let empty: Vec<String> = Vec::new();
            let blow = match &l.blow {
                Some(v) => v,
                None => &empty,
            };
            let draw = match &l.draw {
                Some(v) => v,
                None => &empty,
            };
            let ghost b = name_views(l.blow);
            let ghost d = name_views(l.draw);
            assert(views(blow@) == b);
            assert(views(draw@) == d);
            let k = if blow.len() < draw.len() { blow.len() } else { draw.len() };
            let mut i: usize = 0;
            while i < k
                invariant
                    i <= k,
                    k <= blow@.len(),
                    k <= draw@.len(),
                    views(blow@) == b,
                    views(draw@) == d,
                    layout_readable(*chart),
                    chart.harmonica matches Harmonica::Diatonic { layout: Some(ll), .. } && b == name_views(ll.blow) && d == name_views(ll.draw),
                    no_duplicates(set@),
                    forall|x: Seq<char>| #[trigger] views(set@).to_set().contains(x) <==>
                        exists|ii: int| 0 <= ii < i && #[trigger] diatonic_hole_sounds(b, d, ii, x),
                decreases k - i,
            {
                let ghost before = views(set@).to_set();
                insert_unique(&mut set, blow[i].clone());
                insert_unique(&mut set, draw[i].clone());
                assert(b[i as int] == blow@[i as int]@);
                assert(d[i as int] == draw@[i as int]@);
                assert(readable_note(b[i as int]) && readable_note(d[i as int]));
                assert(bend_start_fits(b[i as int], d[i as int]));
                let from = if i < 6 { &draw[i] } else { &blow[i] };
                let to = if i < 6 { &blow[i] } else { &draw[i] };
                let fm = note_to_midi(from.as_str());
                let tm = note_to_midi(to.as_str());
                let ghost mid = views(set@).to_set();
                assert(mid == before.insert(b[i as int]).insert(d[i as int]));
                if let (Some(fm), Some(tm)) = (fm, tm) {
                    let lo = if fm < tm { fm } else { tm };
                    let hi = if fm < tm { tm } else { fm };
                    let mut m = lo + 1;
                    while m < hi
                        invariant
                            lo < m <= hi || m == lo + 1,
                            lo < hi ==> lo < m <= hi,
                            no_duplicates(set@),
                            forall|x: Seq<char>| #[trigger] views(set@).to_set().contains(x) <==>
                                mid.contains(x) || exists|mm: int| lo < mm < m && x == #[trigger] midi_name(mm),
                        decreases hi - m,
                    {
                        let ghost pre = views(set@).to_set();
                        let name = midi_to_note(m);
                        insert_unique(&mut set, name);
                        proof {
                            assert forall|x: Seq<char>| #[trigger] views(set@).to_set().contains(x) <==>
                                mid.contains(x) || exists|mm: int| lo < mm < m + 1 && x == #[trigger] midi_name(mm) by {
                                if exists|mm: int| lo < mm < m + 1 && x == #[trigger] midi_name(mm) {
                                    let mm = choose|mm: int| lo < mm < m + 1 && x == #[trigger] midi_name(mm);
                                    if mm < m {
                                        assert(pre.contains(x));
                                    }
                                }
                            }
                        }
                        m = m + 1;
                    }
                    proof {
                        assert forall|x: Seq<char>| bend_between(b[i as int], d[i as int], x) <==>
                            exists|mm: int| lo < mm < hi && x == #[trigger] midi_name(mm) by {}
                    }
                } else {
                    proof {
                        assert forall|x: Seq<char>| !bend_between(b[i as int], d[i as int], x) by {}
                    }
                }
                proof {
                    assert forall|x: Seq<char>| #[trigger] views(set@).to_set().contains(x) <==>
                        exists|ii: int| 0 <= ii < i + 1 && #[trigger] diatonic_hole_sounds(b, d, ii, x) by {
                        if exists|ii: int| 0 <= ii < i + 1 && #[trigger] diatonic_hole_sounds(b, d, ii, x) {
                            let ii = choose|ii: int| 0 <= ii < i + 1 && #[trigger] diatonic_hole_sounds(b, d, ii, x);
                            if ii < i {
                                assert(before.contains(x));
                            }
                        }
                        if views(set@).to_set().contains(x) && !mid.contains(x) {
                            assert(diatonic_hole_sounds(b, d, i as int, x));
                        }
                        if mid.contains(x) && !before.contains(x) {
                            assert(diatonic_hole_sounds(b, d, i as int, x));
                        }
                    }
                }
                i = i + 1;
            }
            proof {
                assert forall|x: Seq<char>| #[trigger] views(set@).to_set().contains(x) <==> harp_can_sound(*chart, x) by {
                    if harp_can_sound(*chart, x) {
                        let ii = choose|ii: int| 0 <= ii < b.len() && ii < d.len() && #[trigger] diatonic_hole_sounds(b, d, ii, x);
                        assert(ii < k);
                    }
                }
            }
        },
        Harmonica::Chromatic { layout: Some(l), .. } => {
            insert_all(&mut set, &l.blow);
            insert_all(&mut set, &l.draw);
            insert_all(&mut set, &l.blow_slide);
            insert_all(&mut set, &l.draw_slide);
            proof {
                assert(views(Seq::<String>::empty()).to_set() =~= Set::empty());
                assert forall|x: Seq<char>| #[trigger] views(set@).to_set().contains(x) <==> harp_can_sound(*chart, x) by {
                    assert(name_views(l.blow).contains(x) <==> name_views(l.blow).to_set().contains(x));
                    assert(name_views(l.draw).contains(x) <==> name_views(l.draw).to_set().contains(x));
                    assert(name_views(l.blow_slide).contains(x) <==> name_views(l.blow_slide).to_set().contains(x));
                    assert(name_views(l.draw_slide).contains(x) <==> name_views(l.draw_slide).to_set().contains(x));
                }
            }
        },
        _ => {
            proof {
                assert forall|x: Seq<char>| #[trigger] views(set@).to_set().contains(x) <==> harp_can_sound(*chart, x) by {
                    assert(views(set@) =~= Seq::<Seq<char>>::empty());
                }
            }
        },
    }
    set
}

} // verus!
