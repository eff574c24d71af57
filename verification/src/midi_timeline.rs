//! Reading time out of MIDI tracks: absolute ticks, the tempo map across all
//! tracks, the first time signature, and the notes of a track (NoteOn/NoteOff
//! pairs) in playing order.

use vstd::prelude::*;
use std::collections::HashMap;
use crate::midi_file::{EventKind, MidiFile, TrackEvent};

verus! {

broadcast use vstd::std_specs::hash::group_hash_axioms;

// ── Stable ordering by a key ────────────────────────────────────────────────

/// The first index at or after `i` whose element has a key above `k`
/// (the length when there is none).
pub open spec fn first_above<T>(s: Seq<T>, key: spec_fn(T) -> int, k: int, i: int) -> int
    decreases s.len() - i,
{
    if i < 0 || i >= s.len() {
        s.len() as int
    } else if key(s[i]) > k {
        i
    } else {
        first_above(s, key, k, i + 1)
    }
}

/// `x` inserted into `s` after every element whose key is not above its own.
pub open spec fn insert_stable<T>(s: Seq<T>, key: spec_fn(T) -> int, x: T) -> Seq<T> {
    s.insert(first_above(s, key, key(x), 0), x)
}

/// The stable sort of `s` by `key`: elements in key order, and elements with
/// equal keys in the order they come in `s`.
pub open spec fn stable_sort<T>(s: Seq<T>, key: spec_fn(T) -> int) -> Seq<T>
    decreases s.len(),
{
    if s.len() == 0 {
        s
    } else {
        insert_stable(stable_sort(s.drop_last(), key), key, s.last())
    }
}

/// The keys of `s` never decrease.
pub open spec fn sorted_by<T>(s: Seq<T>, key: spec_fn(T) -> int) -> bool {
    forall|i: int, j: int| 0 <= i <= j < s.len() ==> key(#[trigger] s[i]) <= key(#[trigger] s[j])
}

/// The elements of `s` whose key is `k`, in order.
pub open spec fn with_key<T>(s: Seq<T>, key: spec_fn(T) -> int, k: int) -> Seq<T> {
    s.filter(key_is(key, k))
}

/// Holds of the elements whose key is `k`.
pub open spec fn key_is<T>(key: spec_fn(T) -> int, k: int) -> spec_fn(T) -> bool {
    |x: T| key(x) == k
}

proof fn lemma_first_above<T>(s: Seq<T>, key: spec_fn(T) -> int, k: int, i: int)
    requires
        0 <= i <= s.len(),
        forall|j: int| 0 <= j < i ==> key(#[trigger] s[j]) <= k,
    ensures
        i <= first_above(s, key, k, i) <= s.len(),
        first_above(s, key, k, i) == first_above(s, key, k, 0),
        forall|j: int| 0 <= j < first_above(s, key, k, 0) ==> key(#[trigger] s[j]) <= k,
        first_above(s, key, k, 0) < s.len() ==> key(s[first_above(s, key, k, 0)]) > k,
    decreases i,
{
    if i > 0 {
        lemma_first_above(s, key, k, i - 1);
    }
    lemma_first_above_forward(s, key, k, i);
}

proof fn lemma_first_above_forward<T>(s: Seq<T>, key: spec_fn(T) -> int, k: int, i: int)
    requires
        0 <= i <= s.len(),
    ensures
        i <= first_above(s, key, k, i) <= s.len(),
        forall|j: int| i <= j < first_above(s, key, k, i) ==> key(#[trigger] s[j]) <= k,
        first_above(s, key, k, i) < s.len() ==> key(s[first_above(s, key, k, i)]) > k,
    decreases s.len() - i,
{
    if i < s.len() && key(s[i]) <= k {
        lemma_first_above_forward(s, key, k, i + 1);
    }
}

/// Where a stable insertion puts `x` into a sorted sequence keeps it sorted.
proof fn lemma_insert_stable_sorted<T>(s: Seq<T>, key: spec_fn(T) -> int, x: T)
    requires
        sorted_by(s, key),
    ensures
        sorted_by(insert_stable(s, key, x), key),
        insert_stable(s, key, x).len() == s.len() + 1,
{
    let p = first_above(s, key, key(x), 0);
    lemma_first_above(s, key, key(x), 0);
    let r = insert_stable(s, key, x);
    assert forall|i: int, j: int| 0 <= i <= j < r.len() implies key(#[trigger] r[i]) <= key(#[trigger] r[j]) by {
        if i < p && j < p {
        } else if i < p && j == p {
        } else if i < p {
            assert(r[j] == s[j - 1]);
        } else if i == p && j > p {
            assert(r[j] == s[j - 1]);
        } else if i > p {
            assert(r[i] == s[i - 1]);
            assert(r[j] == s[j - 1]);
        }
    }
}

/// A stable sort is sorted by its key.
pub proof fn lemma_stable_sort_sorted<T>(s: Seq<T>, key: spec_fn(T) -> int)
    ensures
        sorted_by(stable_sort(s, key), key),
        stable_sort(s, key).len() == s.len(),
    decreases s.len(),
{
    if s.len() > 0 {
        lemma_stable_sort_sorted(s.drop_last(), key);
        lemma_insert_stable_sorted(stable_sort(s.drop_last(), key), key, s.last());
    }
}

/// A stable insertion adds `x` at the end of the elements that share its key,
/// and leaves the elements of every other key as they were.
proof fn lemma_insert_stable_with_key<T>(s: Seq<T>, key: spec_fn(T) -> int, x: T, k: int)
    requires
        sorted_by(s, key),
    ensures
        with_key(insert_stable(s, key, x), key, k)
            == if key(x) == k { with_key(s, key, k).push(x) } else { with_key(s, key, k) },
{
    let p = first_above(s, key, key(x), 0);
    lemma_first_above(s, key, key(x), 0);
    let pred = key_is(key, k);
    let a = s.take(p);
    let b = s.skip(p);
    assert(s =~= a + b);
    assert(insert_stable(s, key, x) =~= a + (seq![x] + b));
    Seq::filter_distributes_over_add(a, b, pred);
    Seq::filter_distributes_over_add(seq![x], b, pred);
    Seq::filter_distributes_over_add(a, seq![x] + b, pred);
    if key(x) == k {
        assert(b.filter(pred) =~= Seq::<T>::empty()) by {
            if b.filter(pred).len() > 0 {
                let y = b.filter(pred)[0];
                b.filter_lemma(pred);
                assert(b.filter(pred).contains(y));
                b.lemma_filter_contains_rev(pred, y);
                let j = choose|j: int| 0 <= j < b.len() && b[j] == y;
                assert(s[p + j] == b[j]);
            }
        }
        reveal_with_fuel(Seq::filter, 2);
        assert(seq![x].filter(pred) =~= seq![x]);
        assert(s.filter(pred) =~= a.filter(pred));
        assert(a.filter(pred) + (seq![x] + b.filter(pred)) =~= a.filter(pred).push(x));
    } else {
        reveal_with_fuel(Seq::filter, 2);
        assert(seq![x].filter(pred) =~= Seq::<T>::empty());
        assert(a.filter(pred) + (Seq::<T>::empty() + b.filter(pred)) =~= a.filter(pred) + b.filter(pred));
    }
}

/// A stable sort keeps, for every key, the elements with that key in the
/// order they come in.
pub proof fn lemma_stable_sort_keeps_order<T>(s: Seq<T>, key: spec_fn(T) -> int, k: int)
    ensures
        with_key(stable_sort(s, key), key, k) == with_key(s, key, k),
    decreases s.len(),
{
    if s.len() > 0 {
        let init = s.drop_last();
        lemma_stable_sort_keeps_order(init, key, k);
        lemma_stable_sort_sorted(init, key);
        lemma_insert_stable_with_key(stable_sort(init, key), key, s.last(), k);
        assert(s =~= init.push(s.last()));
        Seq::filter_distributes_over_add(init, seq![s.last()], key_is(key, k));
        reveal_with_fuel(Seq::filter, 2);
        assert(init + seq![s.last()] =~= s);
    }
}

// ── Absolute time ───────────────────────────────────────────────────────────

/// Ticks from the start of `track` to its `n`-th event (the sum of the first
/// `n` deltas).
pub open spec fn elapsed(track: Seq<TrackEvent>, n: int) -> int
    decreases n,
{
    if n <= 0 {
        0
    } else {
        elapsed(track, n - 1) + track[n - 1].delta
    }
}

/// The track's last event comes at a tick that a `u64` can count.
pub open spec fn ticks_fit(track: Seq<TrackEvent>) -> bool {
    elapsed(track, track.len() as int) <= u64::MAX
}

/// Every track of `file` ends at a tick that a `u64` can count.
pub open spec fn all_ticks_fit(file: MidiFile) -> bool {
    forall|t: int| 0 <= t < file.tracks@.len() ==> ticks_fit(#[trigger] file.tracks@[t]@)
}

/// Time only moves forward along a track.
pub proof fn lemma_elapsed_monotone(track: Seq<TrackEvent>, i: int, j: int)
    requires
        0 <= i <= j,
    ensures
        0 <= elapsed(track, i) <= elapsed(track, j),
    decreases j,
{
    if j > i {
        lemma_elapsed_monotone(track, i, j - 1);
    } else if i > 0 {
        lemma_elapsed_monotone(track, 0, i - 1);
    }
}

/// The tick of the last event of `track`, or `None` when it is past what a
/// `u64` can count.
pub fn total_ticks(track: &Vec<TrackEvent>) -> (r: Option<u64>)
    ensures
        match r {
            Some(v) => ticks_fit(track@) && v == elapsed(track@, track@.len() as int),
            None => !ticks_fit(track@),
        },
{
    let n = track.len();
    let mut tick: u64 = 0;
    let mut i: usize = 0;
    while i < n
        invariant
            n == track@.len(),
            i <= n,
            tick == elapsed(track@, i as int),
        decreases n - i,
    {
        match tick.checked_add(track[i].delta as u64) {
            Some(t) => {
                tick = t;
            },
            None => {
                proof {
                    lemma_elapsed_monotone(track@, i + 1, n as int);
                }
                return None;
            },
        }
        i = i + 1;
    }
    Some(tick)
}

/// Whether every track of `file` ends at a tick that a `u64` can count.
pub fn file_ticks_fit(file: &MidiFile) -> (r: bool)
    ensures
        r == all_ticks_fit(*file),
{
    let n = file.tracks.len();
    let mut t: usize = 0;
    while t < n
        invariant
            n == file.tracks@.len(),
            t <= n,
            forall|u: int| 0 <= u < t ==> ticks_fit(#[trigger] file.tracks@[u]@),
        decreases n - t,
    {
        if total_ticks(&file.tracks[t]).is_none() {
            return false;
        }
        t = t + 1;
    }
    true
}

// ── Tempo map ───────────────────────────────────────────────────────────────

/// The tempo that `DEFAULT_TEMPO_US` stands for: 120 beats per minute.
pub const DEFAULT_TEMPO_US: u32 = 500_000;

/// The tempo `e` sets, in microseconds per quarter note.
pub open spec fn tempo_of(e: TrackEvent) -> Option<u32> {
    match e.kind {
        EventKind::Tempo(us) => Some(us),
        _ => None,
    }
}

/// The tempo changes among the first `n` events of `track`, as
/// `(absolute tick, microseconds per quarter)`, in event order.
pub open spec fn track_tempo_changes(track: Seq<TrackEvent>, n: int) -> Seq<(u64, u32)>
    decreases n,
{
    if n <= 0 {
        Seq::empty()
    } else {
        let before = track_tempo_changes(track, n - 1);
        match tempo_of(track[n - 1]) {
            Some(us) => before.push((elapsed(track, n) as u64, us)),
            None => before,
        }
    }
}

/// The tempo changes of the first `t` tracks, track by track.
pub open spec fn tempo_changes(tracks: Seq<Vec<TrackEvent>>, t: int) -> Seq<(u64, u32)>
    decreases t,
{
    if t <= 0 {
        Seq::empty()
    } else {
        tempo_changes(tracks, t - 1) + track_tempo_changes(tracks[t - 1]@, tracks[t - 1]@.len() as int)
    }
}

/// Tempo changes are ordered by their tick.
pub open spec fn tempo_key() -> spec_fn((u64, u32)) -> int {
    |c: (u64, u32)| c.0 as int
}

/// A sorted list of tempo changes, with the default tempo put first when the
/// list does not start at tick 0.
pub open spec fn with_default_tempo(s: Seq<(u64, u32)>) -> Seq<(u64, u32)> {
    if s.len() > 0 && s[0].0 == 0 {
        s
    } else {
        seq![(0u64, DEFAULT_TEMPO_US)] + s
    }
}

/// The tempo map of a file: every tempo change of every track, stably sorted
/// by tick, beginning at tick 0.
pub open spec fn tempo_map(file: MidiFile) -> Seq<(u64, u32)> {
    with_default_tempo(stable_sort(tempo_changes(file.tracks@, file.tracks@.len() as int), tempo_key()))
}

/// Inserts `x` into the tick-sorted `v` after every change at the same tick.
fn insert_tempo_change(v: &mut Vec<(u64, u32)>, x: (u64, u32))
    ensures
        final(v)@ == insert_stable(old(v)@, tempo_key(), x),
{
    let mut p: usize = 0;
    while p < v.len() && v[p].0 <= x.0
        invariant
            p <= v@.len(),
            v@ == old(v)@,
            forall|j: int| 0 <= j < p ==> (tempo_key())(#[trigger] v@[j]) <= (tempo_key())(x),
        decreases v@.len() - p,
    {
        p = p + 1;
    }
    proof {
        lemma_first_above(v@, tempo_key(), (tempo_key())(x), p as int);
    }
    v.insert(p, x);
}

/// All tempo changes across the file as `(absolute_tick, microseconds_per_quarter)`,
/// sorted by tick (changes at one tick keep their file order), with an
/// implicit 120 BPM entry at tick 0 if none is given there.
pub fn collect_tempo_map(file: &MidiFile) -> (r: Vec<(u64, u32)>)
    requires
        all_ticks_fit(*file),
    ensures
        r@ == tempo_map(*file),
{
    let mut changes: Vec<(u64, u32)> = Vec::new();
    let nt = file.tracks.len();
    let mut t: usize = 0;
    while t < nt
        invariant
            nt == file.tracks@.len(),
            t <= nt,
            all_ticks_fit(*file),
            changes@ == stable_sort(tempo_changes(file.tracks@, t as int), tempo_key()),
        decreases nt - t,
    {
        let track = &file.tracks[t];
        let ghost before = tempo_changes(file.tracks@, t as int);
        assert(ticks_fit(file.tracks@[t as int]@));
        let n = track.len();
        let mut tick: u64 = 0;
        let mut i: usize = 0;
        while i < n
            invariant
                n == track@.len(),
                i <= n,
                ticks_fit(track@),
                tick == elapsed(track@, i as int),
                changes@ == stable_sort(before + track_tempo_changes(track@, i as int), tempo_key()),
            decreases n - i,
        {
            proof {
                lemma_elapsed_monotone(track@, i + 1, n as int);
            }
            tick = tick + track[i].delta as u64;
            match &track[i].kind {
                EventKind::Tempo(us) => {
                    let ghost s = before + track_tempo_changes(track@, i as int);
                    let x = (tick, *us);
                    insert_tempo_change(&mut changes, x);
                    assert(before + track_tempo_changes(track@, i + 1) =~= s.push(x));
                    assert(s.push(x).drop_last() =~= s);
                },
                _ => {
                    assert(before + track_tempo_changes(track@, i + 1) =~= before + track_tempo_changes(track@, i as int));
                },
            }
            i = i + 1;
        }
        t = t + 1;
    }
    if changes.len() == 0 || changes[0].0 != 0 {
        changes.insert(0, (0, DEFAULT_TEMPO_US));
        assert(changes@ =~= with_default_tempo(stable_sort(tempo_changes(file.tracks@, nt as int), tempo_key())));
    }
    changes
}

// ── Time signature ──────────────────────────────────────────────────────────

/// The numerator and the power-of-two exponent of the denominator of a time
/// signature event.
pub open spec fn time_signature_of(e: TrackEvent) -> Option<(u8, u8)> {
    match e.kind {
        EventKind::TimeSignature(num, denom_pow, _, _) => Some((num, denom_pow)),
        _ => None,
    }
}

/// The first time signature among the events of `track` at or after `i`.
pub open spec fn first_signature_in(track: Seq<TrackEvent>, i: int) -> Option<(u8, u8)>
    decreases track.len() - i,
{
    if i < 0 || i >= track.len() {
        None
    } else if time_signature_of(track[i]) is Some {
        time_signature_of(track[i])
    } else {
        first_signature_in(track, i + 1)
    }
}

/// The first time signature of the tracks at or after `t`, searched track by
/// track.
pub open spec fn first_signature_from(tracks: Seq<Vec<TrackEvent>>, t: int) -> Option<(u8, u8)>
    decreases tracks.len() - t,
{
    if t < 0 || t >= tracks.len() {
        None
    } else if first_signature_in(tracks[t]@, 0) is Some {
        first_signature_in(tracks[t]@, 0)
    } else {
        first_signature_from(tracks, t + 1)
    }
}

/// The first time signature of the file, as `(numerator, denominator exponent)`.
pub open spec fn first_signature(file: MidiFile) -> Option<(u8, u8)> {
    first_signature_from(file.tracks@, 0)
}

/// The first time signature event of the file, as stored: `(numerator,
/// denominator exponent)`.
pub fn first_signature_fields(file: &MidiFile) -> (r: Option<(u8, u8)>)
    ensures
        r == first_signature(*file),
{
    let nt = file.tracks.len();
    let mut t: usize = 0;
    while t < nt
        invariant
            nt == file.tracks@.len(),
            t <= nt,
            first_signature(*file) == first_signature_from(file.tracks@, t as int),
        decreases nt - t,
    {
        let track = &file.tracks[t];
        let n = track.len();
        let mut i: usize = 0;
        while i < n
            invariant
                n == track@.len(),
                i <= n,
                first_signature_in(track@, 0) == first_signature_in(track@, i as int),
                first_signature(*file) == first_signature_from(file.tracks@, t as int),
                t < nt,
                nt == file.tracks@.len(),
                track@ == file.tracks@[t as int]@,
            decreases n - i,
        {
            match &track[i].kind {
                EventKind::TimeSignature(num, denom_pow, _, _) => {
                    return Some((*num, *denom_pow));
                },
                _ => {},
            }
            i = i + 1;
        }
        t = t + 1;
    }
    None
}

/// The first time signature in the file, as `(numerator, denominator)`;
/// 4/4 when there is none. The file stores the denominator as a power of two.
pub fn first_time_signature(file: &MidiFile) -> (r: (u8, u8))
    requires
        first_signature(*file) matches Some((_, p)) ==> p < 8,
    ensures
        match first_signature(*file) {
            Some((num, p)) => r.0 == num && r.1 == vstd::arithmetic::power2::pow2(p as nat),
            None => r == (4u8, 4u8),
        },
{
    match first_signature_fields(file) {
        Some((num, p)) => {
            proof {
                vstd::arithmetic::power2::lemma2_to64();
                vstd::bits::lemma_u8_shl_is_mul(1, p);
            }
            (num, 1u8 << p)
        },
        None => (4, 4),
    }
}

// ── Notes ───────────────────────────────────────────────────────────────────

/// A note of a track: when it starts, how long it sounds (in ticks), and its
/// MIDI key.
#[derive(Debug, Clone, Copy, PartialEq, Eq, Structural)]
pub struct Note {
    pub start_tick: u64,
    pub dur_ticks: u64,
    pub key: u8,
}

/// Notes are ordered by start tick, then by key.
pub open spec fn note_key() -> spec_fn(Note) -> int {
    |n: Note| n.start_tick * 256 + n.key
}

/// Stopping `key` at `tick`: if it is sounding, it ends, and the note it made
/// is added to `out`.
pub open spec fn close_note(open: Map<u8, u64>, out: Seq<Note>, key: u8, tick: int) -> (Map<u8, u64>, Seq<Note>) {
    if open.contains_key(key) {
        let start = open[key];
        let dur = if tick >= start { (tick - start) as u64 } else { 0u64 };
        (open.remove(key), out.push(Note { start_tick: start, dur_ticks: dur, key }))
    } else {
        (open, out)
    }
}

/// After the first `n` events of `track`: the sounding keys with the tick each
/// started at, and the finished notes in the order they ended. A NoteOn with
/// velocity 0 stops its key, as a NoteOff does; a second NoteOn of a sounding
/// key restarts it.
pub open spec fn note_scan(track: Seq<TrackEvent>, n: int) -> (Map<u8, u64>, Seq<Note>)
    decreases n,
{
    if n <= 0 {
        (Map::empty(), Seq::empty())
    } else {
        let (open, out) = note_scan(track, n - 1);
        let tick = elapsed(track, n);
        match track[n - 1].kind {
            EventKind::NoteOn { key, vel } => {
                if vel > 0 {
                    (open.insert(key, tick as u64), out)
                } else {
                    close_note(open, out, key, tick)
                }
            },
            EventKind::NoteOff { key, .. } => close_note(open, out, key, tick),
            _ => (open, out),
        }
    }
}

/// The notes of a track, ordered by start tick then key (notes equal in both
/// keep the order in which they ended).
pub open spec fn track_notes(track: Seq<TrackEvent>) -> Seq<Note> {
    stable_sort(note_scan(track, track.len() as int).1, note_key())
}

/// Inserts `x` into the sorted `v` after every note that does not come after it.
fn insert_note(v: &mut Vec<Note>, x: Note)
    ensures
        final(v)@ == insert_stable(old(v)@, note_key(), x),
{
    let mut p: usize = 0;
    while p < v.len() && (v[p].start_tick < x.start_tick || (v[p].start_tick == x.start_tick && v[p].key <= x.key))
        invariant
            p <= v@.len(),
            v@ == old(v)@,
            forall|j: int| 0 <= j < p ==> (note_key())(#[trigger] v@[j]) <= (note_key())(x),
        decreases v@.len() - p,
    {
        p = p + 1;
    }
    proof {
        lemma_first_above(v@, note_key(), (note_key())(x), p as int);
    }
    v.insert(p, x);
}

/// Pairs NoteOn/NoteOff into `Note`s, ordered by start tick then key.
pub fn extract_notes(track: &Vec<TrackEvent>) -> (r: Vec<Note>)
    requires
        ticks_fit(track@),
    ensures
        r@ == track_notes(track@),
{
    let mut open: HashMap<u8, u64> = HashMap::new();
    let mut notes: Vec<Note> = Vec::new();
    let n = track.len();
    let mut tick: u64 = 0;
    let mut i: usize = 0;
    while i < n
        invariant
            n == track@.len(),
            i <= n,
            ticks_fit(track@),
            tick == elapsed(track@, i as int),
            open@ == note_scan(track@, i as int).0,
            notes@ == stable_sort(note_scan(track@, i as int).1, note_key()),
        decreases n - i,
    {
        proof {
            lemma_elapsed_monotone(track@, i + 1, n as int);
        }
        tick = tick + track[i].delta as u64;
        let ghost out = note_scan(track@, i as int).1;
        let mut closing: Option<u8> = None;
        match &track[i].kind {
            EventKind::NoteOn { key, vel } => {
                if *vel > 0 {
                    open.insert(*key, tick);
                } else {
                    closing = Some(*key);
                }
            },
            EventKind::NoteOff { key, .. } => {
                closing = Some(*key);
            },
            _ => {},
        }
        if let Some(k) = closing {
            match open.remove(&k) {
                Some(start) => {
                    let dur = if tick >= start { tick - start } else { 0 };
                    let x = Note { start_tick: start, dur_ticks: dur, key: k };
                    insert_note(&mut notes, x);
                    assert(out.push(x).drop_last() =~= out);
                },
                None => {},
            }
        }
        i = i + 1;
    }
    notes
}

// ── Ordering laws ───────────────────────────────────────────────────────────

/// The tempo map starts at tick 0 and never goes back in time; at one tick
/// the changes keep the order in which the file gives them.
pub proof fn lemma_tempo_map_ordered(file: MidiFile, tick: int)
    ensures
        tempo_map(file).len() > 0,
        tempo_map(file)[0].0 == 0,
        sorted_by(tempo_map(file), tempo_key()),
        with_key(stable_sort(tempo_changes(file.tracks@, file.tracks@.len() as int), tempo_key()), tempo_key(), tick)
            == with_key(tempo_changes(file.tracks@, file.tracks@.len() as int), tempo_key(), tick),
{
    let c = tempo_changes(file.tracks@, file.tracks@.len() as int);
    let s = stable_sort(c, tempo_key());
    lemma_stable_sort_sorted(c, tempo_key());
    lemma_stable_sort_keeps_order(c, tempo_key(), tick);
    if !(s.len() > 0 && s[0].0 == 0) {
        let m = seq![(0u64, DEFAULT_TEMPO_US)] + s;
        assert forall|i: int, j: int| 0 <= i <= j < m.len() implies (tempo_key())(#[trigger] m[i]) <= (tempo_key())(#[trigger] m[j]) by {
            if i > 0 {
                assert(m[i] == s[i - 1]);
                assert(m[j] == s[j - 1]);
            }
        }
    }
}

/// The notes of a track come in order of start tick, then key; notes equal
/// in both keep the order in which they ended.
pub proof fn lemma_track_notes_ordered(track: Seq<TrackEvent>, k: int)
    ensures
        sorted_by(track_notes(track), note_key()),
        with_key(track_notes(track), note_key(), k) == with_key(note_scan(track, track.len() as int).1, note_key(), k),
{
    lemma_stable_sort_sorted(note_scan(track, track.len() as int).1, note_key());
    lemma_stable_sort_keeps_order(note_scan(track, track.len() as int).1, note_key(), k);
}

} // verus!
