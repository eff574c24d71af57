//! Judging a song's scheduled notes against the pitches the player sounds.
//! Each frame the game loop places every pending note against the timing
//! windows (floating-point seconds) and orders the pending notes by how close
//! they are to the judged instant; the decisions are made here: which note a
//! pitch attack scores, that a held pitch scores only one note, that a chord
//! note needs its whole chord, and which notes are done for good.

use vstd::prelude::*;
use crate::gameplay::scoring::{classify_note, note_outcome, NoteOutcome, TimingClass};
use crate::scoring::{all_sounding, chord_is_sounding, holds, AttackGate};

verus! {

/// One chart note's score state.
pub struct NoteState {
    /// The MIDI note the player must produce; `None` for a hole/action the
    /// harp cannot produce, which can never be hit.
    pub expected_pitch: Option<u8>,
    /// Every pitch of the note's chart item when it is a chord or an octave
    /// split (empty for a single note): the note only counts as played while
    /// all of them sound together.
    pub chord_pitches: Vec<u8>,
    pub hit: bool,
    pub missed: bool,
    /// Set once the sustain window has closed and its bonus was awarded.
    pub sustain_scored: bool,
}

impl NoteState {
    /// A note not judged yet.
    pub fn new(expected_pitch: Option<u8>, chord_pitches: Vec<u8>) -> (r: Self)
        ensures
            r.expected_pitch == expected_pitch,
            r.chord_pitches@ == chord_pitches@,
            !r.hit && !r.missed && !r.sustain_scored,
    {
        NoteState { expected_pitch, chord_pitches, hit: false, missed: false, sustain_scored: false }
    }
}

/// A note is done for good: missed, or hit and its sustain scored.
pub open spec fn resolved(n: NoteState) -> bool {
    n.missed || (n.hit && n.sustain_scored)
}

/// A note that can still be hit: it has a pitch the harp produces and is
/// neither hit nor missed.
pub open spec fn awaits_hit(n: NoteState) -> bool {
    n.expected_pitch is Some && !n.hit && !n.missed
}

/// The player is playing note `n` on a fresh attack: its pitch is sounding
/// and not consumed, and, for a chord note, every pitch of the chord sounds.
pub open spec fn playing(n: NoteState, consumed: Set<u8>, sounding: Seq<u8>) -> bool {
    match n.expected_pitch {
        Some(m) => sounding.contains(m) && !consumed.contains(m)
            && (n.chord_pitches@.len() == 0 || all_sounding(n.chord_pitches@, sounding)),
        None => false,
    }
}

/// The first index at or after `c` whose note is not resolved, or `c` when
/// `c` is past the end (the end when every note from `c` on is resolved).
pub open spec fn next_unresolved(notes: Seq<NoteState>, c: int) -> int
    decreases notes.len() - c,
{
    if c < 0 || c >= notes.len() {
        c
    } else if resolved(notes[c]) {
        next_unresolved(notes, c + 1)
    } else {
        c
    }
}

proof fn lemma_next_unresolved(notes: Seq<NoteState>, c: int)
    requires
        0 <= c <= notes.len(),
    ensures
        c <= next_unresolved(notes, c) <= notes.len(),
        forall|i: int| c <= i < next_unresolved(notes, c) ==> resolved(#[trigger] notes[i]),
        next_unresolved(notes, c) < notes.len() ==> !resolved(notes[next_unresolved(notes, c)]),
    decreases notes.len() - c,
{
    if c < notes.len() && resolved(notes[c]) {
        lemma_next_unresolved(notes, c + 1);
    }
}

/// The first index at or after `cursor` whose note is not resolved (or the
/// end): a prefix of notes done for good is never visited again.
pub fn advance_cursor(notes: &[NoteState], cursor: usize) -> (r: usize)
    ensures
        r == next_unresolved(notes@, cursor as int),
        forall|i: int| cursor <= i < r ==> (#[trigger] notes@[i]).missed || (notes@[i].hit && notes@[i].sustain_scored),
        r < notes@.len() ==> !notes@[r as int].missed && !(notes@[r as int].hit && notes@[r as int].sustain_scored),
        cursor >= notes@.len() ==> r == cursor,
        cursor < notes@.len() ==> cursor <= r <= notes@.len(),
        forall|i: int| cursor <= i < r ==> resolved(#[trigger] notes@[i]),
        r < notes@.len() ==> !resolved(notes@[r as int]),
{
    let mut c = cursor;
    while c < notes.len()
        invariant
            next_unresolved(notes@, c as int) == next_unresolved(notes@, cursor as int),
            cursor <= c,
            cursor >= notes@.len() ==> c == cursor,
            cursor < notes@.len() ==> c <= notes@.len(),
            forall|i: int| cursor <= i < c ==> resolved(#[trigger] notes@[i]),
        decreases notes@.len() - c,
    {
        let n = &notes[c];
        if n.missed || (n.hit && n.sustain_scored) {
            c = c + 1;
        } else {
            return c;
        }
    }
    c
}

/// Every note from `cursor` through `j` is due.
pub open spec fn due_through(due: Seq<bool>, cursor: int, j: int) -> bool {
    forall|k: int| cursor <= k <= j ==> #[trigger] due[k]
}

/// Index of the first note at or after `cursor` that is due (`due[i]`: its
/// time has been reached), can still be hit and has a pitch the harp
/// produces; the scan stops at the first note not yet due. This is the note
/// a wait-for-note practice mode freezes on.
pub fn first_due_unresolved_note(notes: &[NoteState], due: &[bool], cursor: usize) -> (r: Option<usize>)
    requires
        due@.len() == notes@.len(),
    ensures
        match r {
            Some(i) => cursor <= i < notes@.len() && due_through(due@, cursor as int, i as int)
                && notes@[i as int].expected_pitch is Some && !notes@[i as int].hit && !notes@[i as int].missed
                && (forall|k: int| cursor <= k <= i ==> #[trigger] due@[k])
                && awaits_hit(notes@[i as int])
                && (forall|j: int| cursor <= j < i ==> !awaits_hit(#[trigger] notes@[j]))
                && forall|j: int| cursor <= j < i ==> (#[trigger] notes@[j]).expected_pitch is None
                    || notes@[j].hit || notes@[j].missed,
            None => (forall|j: int| cursor <= j < notes@.len() && due_through(due@, cursor as int, j)
                ==> !awaits_hit(#[trigger] notes@[j]))
                && forall|j: int| cursor <= j < notes@.len() && due_through(due@, cursor as int, j)
                ==> (#[trigger] notes@[j]).expected_pitch is None || notes@[j].hit || notes@[j].missed,
        },
{
    let mut i = cursor;
    while i < notes.len()
        invariant
            due@.len() == notes@.len(),
            cursor <= i,
            i > cursor ==> due_through(due@, cursor as int, i - 1),
            forall|j: int| cursor <= j < i ==> !awaits_hit(#[trigger] notes@[j]),
        decreases notes@.len() - i,
    {
        if !due[i] {
            assert forall|j: int| cursor <= j < notes@.len() && due_through(due@, cursor as int, j)
                implies !awaits_hit(#[trigger] notes@[j]) by {
                if j >= i {
                    assert(due@[i as int]);
                }
            }
            return None;
        }
        let n = &notes[i];
        if n.expected_pitch.is_some() && !n.hit && !n.missed {
            return Some(i);
        }
        i = i + 1;
    }
    None
}

/// The state of a judgment: the notes, the consumed pitches, and the notes
/// judged so far with their outcomes.
pub type Judgment = (Seq<NoteState>, Set<u8>, Seq<(usize, NoteOutcome)>);

/// The judgment after the first `k` pending notes of `order` (placed against
/// the windows by `timing`), in that order. A note already hit or missed is
/// left alone. Otherwise it gets its outcome for whether it is being played
/// on a fresh attack at that point: a miss marks it missed, a hit marks it hit
/// and consumes its pitch; both are reported. Other outcomes change nothing.
pub open spec fn judge_prefix(
    notes: Seq<NoteState>,
    gate: Set<u8>,
    order: Seq<usize>,
    timing: Seq<TimingClass>,
    sounding: Seq<u8>,
    k: int,
) -> Judgment
    decreases k,
{
    if k <= 0 {
        (notes, gate, Seq::empty())
    } else {
        let prev = judge_prefix(notes, gate, order, timing, sounding, k - 1);
        let (ns, g, out) = prev;
        let i = order[k - 1] as int;
        let n = ns[i];
        if n.hit || n.missed {
            prev
        } else {
            let outcome = note_outcome(timing[k - 1], playing(n, g, sounding));
            match outcome {
                NoteOutcome::Missed => (
                    ns.update(i, NoteState { missed: true, ..n }),
                    g,
                    out.push((order[k - 1], outcome)),
                ),
                NoteOutcome::Hit(_) => (
                    ns.update(i, NoteState { hit: true, ..n }),
                    g.insert(n.expected_pitch->0),
                    out.push((order[k - 1], outcome)),
                ),
                _ => prev,
            }
        }
    }
}

/// The expected pitch of the note reported at position `a` of `out`.
pub open spec fn reported_pitch(notes: Seq<NoteState>, out: Seq<(usize, NoteOutcome)>, a: int) -> u8 {
    notes[out[a].0 as int].expected_pitch->0
}

/// The report at position `a` of `out` is a hit.
pub open spec fn reported_hit(out: Seq<(usize, NoteOutcome)>, a: int) -> bool {
    out[a].1 is Hit
}

/// A pitch attack scores at most one note: in a judgment, each note is
/// reported at most once, every hit note has a pitch that was not consumed
/// before, no two hits share a pitch, and afterwards the consumed pitches
/// are those consumed before plus the pitches of the hits. Notes keep their
/// pitches and chords.
pub proof fn lemma_each_attack_scores_once(
    notes: Seq<NoteState>,
    gate: Set<u8>,
    order: Seq<usize>,
    timing: Seq<TimingClass>,
    sounding: Seq<u8>,
    k: int,
)
    requires
        0 <= k <= order.len(),
        timing.len() == order.len(),
        forall|j: int| 0 <= j < order.len() ==> #[trigger] order[j] < notes.len(),
    ensures
        ({
            let (ns, g, out) = judge_prefix(notes, gate, order, timing, sounding, k);
            &&& ns.len() == notes.len()
            &&& forall|i: int| 0 <= i < ns.len() ==> (#[trigger] ns[i]).expected_pitch == notes[i].expected_pitch
                && ns[i].chord_pitches == notes[i].chord_pitches
            &&& forall|a: int| 0 <= a < out.len() ==> out[a].0 < notes.len()
                && (ns[out[a].0 as int].hit || ns[out[a].0 as int].missed)
            &&& forall|a: int, b: int| 0 <= a < b < out.len() ==> (#[trigger] out[a]).0 != (#[trigger] out[b]).0
            &&& forall|a: int| 0 <= a < out.len() && #[trigger] reported_hit(out, a) ==>
                notes[out[a].0 as int].expected_pitch is Some && !gate.contains(reported_pitch(notes, out, a))
            &&& forall|a: int, b: int| 0 <= a < b < out.len() && #[trigger] reported_hit(out, a) && #[trigger] reported_hit(out, b)
                ==> reported_pitch(notes, out, a) != reported_pitch(notes, out, b)
            &&& forall|p: u8| #[trigger] g.contains(p) <==> (gate.contains(p) || exists|a: int|
                0 <= a < out.len() && #[trigger] reported_hit(out, a) && reported_pitch(notes, out, a) == p)
        }),
    decreases k,
{
    if k > 0 {
        lemma_each_attack_scores_once(notes, gate, order, timing, sounding, k - 1);
        let (ns, g, out) = judge_prefix(notes, gate, order, timing, sounding, k - 1);
        let (ns2, g2, out2) = judge_prefix(notes, gate, order, timing, sounding, k);
        let i = order[k - 1] as int;
        assert(order[k - 1] < notes.len());
        let n = ns[i];
        if !(n.hit || n.missed) {
            let outcome = note_outcome(timing[k - 1], playing(n, g, sounding));
            if outcome is Missed || outcome is Hit {
                assert(out2 == out.push((order[k - 1], outcome)));
                assert forall|a: int| 0 <= a < out.len() implies (#[trigger] out[a]).0 != i by {}
                assert forall|a: int| 0 <= a < out2.len() implies out2[a].0 < notes.len()
                    && (ns2[out2[a].0 as int].hit || ns2[out2[a].0 as int].missed) by {
                    if a < out.len() {
                        assert(out2[a] == out[a]);
                    }
                }
                assert forall|a: int, b: int| 0 <= a < b < out2.len() implies (#[trigger] out2[a]).0 != (#[trigger] out2[b]).0 by {
                    assert(out2[a] == out[a]);
                    if b < out.len() {
                        assert(out2[b] == out[b]);
                    }
                }
                assert forall|a: int| 0 <= a < out2.len() && #[trigger] reported_hit(out2, a) implies
                    notes[out2[a].0 as int].expected_pitch is Some && !gate.contains(reported_pitch(notes, out2, a)) by {
                    if a < out.len() {
                        assert(out2[a] == out[a]);
                        assert(reported_hit(out, a));
                    } else {
                        assert(!g.contains(n.expected_pitch->0));
                    }
                }
                assert forall|a: int, b: int| 0 <= a < b < out2.len() && #[trigger] reported_hit(out2, a) && #[trigger] reported_hit(out2, b)
                    implies reported_pitch(notes, out2, a) != reported_pitch(notes, out2, b) by {
                    assert(out2[a] == out[a]);
                    assert(reported_hit(out, a));
                    if b < out.len() {
                        assert(out2[b] == out[b]);
                        assert(reported_hit(out, b));
                    } else {
                        assert(g.contains(reported_pitch(notes, out, a)));
                        assert(!g.contains(n.expected_pitch->0));
                    }
                }
                assert forall|p: u8| #[trigger] g2.contains(p) <==> (gate.contains(p) || exists|a: int|
                    0 <= a < out2.len() && #[trigger] reported_hit(out2, a) && reported_pitch(notes, out2, a) == p) by {
                    if exists|a: int| 0 <= a < out2.len() && #[trigger] reported_hit(out2, a) && reported_pitch(notes, out2, a) == p {
                        let a = choose|a: int| 0 <= a < out2.len() && #[trigger] reported_hit(out2, a) && reported_pitch(notes, out2, a) == p;
                        if a < out.len() {
                            assert(out2[a] == out[a]);
                            assert(reported_hit(out, a));
                            assert(g.contains(p));
                        }
                    }
                    if g.contains(p) && !gate.contains(p) {
                        let a = choose|a: int| 0 <= a < out.len() && #[trigger] reported_hit(out, a) && reported_pitch(notes, out, a) == p;
                        assert(out2[a] == out[a]);
                        assert(reported_hit(out2, a));
                    }
                    if outcome is Hit && p == n.expected_pitch->0 {
                        assert(out2[out.len() as int] == (order[k - 1], outcome));
                        assert(reported_hit(out2, out.len() as int));
                    }
                }
            }
        }
    }
}

/// Every hit a judgment reports was played: the note has a pitch, that pitch
/// is sounding and was not consumed when the judgment began, and every pitch
/// of its chord (if it is a chord note) is sounding too. Every report is a
/// hit or a miss.
pub proof fn lemma_reported_hits_were_played(
    notes: Seq<NoteState>,
    gate: Set<u8>,
    order: Seq<usize>,
    timing: Seq<TimingClass>,
    sounding: Seq<u8>,
    k: int,
)
    requires
        0 <= k <= order.len(),
        timing.len() == order.len(),
        forall|j: int| 0 <= j < order.len() ==> #[trigger] order[j] < notes.len(),
    ensures
        ({
            let out = judge_prefix(notes, gate, order, timing, sounding, k).2;
            forall|a: int| 0 <= a < out.len() && #[trigger] reported_hit(out, a) ==> {
                let n = notes[out[a].0 as int];
                &&& n.expected_pitch is Some
                &&& sounding.contains(n.expected_pitch->0)
                &&& !gate.contains(n.expected_pitch->0)
                &&& forall|c: int| 0 <= c < n.chord_pitches@.len() ==> sounding.contains(#[trigger] n.chord_pitches@[c])
            }
        }),
        ({
            let out = judge_prefix(notes, gate, order, timing, sounding, k).2;
            forall|a: int| 0 <= a < out.len() ==> (#[trigger] out[a]).1 is Hit || out[a].1 is Missed
        }),
    decreases k,
{
    lemma_each_attack_scores_once(notes, gate, order, timing, sounding, k);
    if k > 0 {
        lemma_reported_hits_were_played(notes, gate, order, timing, sounding, k - 1);
        lemma_each_attack_scores_once(notes, gate, order, timing, sounding, k - 1);
        let (ns, g, out) = judge_prefix(notes, gate, order, timing, sounding, k - 1);
        let out2 = judge_prefix(notes, gate, order, timing, sounding, k).2;
        let i = order[k - 1] as int;
        assert(order[k - 1] < notes.len());
        let n = ns[i];
        assert(n.expected_pitch == notes[i].expected_pitch && n.chord_pitches == notes[i].chord_pitches);
        if !(n.hit || n.missed) {
            let outcome = note_outcome(timing[k - 1], playing(n, g, sounding));
            if outcome is Missed || outcome is Hit {
                assert(out2 == out.push((order[k - 1], outcome)));
                assert forall|a: int| 0 <= a < out2.len() && #[trigger] reported_hit(out2, a) implies {
                    let m = notes[out2[a].0 as int];
                    &&& m.expected_pitch is Some
                    &&& sounding.contains(m.expected_pitch->0)
                    &&& !gate.contains(m.expected_pitch->0)
                    &&& forall|c: int| 0 <= c < m.chord_pitches@.len() ==> sounding.contains(#[trigger] m.chord_pitches@[c])
                } by {
                    if a < out.len() {
                        assert(out2[a] == out[a]);
                        assert(reported_hit(out, a));
                    } else {
                        assert(out2[a] == (order[k - 1], outcome));
                        assert(playing(n, g, sounding));
                        assert(!g.contains(n.expected_pitch->0));
                        assert(reported_hit(out2, a));
                    }
                }
                assert forall|a: int| 0 <= a < out2.len() implies (#[trigger] out2[a]).1 is Hit || out2[a].1 is Missed by {
                    if a < out.len() {
                        assert(out2[a] == out[a]);
                    }
                }
            }
        }
    }
}

/// Judging leaves every note already hit or missed as it was, and changes no
/// note's pitch, chord or sustain flag.
pub proof fn lemma_judging_leaves_judged_notes(
    notes: Seq<NoteState>,
    gate: Set<u8>,
    order: Seq<usize>,
    timing: Seq<TimingClass>,
    sounding: Seq<u8>,
    k: int,
)
    requires
        0 <= k <= order.len(),
        forall|j: int| 0 <= j < order.len() ==> #[trigger] order[j] < notes.len(),
    ensures
        ({
            let ns = judge_prefix(notes, gate, order, timing, sounding, k).0;
            &&& ns.len() == notes.len()
            &&& forall|i: int| 0 <= i < notes.len() && (notes[i].hit || notes[i].missed) ==> #[trigger] ns[i] == notes[i]
            &&& forall|i: int| 0 <= i < notes.len() ==> (#[trigger] ns[i]).sustain_scored == notes[i].sustain_scored
                && (notes[i].hit ==> ns[i].hit) && (notes[i].missed ==> ns[i].missed)
        }),
    decreases k,
{
    if k > 0 {
        lemma_judging_leaves_judged_notes(notes, gate, order, timing, sounding, k - 1);
        assert(order[k - 1] < notes.len());
    }
}

/// One frame keeps the cursor sound: if every note before the cursor `c0`
/// was resolved, then after the cursor moves to the next unresolved note and
/// the pending notes are judged, every note before the new cursor is still
/// resolved and unchanged, and no resolved note changed at all.
pub proof fn lemma_frame_keeps_cursor_sound(
    notes: Seq<NoteState>,
    gate: Set<u8>,
    order: Seq<usize>,
    timing: Seq<TimingClass>,
    sounding: Seq<u8>,
    c0: int,
)
    requires
        0 <= c0 <= notes.len(),
        forall|j: int| 0 <= j < c0 ==> resolved(#[trigger] notes[j]),
        forall|j: int| 0 <= j < order.len() ==> #[trigger] order[j] < notes.len(),
    ensures
        ({
            let c1 = next_unresolved(notes, c0);
            let ns = judge_prefix(notes, gate, order, timing, sounding, order.len() as int).0;
            &&& c0 <= c1 <= notes.len()
            &&& forall|j: int| 0 <= j < c1 ==> resolved(#[trigger] ns[j]) && ns[j] == notes[j]
            &&& forall|i: int| 0 <= i < notes.len() && resolved(notes[i]) ==> #[trigger] ns[i] == notes[i]
        }),
{
    lemma_next_unresolved(notes, c0);
    lemma_judging_leaves_judged_notes(notes, gate, order, timing, sounding, order.len() as int);
    let c1 = next_unresolved(notes, c0);
    let ns = judge_prefix(notes, gate, order, timing, sounding, order.len() as int).0;
    assert forall|j: int| 0 <= j < c1 implies resolved(#[trigger] ns[j]) && ns[j] == notes[j] by {
        assert(resolved(notes[j]));
    }
}

/// One frame of judging: the pending notes in order, their places against
/// the windows, and the harp pitches heard.
pub type Frame = (Seq<usize>, Seq<TimingClass>, Seq<u8>);

/// The judgment after the first `k` of `frames`, reports of all frames in
/// turn: each frame first re-arms the consumed pitches no longer sounding
/// (`AttackGate::release_absent`), then judges its pending notes
/// (`judge_pending`).
pub open spec fn run_frames(notes: Seq<NoteState>, gate: Set<u8>, frames: Seq<Frame>, k: int) -> Judgment
    decreases k,
{
    if k <= 0 {
        (notes, gate, Seq::empty())
    } else {
        let (ns, g, out) = run_frames(notes, gate, frames, k - 1);
        let (order, timing, sounding) = frames[k - 1];
        let rearmed = g.filter(|q: u8| sounding.contains(q));
        let (ns2, g2, out2) = judge_prefix(ns, rearmed, order, timing, sounding, order.len() as int);
        (ns2, g2, out + out2)
    }
}

/// Report `a` of `out` is a hit of a note whose pitch is `p`.
pub open spec fn hit_of_pitch(notes: Seq<NoteState>, out: Seq<(usize, NoteOutcome)>, a: int, p: u8) -> bool {
    reported_hit(out, a) && reported_pitch(notes, out, a) == p
}

/// What a run of judging frames keeps, for a pitch `p` sounding throughout:
/// notes keep their pitches and chords, reports name real notes, at most one
/// report is a hit of pitch `p` (none if `p` was consumed at the start), and
/// `p` is consumed at the end exactly when it was at the start or scored.
pub open spec fn held_pitch_facts(
    notes: Seq<NoteState>,
    gate: Set<u8>,
    p: u8,
    ns: Seq<NoteState>,
    g: Set<u8>,
    out: Seq<(usize, NoteOutcome)>,
) -> bool {
    &&& ns.len() == notes.len()
    &&& forall|i: int| 0 <= i < ns.len() ==> (#[trigger] ns[i]).expected_pitch == notes[i].expected_pitch
        && ns[i].chord_pitches == notes[i].chord_pitches
    &&& forall|a: int| 0 <= a < out.len() ==> (#[trigger] out[a]).0 < notes.len()
    &&& forall|a: int, b: int| 0 <= a < b < out.len() && #[trigger] hit_of_pitch(notes, out, a, p)
        ==> !#[trigger] hit_of_pitch(notes, out, b, p)
    &&& gate.contains(p) ==> forall|a: int| 0 <= a < out.len() ==> !#[trigger] hit_of_pitch(notes, out, a, p)
    &&& g.contains(p) <==> (gate.contains(p) || exists|a: int| 0 <= a < out.len() && #[trigger] hit_of_pitch(notes, out, a, p))
}

/// A sustained pitch satisfies only one note: over a run of frames in which
/// pitch `p` sounds in every frame, at most one note of pitch `p` is hit, none
/// if `p` was already consumed when the run began; `p` ends up consumed
/// exactly when it was consumed before or scored in the run. The next note of
/// that pitch needs a fresh attack.
pub proof fn lemma_held_pitch_scores_once(notes: Seq<NoteState>, gate: Set<u8>, frames: Seq<Frame>, p: u8, k: int)
    requires
        0 <= k <= frames.len(),
        forall|f: int| 0 <= f < frames.len() ==> (#[trigger] frames[f]).1.len() == frames[f].0.len()
            && frames[f].2.contains(p)
            && forall|j: int| 0 <= j < frames[f].0.len() ==> #[trigger] frames[f].0[j] < notes.len(),
    ensures
        held_pitch_facts(
            notes,
            gate,
            p,
            run_frames(notes, gate, frames, k).0,
            run_frames(notes, gate, frames, k).1,
            run_frames(notes, gate, frames, k).2,
        ),
    decreases k,
{
    if k > 0 {
        lemma_held_pitch_scores_once(notes, gate, frames, p, k - 1);
        let (ns, g, out) = run_frames(notes, gate, frames, k - 1);
        assert(held_pitch_facts(notes, gate, p, ns, g, out));
        let f = frames[k - 1];
        let (order, timing, sounding) = f;
        assert(frames[k - 1].2.contains(p));
        let rearmed = g.filter(|q: u8| sounding.contains(q));
        assert(rearmed.contains(p) == g.contains(p));
        assert forall|j: int| 0 <= j < order.len() implies #[trigger] order[j] < ns.len() by {
            assert(frames[k - 1].0[j] < notes.len());
        }
        lemma_each_attack_scores_once(ns, rearmed, order, timing, sounding, order.len() as int);
        let (ns2, g2, out2) = judge_prefix(ns, rearmed, order, timing, sounding, order.len() as int);
        let all = out + out2;
        assert(run_frames(notes, gate, frames, k) == (ns2, g2, all));
        // Reports of this frame, read against the original notes' pitches.
        assert forall|a: int| 0 <= a < out2.len() implies
            (#[trigger] hit_of_pitch(notes, all, out.len() + a, p) <==> (reported_hit(out2, a) && reported_pitch(ns, out2, a) == p)) by {
            assert(all[out.len() + a] == out2[a]);
            assert(out2[a].0 < ns.len());
            assert(ns[out2[a].0 as int].expected_pitch == notes[out2[a].0 as int].expected_pitch);
        }
        assert forall|a: int| 0 <= a < out.len() implies
            (hit_of_pitch(notes, all, a, p) <==> #[trigger] hit_of_pitch(notes, out, a, p)) by {
            assert(all[a] == out[a]);
        }
        assert forall|i: int| 0 <= i < ns2.len() implies (#[trigger] ns2[i]).expected_pitch == notes[i].expected_pitch
            && ns2[i].chord_pitches == notes[i].chord_pitches by {
            assert(ns2[i].expected_pitch == ns[i].expected_pitch);
        }
        assert forall|a: int| 0 <= a < all.len() implies (#[trigger] all[a]).0 < notes.len() by {
            if a >= out.len() {
                assert(all[a] == out2[a - out.len()]);
            } else {
                assert(all[a] == out[a]);
            }
        }
        assert forall|a: int, b: int| 0 <= a < b < all.len() && #[trigger] hit_of_pitch(notes, all, a, p)
            implies !#[trigger] hit_of_pitch(notes, all, b, p) by {
            if b < out.len() {
                assert(hit_of_pitch(notes, all, a, p) == hit_of_pitch(notes, out, a, p));
                assert(hit_of_pitch(notes, all, b, p) == hit_of_pitch(notes, out, b, p));
            } else if a < out.len() {
                assert(hit_of_pitch(notes, all, a, p) == hit_of_pitch(notes, out, a, p));
                assert(g.contains(p));
                let bb = b - out.len();
                assert(hit_of_pitch(notes, all, out.len() + bb, p) == (reported_hit(out2, bb) && reported_pitch(ns, out2, bb) == p));
                if reported_hit(out2, bb) {
                    assert(!rearmed.contains(reported_pitch(ns, out2, bb)));
                }
            } else {
                let aa = a - out.len();
                let bb = b - out.len();
                assert(hit_of_pitch(notes, all, out.len() + aa, p) == (reported_hit(out2, aa) && reported_pitch(ns, out2, aa) == p));
                assert(hit_of_pitch(notes, all, out.len() + bb, p) == (reported_hit(out2, bb) && reported_pitch(ns, out2, bb) == p));
            }
        }
        assert forall|a: int| 0 <= a < all.len() && gate.contains(p) implies !#[trigger] hit_of_pitch(notes, all, a, p) by {
            if a < out.len() {
                assert(!hit_of_pitch(notes, out, a, p));
            } else {
                let aa = a - out.len();
                assert(g.contains(p));
                assert(hit_of_pitch(notes, all, out.len() + aa, p) == (reported_hit(out2, aa) && reported_pitch(ns, out2, aa) == p));
                if reported_hit(out2, aa) {
                    assert(!rearmed.contains(reported_pitch(ns, out2, aa)));
                }
            }
        }
        if g2.contains(p) && !gate.contains(p) {
            if rearmed.contains(p) {
                assert(g.contains(p));
                let a = choose|a: int| 0 <= a < out.len() && #[trigger] hit_of_pitch(notes, out, a, p);
                assert(hit_of_pitch(notes, all, a, p));
            } else {
                let aa = choose|aa: int| 0 <= aa < out2.len() && #[trigger] reported_hit(out2, aa) && reported_pitch(ns, out2, aa) == p;
                assert(hit_of_pitch(notes, all, out.len() + aa, p) == (reported_hit(out2, aa) && reported_pitch(ns, out2, aa) == p));
                assert(hit_of_pitch(notes, all, out.len() + aa, p));
            }
        }
        if exists|a: int| 0 <= a < all.len() && #[trigger] hit_of_pitch(notes, all, a, p) {
            let a = choose|a: int| 0 <= a < all.len() && #[trigger] hit_of_pitch(notes, all, a, p);
            if a < out.len() {
                assert(hit_of_pitch(notes, out, a, p));
                assert(g.contains(p));
                assert(rearmed.contains(p));
            } else {
                let aa = a - out.len();
                assert(hit_of_pitch(notes, all, out.len() + aa, p) == (reported_hit(out2, aa) && reported_pitch(ns, out2, aa) == p));
                assert(reported_hit(out2, aa) && reported_pitch(ns, out2, aa) == p);
            }
            assert(g2.contains(p));
        }
        if gate.contains(p) {
            assert(g.contains(p));
            assert(rearmed.contains(p));
            assert(g2.contains(p));
        }
        assert(g2.contains(p) <==> (gate.contains(p) || exists|a: int| 0 <= a < all.len() && #[trigger] hit_of_pitch(notes, all, a, p)));
        assert(ns2.len() == notes.len());
        assert(forall|i: int| 0 <= i < ns2.len() ==> (#[trigger] ns2[i]).expected_pitch == notes[i].expected_pitch
            && ns2[i].chord_pitches == notes[i].chord_pitches);
        assert(forall|a: int| 0 <= a < all.len() ==> (#[trigger] all[a]).0 < notes.len());
        assert(forall|a: int, b: int| 0 <= a < b < all.len() && #[trigger] hit_of_pitch(notes, all, a, p)
            ==> !#[trigger] hit_of_pitch(notes, all, b, p));
        assert(gate.contains(p) ==> forall|a: int| 0 <= a < all.len() ==> !#[trigger] hit_of_pitch(notes, all, a, p));
        assert(held_pitch_facts(notes, gate, p, ns2, g2, all));
    } else {
        let out: Seq<(usize, NoteOutcome)> = Seq::empty();
        assert(!exists|a: int| 0 <= a < out.len() && #[trigger] hit_of_pitch(notes, out, a, p));
        assert(held_pitch_facts(notes, gate, p, notes, gate, out));
    }
}

/// Judges the pending notes in `order` (closest to the judged instant first),
/// `timing[k]` placing note `order[k]` against the windows, with `sounding`
/// the harp pitches heard now. Returns the notes that were hit or missed,
/// with their outcomes, in judging order.
pub fn judge_pending(
    notes: &mut Vec<NoteState>,
    order: &[usize],
    timing: &[TimingClass],
    sounding: &[u8],
    gate: &mut AttackGate,
) -> (r: Vec<(usize, NoteOutcome)>)
    requires
        timing@.len() == order@.len(),
        forall|k: int| 0 <= k < order@.len() ==> #[trigger] order@[k] < old(notes)@.len(),
    ensures
        final(notes)@ == judge_prefix(old(notes)@, old(gate)@, order@, timing@, sounding@, order@.len() as int).0,
        final(gate)@ == judge_prefix(old(notes)@, old(gate)@, order@, timing@, sounding@, order@.len() as int).1,
        r@ == judge_prefix(old(notes)@, old(gate)@, order@, timing@, sounding@, order@.len() as int).2,
{
    let ghost notes0 = notes@;
    let ghost gate0 = gate@;
    let mut out: Vec<(usize, NoteOutcome)> = Vec::new();
    let mut k: usize = 0;
    while k < order.len()
        invariant
            k <= order@.len(),
            timing@.len() == order@.len(),
            notes@.len() == notes0.len(),
            forall|j: int| 0 <= j < order@.len() ==> #[trigger] order@[j] < notes0.len(),
            notes@ == judge_prefix(notes0, gate0, order@, timing@, sounding@, k as int).0,
            gate@ == judge_prefix(notes0, gate0, order@, timing@, sounding@, k as int).1,
            out@ == judge_prefix(notes0, gate0, order@, timing@, sounding@, k as int).2,
        decreases order@.len() - k,
    {
        let i = order[k];
        assert(order@[k as int] < notes0.len());
        let ghost n = notes@[i as int];
        if !notes[i].hit && !notes[i].missed {
            let expected = notes[i].expected_pitch;
            let playing_now = match expected {
                Some(m) => gate.is_fresh(m, holds(sounding, m)) && (notes[i].chord_pitches.len() == 0
                    || chord_is_sounding(notes[i].chord_pitches.as_slice(), sounding)),
                None => false,
            };
            assert(playing_now == playing(n, gate@, sounding@));
            let outcome = classify_note(timing[k], playing_now);
            match outcome {
                NoteOutcome::Missed => {
                    notes[i].missed = true;
                    out.push((i, outcome));
                    assert(notes@ =~= judge_prefix(notes0, gate0, order@, timing@, sounding@, k + 1).0);
                },
                NoteOutcome::Hit(_) => {
                    notes[i].hit = true;
                    if let Some(m) = expected {
                        gate.consume(m);
                    }
                    out.push((i, outcome));
                    assert(notes@ =~= judge_prefix(notes0, gate0, order@, timing@, sounding@, k + 1).0);
                },
                _ => {},
            }
        }
        k = k + 1;
    }
    out
}

/// Notes `start..end` can be played again (a practice loop wrapped back over
/// them): each is neither hit, missed nor sustain-scored any more. Returns the
/// cursor, moved back to `start` if it was past it.
pub fn reset_loop_range(notes: &mut Vec<NoteState>, start: usize, end: usize, cursor: usize) -> (r: usize)
    requires
        start <= end <= old(notes)@.len(),
    ensures
        final(notes)@.len() == old(notes)@.len(),
        forall|i: int| 0 <= i < old(notes)@.len() ==> {
            let (a, b) = (#[trigger] final(notes)@[i], old(notes)@[i]);
            if start <= i < end {
                a == NoteState { hit: false, missed: false, sustain_scored: false, ..b }
            } else {
                a == b
            }
        },
        r == if cursor < start { cursor } else { start },
{
    let ghost notes0 = notes@;
    let mut i = start;
    while i < end
        invariant
            start <= i <= end,
            end <= notes0.len(),
            notes@.len() == notes0.len(),
            forall|j: int| 0 <= j < notes0.len() ==> {
                let (a, b) = (#[trigger] notes@[j], notes0[j]);
                if start <= j < i {
                    a == NoteState { hit: false, missed: false, sustain_scored: false, ..b }
                } else {
                    a == b
                }
            },
        decreases end - i,
    {
        notes[i].hit = false;
        notes[i].missed = false;
        notes[i].sustain_scored = false;
        i = i + 1;
    }
    if cursor < start { cursor } else { start }
}

} // verus!
