use harmonicon::gameplay::judging::{
    advance_cursor, first_due_unresolved_note, judge_pending, reset_loop_range, NoteState,
};
use harmonicon::gameplay::scoring::{classify_note, HitQuality, NoteOutcome, TimingClass};
use harmonicon::scoring::{chord_is_sounding, is_clean_attack, AttackGate};

fn c4() -> NoteState {
    NoteState::new(Some(60), Vec::new())
}

fn chord_note(pitch: u8) -> NoteState {
    NoteState::new(Some(pitch), vec![60, 64])
}

#[test]
fn outcome_follows_the_window_and_the_attack() {
    let good = TimingClass::InWindow(HitQuality::Good);
    assert_eq!(classify_note(TimingClass::PastMissWindow, true), NoteOutcome::Missed);
    assert_eq!(classify_note(TimingClass::Early, true), NoteOutcome::TooEarly);
    assert_eq!(classify_note(TimingClass::Gap, true), NoteOutcome::Gap);
    assert_eq!(classify_note(good, false), NoteOutcome::Waiting);
    assert_eq!(classify_note(good, true), NoteOutcome::Hit(HitQuality::Good));
}

#[test]
fn score_notes_credits_the_closest_offset_when_two_same_pitch_notes_overlap() {
    // Notes at 0.40 s and 0.49 s, judged at 0.5 s: the second is closer, so
    // it comes first and takes the attack.
    let mut notes = vec![c4(), c4()];
    let mut gate = AttackGate::new();
    let order = [1, 0];
    let timing = [TimingClass::InWindow(HitQuality::Perfect), TimingClass::InWindow(HitQuality::Good)];
    let judged = judge_pending(&mut notes, &order, &timing, &[60], &mut gate);
    assert_eq!(judged, vec![(1, NoteOutcome::Hit(HitQuality::Perfect))]);
    assert!(notes[1].hit, "the note actually due should be credited");
    assert!(!notes[0].hit, "the farther note must not steal the attack meant for the closer one");
}

#[test]
fn score_notes_leaves_a_far_future_note_untouched() {
    let mut notes = vec![c4()];
    let mut gate = AttackGate::new();
    let judged = judge_pending(&mut notes, &[0], &[TimingClass::Early], &[], &mut gate);
    assert!(judged.is_empty());
    assert!(!notes[0].hit);
    assert!(!notes[0].missed);
}

#[test]
fn a_note_past_the_deadline_is_missed() {
    let mut notes = vec![c4()];
    let mut gate = AttackGate::new();
    let judged = judge_pending(&mut notes, &[0], &[TimingClass::PastMissWindow], &[60], &mut gate);
    assert_eq!(judged, vec![(0, NoteOutcome::Missed)]);
    assert!(notes[0].missed && !notes[0].hit);
}

#[test]
fn a_held_pitch_scores_only_one_note_until_released() {
    let window = TimingClass::InWindow(HitQuality::Perfect);
    let mut notes = vec![c4(), c4()];
    let mut gate = AttackGate::new();
    assert_eq!(judge_pending(&mut notes, &[0], &[window], &[60], &mut gate).len(), 1);
    // Next frame, still holding C4: the second C4 note waits.
    gate.release_absent(&[60]);
    assert!(judge_pending(&mut notes, &[1], &[window], &[60], &mut gate).is_empty());
    assert!(!notes[1].hit);
    // The player stops, then attacks again.
    gate.release_absent(&[]);
    assert!(gate.is_fresh(60, true));
    assert_eq!(judge_pending(&mut notes, &[1], &[window], &[60], &mut gate).len(), 1);
    assert!(notes[1].hit);
}

#[test]
fn score_notes_hits_both_chord_notes_when_both_pitches_sound_together() {
    let window = TimingClass::InWindow(HitQuality::Perfect);
    let mut notes = vec![chord_note(60), chord_note(64)];
    let mut gate = AttackGate::new();
    let judged = judge_pending(&mut notes, &[0, 1], &[window, window], &[60, 64], &mut gate);
    assert_eq!(judged.len(), 2);
    assert!(notes[0].hit && notes[1].hit);
}

#[test]
fn a_chord_note_waits_for_its_whole_chord() {
    let window = TimingClass::InWindow(HitQuality::Perfect);
    let mut notes = vec![chord_note(60), chord_note(64)];
    let mut gate = AttackGate::new();
    let judged = judge_pending(&mut notes, &[0, 1], &[window, window], &[60], &mut gate);
    assert!(judged.is_empty());
    assert!(!notes[0].hit && !notes[1].hit);
    assert!(chord_is_sounding(&[60, 64], &[64, 60, 67]));
    assert!(!chord_is_sounding(&[60, 64], &[60]));
}

#[test]
fn an_unplayable_note_is_never_hit() {
    let mut notes = vec![NoteState::new(None, Vec::new())];
    let mut gate = AttackGate::new();
    let window = TimingClass::InWindow(HitQuality::Perfect);
    assert!(judge_pending(&mut notes, &[0], &[window], &[60], &mut gate).is_empty());
}

#[test]
fn score_notes_counts_a_solo_pitch_as_a_clean_attack() {
    assert!(is_clean_attack(&[60], 60));
}

#[test]
fn score_notes_counts_a_breathy_leak_as_a_hit_but_not_a_clean_attack() {
    let mut notes = vec![c4()];
    let mut gate = AttackGate::new();
    let window = TimingClass::InWindow(HitQuality::Perfect);
    assert_eq!(judge_pending(&mut notes, &[0], &[window], &[60, 64], &mut gate).len(), 1);
    assert!(notes[0].hit);
    assert!(!is_clean_attack(&[60, 64], 60));
}

#[test]
fn the_cursor_skips_notes_done_for_good() {
    let mut notes = vec![c4(), c4(), c4(), c4()];
    notes[0].missed = true;
    notes[1].hit = true;
    notes[1].sustain_scored = true;
    notes[2].hit = true; // still sustaining
    assert_eq!(advance_cursor(&notes, 0), 2);
    assert_eq!(advance_cursor(&notes, 3), 3);
    assert_eq!(advance_cursor(&notes, 9), 9);
    notes[2].sustain_scored = true;
    notes[3].missed = true;
    assert_eq!(advance_cursor(&notes, 0), 4);
}

#[test]
fn first_due_unresolved_note_is_none_until_the_clock_reaches_it() {
    let notes = [c4()];
    assert_eq!(first_due_unresolved_note(&notes, &[false], 0), None);
    assert_eq!(first_due_unresolved_note(&notes, &[true], 0), Some(0));
}

#[test]
fn first_due_unresolved_note_ignores_already_hit_or_missed_notes() {
    let mut hit = c4();
    hit.hit = true;
    let mut missed = c4();
    missed.missed = true;
    assert_eq!(first_due_unresolved_note(&[hit], &[true], 0), None);
    assert_eq!(first_due_unresolved_note(&[missed], &[true], 0), None);
}

#[test]
fn first_due_unresolved_note_ignores_unplayable_notes() {
    let unplayable = NoteState::new(None, Vec::new());
    assert_eq!(first_due_unresolved_note(&[unplayable], &[true], 0), None);
}

#[test]
fn first_due_unresolved_note_stops_scanning_once_a_note_is_not_due_yet() {
    let mut resolved = c4();
    resolved.hit = true;
    let notes = [resolved, c4()];
    assert_eq!(first_due_unresolved_note(&notes, &[true, false], 0), None);
}

#[test]
fn first_due_unresolved_note_returns_the_matching_index_after_the_cursor() {
    let mut resolved = c4();
    resolved.hit = true;
    let notes = [resolved, c4()];
    assert_eq!(first_due_unresolved_note(&notes, &[true, true], 0), Some(1));
    assert_eq!(first_due_unresolved_note(&notes, &[true, true], 2), None);
}

#[test]
fn loop_wrap_resets_notes_in_range() {
    let mut notes = vec![c4(), c4(), c4()];
    for n in notes.iter_mut() {
        n.hit = true;
        n.sustain_scored = true;
    }
    notes[2].missed = true;
    let cursor = reset_loop_range(&mut notes, 1, 3, 3);
    assert_eq!(cursor, 1);
    assert!(notes[0].hit && notes[0].sustain_scored);
    assert!(!notes[1].hit && !notes[1].sustain_scored && !notes[1].missed);
    assert!(!notes[2].hit && !notes[2].missed);
    assert_eq!(reset_loop_range(&mut notes, 2, 3, 0), 0);
}
