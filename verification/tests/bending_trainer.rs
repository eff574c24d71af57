use harmonicon::gameplay::bending_trainer::{
    key_offset, next_key, prev_key, richter_harp, target_label_text, target_note, Technique,
    TrainerKey, TrainerTarget,
};
use harmonicon::harmonica::Harmonica;

#[test]
fn keys_cycle_both_ways() {
    assert_eq!(next_key("C"), "C#");
    assert_eq!(next_key("B"), "C");
    assert_eq!(prev_key("C"), "B");
}

#[test]
fn key_offsets_pick_the_real_harp_octave() {
    // C harp unchanged; D up two; A and G are the low harps (pitched down).
    assert_eq!(key_offset("C"), 0);
    assert_eq!(key_offset("D"), 2);
    assert_eq!(key_offset("F#"), 6);
    assert_eq!(key_offset("G"), -5);
    assert_eq!(key_offset("A"), -3);
}

#[test]
fn c_harp_keeps_the_reference_layout() {
    let Harmonica::Diatonic { layout: Some(l), .. } = richter_harp("C") else {
        panic!("expected diatonic");
    };
    assert_eq!(l.blow.unwrap()[0], "C4");
    assert_eq!(l.draw.unwrap()[0], "D4");
}

#[test]
fn d_harp_hole_1_blow_is_d4() {
    let Harmonica::Diatonic { layout: Some(l), .. } = richter_harp("D") else {
        panic!("expected diatonic");
    };
    assert_eq!(l.blow.unwrap()[0], "D4");
}

#[test]
fn g_harp_hole_1_blow_is_g3() {
    // The G harp is a low harp — hole-1 blow sits below C4.
    let Harmonica::Diatonic { layout: Some(l), .. } = richter_harp("G") else {
        panic!("expected diatonic");
    };
    assert_eq!(l.blow.unwrap()[0], "G3");
}

#[test]
fn technique_cycles_both_ways_through_all_six() {
    let start = Technique::Blow;
    let mut t = start;
    for _ in 0..6 {
        t = t.next();
    }
    assert_eq!(t, start, "six steps forward returns to the start");
    assert_eq!(start.next().prev(), start);
    assert_eq!(Technique::Blow.prev(), Technique::Over);
}

#[test]
fn target_note_reads_the_right_technique_off_the_harp() {
    let harp = richter_harp("C");
    // Hole 1: blow C4, draw D4, single ½-step bend C#4, overblow D#4.
    assert_eq!(
        target_note(&harp, TrainerTarget { hole: 1, technique: Technique::Blow }).as_deref(),
        Some("C4")
    );
    assert_eq!(
        target_note(&harp, TrainerTarget { hole: 1, technique: Technique::Bend1 }).as_deref(),
        Some("C#4")
    );
    // Hole 5 has no bend (blow E5, draw F5 are a semitone apart).
    assert_eq!(target_note(&harp, TrainerTarget { hole: 5, technique: Technique::Bend1 }), None);
}

#[test]
fn unknown_keys_count_as_c() {
    assert_eq!(next_key("H"), "C#");
    assert_eq!(key_offset("H"), 0);
    assert_eq!(TrainerKey::default().0, "C");
}

#[test]
fn trainer_defaults_and_labels() {
    let t = TrainerTarget::default();
    assert_eq!((t.hole, t.technique), (2, Technique::Bend1));
    assert_eq!(target_label_text(2, Technique::Bend1), "Target: Hole 2  \u{00B7}  \u{00BD}-step bend");
    assert_eq!(Technique::Over.label(), "Overblow/draw");
    assert_eq!(Technique::Bend3.label(), "1\u{00BD}-step bend");
}

#[test]
fn b_harp_is_a_low_harp() {
    let Harmonica::Diatonic { layout: Some(l), .. } = richter_harp("B") else {
        panic!("expected diatonic");
    };
    assert_eq!(l.blow.unwrap(), vec!["B3", "D#4", "F#4", "B4", "D#5", "F#5", "B5", "D#6", "F#6", "B6"]);
}
