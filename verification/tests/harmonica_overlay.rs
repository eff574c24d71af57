use harmonicon::gameplay::harmonica_overlay::{
    hole_notes, midi_to_note, note_class, note_for, note_to_midi, transpose, valid_note, Row,
};
use harmonicon::harmonica::{BendingProfile, DiatonicLayout, Harmonica};

fn names(v: &[&str]) -> Vec<String> {
    v.iter().map(|s| s.to_string()).collect()
}

fn c_harp() -> Harmonica {
    Harmonica::Diatonic {
        holes: 10,
        bending_profile: BendingProfile::RichterStandard,
        position: None,
        layout: Some(DiatonicLayout {
            blow: Some(names(&["C4", "E4", "G4", "C5", "E5", "G5", "C6", "E6", "G6", "C7"])),
            draw: Some(names(&["D4", "G4", "B4", "D5", "F5", "A5", "B5", "D6", "F6", "A6"])),
        }),
    }
}

#[test]
fn transpose_crosses_octave() {
    assert_eq!(transpose("B4", 1).as_deref(), Some("C5"));
    assert_eq!(transpose("C5", -1).as_deref(), Some("B4"));
    assert_eq!(transpose("D4", -1).as_deref(), Some("C#4"));
}

#[test]
fn hole_1_has_one_draw_bend() {
    // C harp hole 1: blow C4, draw D4 → single ½-step bend C#4.
    let h = hole_notes(&c_harp(), 1);
    assert_eq!(h.blow.as_deref(), Some("C4"));
    assert_eq!(h.draw.as_deref(), Some("D4"));
    assert_eq!(h.bends, vec!["C#4"]);
}

#[test]
fn hole_3_has_three_draw_bends() {
    // blow G4, draw B4 → A#4, A4, G#4 (½, whole, 1½).
    let h = hole_notes(&c_harp(), 3);
    assert_eq!(h.bends, vec!["A#4", "A4", "G#4"]);
}

#[test]
fn hole_10_has_two_blow_bends() {
    // blow C7, draw A6 → blow bends B6, A#6.
    let h = hole_notes(&c_harp(), 10);
    assert_eq!(h.bends, vec!["B6", "A#6"]);
    assert_eq!(h.over.as_deref(), Some("C#7"), "overdraw a semitone above blow");
}

#[test]
fn hole_5_has_no_draw_bend() {
    // blow E5, draw F5 — only a semitone apart, nothing between.
    let h = hole_notes(&c_harp(), 5);
    assert!(h.bends.is_empty());
}

#[test]
fn hole_1_overblow_is_a_semitone_above_draw() {
    assert_eq!(hole_notes(&c_harp(), 1).over.as_deref(), Some("D#4"));
}

#[test]
fn holes_off_the_layout_have_no_notes() {
    let h = hole_notes(&c_harp(), 11);
    assert_eq!((h.blow, h.draw, h.over), (None, None, None));
    assert!(h.bends.is_empty());
    // Holes 2 and 3 have neither overblow nor overdraw.
    assert_eq!(hole_notes(&c_harp(), 2).over, None);
}

#[test]
fn note_math_reads_and_writes_labels() {
    assert_eq!(note_to_midi("C4"), Some(60));
    assert_eq!(note_to_midi("A#0"), Some(22));
    assert_eq!(note_to_midi("Bb3"), None, "only sharp spellings are note labels here");
    assert_eq!(note_to_midi("\u{2014}"), None);
    assert_eq!(note_to_midi("C4x"), None);
    assert_eq!(midi_to_note(60), "C4");
    assert_eq!(midi_to_note(-1), "B-2");
    assert_eq!(note_class("D#5"), "D#");
    assert_eq!(note_class("C"), "C");
    assert_eq!(note_class("12"), "");
    assert_eq!(valid_note("E5".to_string()).as_deref(), Some("E5"));
    assert_eq!(valid_note("\u{2014}".to_string()), None);
}

#[test]
fn note_for_reads_each_row() {
    let h = hole_notes(&c_harp(), 3);
    assert_eq!(note_for(&h, Row::Blow), Some("G4"));
    assert_eq!(note_for(&h, Row::Draw), Some("B4"));
    assert_eq!(note_for(&h, Row::Over), None);
    assert_eq!(note_for(&h, Row::Bend(1)), Some("A4"));
    assert_eq!(note_for(&h, Row::Bend(3)), None);
}

#[test]
fn labels_round_trip_from_c0_up() {
    for m in 12..=127 {
        assert_eq!(note_to_midi(&midi_to_note(m)), Some(m), "roundtrip failed for {m}");
    }
    // Below C0 the octave is negative and the label no longer reads back.
    assert_eq!(note_to_midi(&midi_to_note(11)), None);
}
