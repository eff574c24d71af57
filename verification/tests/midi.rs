use harmonicon::audio_system::midi::{midi_to_note, note_to_midi};
use harmonicon::audio_system::midi_functions;

#[test]
fn naturals() {
    assert_eq!(note_to_midi("C4"), Some(60));
    assert_eq!(note_to_midi("A4"), Some(69));
    assert_eq!(note_to_midi("B4"), Some(71));
    assert_eq!(note_to_midi("C0"), Some(12));
}

#[test]
fn sharps() {
    assert_eq!(note_to_midi("C#4"), Some(61));
    assert_eq!(note_to_midi("F#4"), Some(66));
    assert_eq!(note_to_midi("A#4"), Some(70));
}

#[test]
fn flats_normalised_to_enharmonic_sharps() {
    assert_eq!(note_to_midi("Bb3"), Some(58)); // A#3
    assert_eq!(note_to_midi("Db5"), Some(73)); // C#5
    assert_eq!(note_to_midi("Eb4"), Some(63)); // D#4
    assert_eq!(note_to_midi("Gb4"), Some(66)); // F#4
}

#[test]
fn invalid_note_names_return_none() {
    assert_eq!(note_to_midi("X4"), None);
    assert_eq!(note_to_midi("C"), None); // no octave
}

#[test]
fn known_midi_values() {
    assert_eq!(midi_to_note(60), "C4");
    assert_eq!(midi_to_note(69), "A4");
    assert_eq!(midi_to_note(61), "C#4");
    assert_eq!(midi_to_note(21), "A0");
}

#[test]
fn roundtrip_all_midi_values() {
    // midi_to_note only produces sharps, so every value round-trips cleanly.
    for midi in 0i32..=127 {
        let name = midi_to_note(midi);
        assert_eq!(note_to_midi(&name), Some(midi), "roundtrip failed for midi={midi}");
    }
}

#[test]
fn negative_octaves_and_signs() {
    assert_eq!(note_to_midi("C-1"), Some(0));
    assert_eq!(midi_to_note(0), "C-1");
    assert_eq!(midi_to_note(-1), "B-1");
    assert_eq!(note_to_midi("C+4"), Some(60));
    assert_eq!(note_to_midi("C4x"), None);
    assert_eq!(note_to_midi(""), None);
}

#[test]
fn layout_reader_matches_on_plain_names() {
    assert_eq!(midi_functions::note_to_midi("G4"), Some(67));
    assert_eq!(midi_functions::note_to_midi("Bb3"), Some(58));
    assert_eq!(midi_functions::note_to_midi("H4"), None);
    assert_eq!(midi_functions::midi_to_note(72), "C5");
    assert_eq!(midi_functions::midi_to_note(-13), "B-2");
}

#[test]
fn a_flat_is_a_semitone_below_its_natural() {
    assert_eq!(note_to_midi("Cb4"), Some(59)); // B3
    assert_eq!(note_to_midi("Fb4"), Some(64)); // E4
    for p in ["C", "D", "E", "F", "G", "A", "B"] {
        for o in -1..=9 {
            let flat = note_to_midi(&format!("{p}b{o}"));
            let natural = note_to_midi(&format!("{p}{o}")).map(|m| m - 1);
            assert_eq!(flat, natural, "{p}b{o}");
        }
    }
}

#[test]
fn the_layout_reader_reads_cb_as_the_b_below() {
    assert_eq!(harmonicon::audio_system::midi_functions::note_to_midi("Cb4"), Some(59));
    assert_eq!(harmonicon::audio_system::midi_functions::note_to_midi("Bb3"), Some(58));
}
