use harmonicon::harmonica::{
    blow_label, build_valid_notes, draw_label, harp_display, semitone, twelve_bar, BendingProfile,
    ChromaticLayout, DiatonicLayout, Harmonica, HarpChart,
};

fn names(v: &[&str]) -> Vec<String> {
    v.iter().map(|s| s.to_string()).collect()
}

fn test_chart() -> HarpChart {
    HarpChart {
        harmonica: Harmonica::Diatonic {
            holes: 10,
            bending_profile: BendingProfile::RichterStandard,
            position: None,
            layout: Some(DiatonicLayout {
                blow: Some(names(&["C4", "E4", "G4", "C5", "E5", "G5", "C6", "E6", "G6", "C7"])),
                draw: Some(names(&["D4", "G4", "B4", "D5", "F5", "A5", "B5", "D6", "F6", "A6"])),
            }),
        },
    }
}

fn has(notes: &[String], n: &str) -> bool {
    notes.iter().any(|x| x == n)
}

#[test]
fn semitone_identity() {
    assert_eq!(semitone("C", 0), "C");
    assert_eq!(semitone("G", 0), "G");
}

#[test]
fn semitone_intervals() {
    assert_eq!(semitone("C", 7), "G"); // perfect fifth
    assert_eq!(semitone("C", 5), "F"); // perfect fourth
    assert_eq!(semitone("C", 4), "E"); // major third
    assert_eq!(semitone("G", 5), "C"); // fourth up from G
    assert_eq!(semitone("A", 3), "C"); // minor third up
}

#[test]
fn semitone_wraps_at_octave() {
    assert_eq!(semitone("B", 1), "C");
    assert_eq!(semitone("C", 12), "C");
    assert_eq!(semitone("A", 14), "B");
}

#[test]
fn twelve_bar_c_major() {
    let bar = twelve_bar("C");
    // Pattern: I I I I  IV IV I I  V IV I V
    let expected = ["C", "C", "C", "C", "F", "F", "C", "C", "G", "F", "C", "G"];
    assert_eq!(bar, expected.map(str::to_string));
}

#[test]
fn twelve_bar_g_major() {
    let bar = twelve_bar("G");
    // IV of G = C,  V of G = D
    let expected = ["G", "G", "G", "G", "C", "C", "G", "G", "D", "C", "G", "D"];
    assert_eq!(bar, expected.map(str::to_string));
}

#[test]
fn blow_label_returns_correct_note() {
    let chart = test_chart();
    assert_eq!(blow_label(1, &chart), "C4");
    assert_eq!(blow_label(4, &chart), "C5");
    assert_eq!(blow_label(10, &chart), "C7");
}

#[test]
fn blow_label_out_of_range_returns_dash() {
    let chart = test_chart();
    assert_eq!(blow_label(0, &chart), "\u{2014}"); // hole=0 guard
    assert_eq!(blow_label(11, &chart), "\u{2014}"); // beyond layout
}

#[test]
fn draw_label_returns_correct_note() {
    let chart = test_chart();
    assert_eq!(draw_label(1, &chart), "D4");
    assert_eq!(draw_label(3, &chart), "B4");
    assert_eq!(draw_label(0, &chart), "\u{2014}");
}

#[test]
fn build_valid_notes_contains_blow_and_draw() {
    let chart = test_chart();
    let notes = build_valid_notes(&chart);
    for n in &["C4", "E4", "G4", "C5", "E5", "G5", "C6", "E6", "G6", "C7"] {
        assert!(has(&notes, n), "missing blow note {n}");
    }
    for n in &["D4", "G4", "B4", "D5", "F5", "A5", "B5", "D6", "F6", "A6"] {
        assert!(has(&notes, n), "missing draw note {n}");
    }
}

#[test]
fn build_valid_notes_includes_bend_pitches() {
    let chart = test_chart();
    let notes = build_valid_notes(&chart);
    // Hole 1: draw=D4(62) bends down to blow=C4(60) → C#4(61) reachable
    assert!(has(&notes, "C#4"), "missing bend note C#4");
    // Hole 2: draw=G4(67) bends down to blow=E4(64) → F4(65), F#4(66) reachable
    assert!(has(&notes, "F4"), "missing bend note F4");
    assert!(has(&notes, "F#4"), "missing bend note F#4");
}

#[test]
fn build_valid_notes_excludes_unrelated_notes() {
    let chart = test_chart();
    let notes = build_valid_notes(&chart);
    assert!(!has(&notes, "D#0"));
    assert!(!has(&notes, "C8"));
}

#[test]
fn build_valid_notes_lists_each_note_once() {
    let notes = build_valid_notes(&test_chart());
    for (i, a) in notes.iter().enumerate() {
        for b in &notes[i + 1..] {
            assert_ne!(a, b);
        }
    }
    // G4 is both hole 2 draw and hole 3 blow, yet appears once.
    assert_eq!(notes.iter().filter(|n| n.as_str() == "G4").count(), 1);
}

#[test]
fn chromatic_harp_lists_every_layout_note() {
    let chart = HarpChart {
        harmonica: Harmonica::Chromatic {
            holes: 2,
            position: Some("3rd".to_string()),
            layout: Some(ChromaticLayout {
                blow: Some(names(&["C4", "E4"])),
                draw: Some(names(&["D4"])),
                blow_slide: Some(names(&["C#4"])),
                draw_slide: None,
            }),
        },
    };
    let notes = build_valid_notes(&chart);
    assert_eq!(notes.len(), 4);
    assert!(has(&notes, "C#4"));
    assert!(!has(&notes, "D#4"));
}

#[test]
fn harp_display_describes_the_harp() {
    assert_eq!(
        harp_display(&test_chart()),
        "Diatonic \u{00B7} 10 holes \u{00B7} ? position \u{00B7} Richter"
    );
    let chromatic = HarpChart {
        harmonica: Harmonica::Chromatic { holes: 12, position: Some("3rd".to_string()), layout: None },
    };
    assert_eq!(harp_display(&chromatic), "Chromatic \u{00B7} 12 holes \u{00B7} 3rd position");
}
