use harmonicon::gameplay::jam_session::{
    classify_note_fit, in_rest_window, should_restart_jam_music, ImprovStats, NoteFit, PHRASE_PLAY_BARS,
    PHRASE_REST_BARS,
};
use harmonicon::gameplay::phrase_overlay::{format_phrase_label, latest_phrase_groove};

fn classes(v: &[&str]) -> Vec<String> {
    v.iter().map(|s| s.to_string()).collect()
}

#[test]
fn note_fit_prefers_chord_tones() {
    let chord = classes(&["C", "E", "G", "A#"]);
    let scale = classes(&["C", "D#", "F", "F#", "G", "A#"]);
    assert_eq!(classify_note_fit("E", &chord, &scale), NoteFit::ChordTone);
    assert_eq!(classify_note_fit("F#", &chord, &scale), NoteFit::InScale);
    assert_eq!(classify_note_fit("B", &chord, &scale), NoteFit::OutOfScale);
}

#[test]
fn improv_stats_tally_attacks() {
    let mut s = ImprovStats::default();
    s.record_attack(NoteFit::ChordTone, false);
    s.record_attack(NoteFit::InScale, true);
    s.record_attack(NoteFit::OutOfScale, true);
    s.record_attack(NoteFit::ChordTone, false);
    assert_eq!(s, ImprovStats { chord_tone: 2, in_scale: 1, out_of_scale: 1, rest_violations: 2 });
    assert_eq!(s.total(), 4);
}

#[test]
fn rest_windows_follow_the_play_rest_pattern() {
    let pattern: Vec<bool> = (0..8).map(|b| in_rest_window(b, PHRASE_PLAY_BARS, PHRASE_REST_BARS)).collect();
    assert_eq!(pattern, [false, false, true, true, false, false, true, true]);
    assert!(!in_rest_window(5, 0, 0));
    assert!(in_rest_window(3, 0, 1));
}

#[test]
fn jam_music_restarts_only_when_looping_and_finished() {
    assert!(should_restart_jam_music(true, true, false));
    assert!(!should_restart_jam_music(false, true, false));
    assert!(!should_restart_jam_music(true, false, false));
    assert!(!should_restart_jam_music(true, true, true));
}

#[test]
fn label_combines_phrase_and_groove() {
    assert_eq!(format_phrase_label(Some("boom_shuffle"), Some("shuffle")), "\u{266A} boom shuffle  \u{00B7}  shuffle");
}

#[test]
fn label_phrase_only() {
    assert_eq!(format_phrase_label(Some("call_high"), None), "\u{266A} call high");
}

#[test]
fn label_groove_only() {
    assert_eq!(format_phrase_label(None, Some("shuffle")), "\u{266A} shuffle");
}

#[test]
fn label_empty_when_nothing_active() {
    assert_eq!(format_phrase_label(None, None), "");
}

/// The `(phrase, groove)` tags of a short chart, in track order; the items
/// start at 0 s, 1 s, 2 s and 3 s.
fn tags() -> Vec<(Option<&'static str>, Option<&'static str>)> {
    vec![
        (Some("intro"), Some("shuffle")),
        (None, Some("shuffle")),
        (Some("turnaround"), Some("straight")),
        (None, None),
    ]
}

#[test]
fn nothing_started_is_empty() {
    assert_eq!(latest_phrase_groove(&[]), (None, None));
}

#[test]
fn before_first_item_is_empty() {
    // At the first item's start, only it has started.
    assert_eq!(latest_phrase_groove(&tags()[..1]), (Some("intro"), Some("shuffle")));
}

#[test]
fn phrase_persists_when_later_item_omits_it() {
    // At 1.5 s the active item (1 s) has no phrase; keep "intro".
    assert_eq!(latest_phrase_groove(&tags()[..2]), (Some("intro"), Some("shuffle")));
}

#[test]
fn phrase_and_groove_update_to_latest() {
    assert_eq!(latest_phrase_groove(&tags()[..3]), (Some("turnaround"), Some("straight")));
}

#[test]
fn groove_persists_when_later_item_omits_it() {
    // The item at 3 s has neither; both stick to the last known values.
    assert_eq!(latest_phrase_groove(&tags()), (Some("turnaround"), Some("straight")));
}
