use harmonicon::gameplay::gameplay_2d::{play_mode_label, PlayMode};

#[test]
fn play_mode_label_badges_only_multi_note_modes() {
    assert_eq!(play_mode_label(Some(&PlayMode::Chord)), Some("chord"));
    assert_eq!(play_mode_label(Some(&PlayMode::Split)), Some("split"));
    assert_eq!(play_mode_label(Some(&PlayMode::Single)), None);
    assert_eq!(play_mode_label(None), None);
}
