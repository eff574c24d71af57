use harmonicon::gameplay::metronome_overlay::{click_for_tick, is_downbeat, toggle_feel, Click, MetronomeFeel};

#[test]
fn downbeat_every_four_beats_in_common_time() {
    assert!(is_downbeat(0, 4));
    assert!(!is_downbeat(1, 4));
    assert!(!is_downbeat(3, 4));
    assert!(is_downbeat(4, 4));
    assert!(is_downbeat(8, 4));
}

#[test]
fn downbeat_every_three_beats_in_waltz_time() {
    assert!(is_downbeat(0, 3));
    assert!(is_downbeat(3, 3));
    assert!(!is_downbeat(4, 3));
}

#[test]
fn degenerate_bar_treats_every_beat_as_downbeat() {
    // A bar of less than one beat counts as one beat.
    assert!(is_downbeat(0, 1));
    assert!(is_downbeat(7, 1));
}

#[test]
fn downbeats_before_zero_follow_the_same_bars() {
    assert!(is_downbeat(-4, 4));
    assert!(!is_downbeat(-1, 4));
    assert!(!is_downbeat(-3, 4));
}

#[test]
fn straight_feel_clicks_every_beat_accenting_downbeats() {
    assert_eq!(click_for_tick(0, 4, MetronomeFeel::Straight), Some(Click::Beat { accent: true }));
    assert_eq!(click_for_tick(1, 4, MetronomeFeel::Straight), Some(Click::Beat { accent: false }));
    assert_eq!(click_for_tick(4, 4, MetronomeFeel::Straight), Some(Click::Beat { accent: true }));
}

#[test]
fn shuffle_feel_clicks_the_beat_and_the_swung_and() {
    // Three triplet ticks per beat: beat, silent, swung "and".
    assert_eq!(click_for_tick(0, 4, MetronomeFeel::Shuffle), Some(Click::Beat { accent: true }));
    assert_eq!(click_for_tick(1, 4, MetronomeFeel::Shuffle), None);
    assert_eq!(click_for_tick(2, 4, MetronomeFeel::Shuffle), Some(Click::SwungAnd));
    assert_eq!(click_for_tick(3, 4, MetronomeFeel::Shuffle), Some(Click::Beat { accent: false }));
    assert_eq!(click_for_tick(12, 4, MetronomeFeel::Shuffle), Some(Click::Beat { accent: true }));
    assert_eq!(click_for_tick(-1, 4, MetronomeFeel::Shuffle), Some(Click::SwungAnd));
}

#[test]
fn feel_defaults_to_shuffle_and_toggles() {
    assert_eq!(MetronomeFeel::default(), MetronomeFeel::Shuffle);
    assert_eq!(toggle_feel(MetronomeFeel::Shuffle), MetronomeFeel::Straight);
    assert_eq!(toggle_feel(MetronomeFeel::Straight), MetronomeFeel::Shuffle);
}
