use harmonicon::gameplay::pause_menu::{
    adaptive_difficulty_label_text, apply_quit, apply_restart, apply_resume, next_phrase_index,
    prev_phrase_index, toggle_pause, NextScreen, Paused, ReturnToSongList,
};

#[test]
fn escape_pauses_then_resumes() {
    let mut paused = Paused(false);
    // First Escape: pause.
    assert!(toggle_pause(&mut paused));
    assert!(paused.0, "Escape should pause");
    // Second Escape: resume.
    assert!(!toggle_pause(&mut paused));
    assert!(!paused.0, "Escape again should resume");
}

#[test]
fn resume_button_unpauses_without_changing_state() {
    let mut paused = Paused(true);
    apply_resume(&mut paused);
    assert!(!paused.0);
}

#[test]
fn restart_button_reloads_the_song() {
    let mut paused = Paused(true);
    let next = apply_restart(&mut paused);
    assert!(!paused.0);
    assert_eq!(next, NextScreen::SongLoading);
}

#[test]
fn quit_song_returns_to_the_song_list() {
    let mut paused = Paused(true);
    let mut rtsl = ReturnToSongList(false);
    let next = apply_quit(&mut paused, &mut rtsl);
    assert!(!paused.0);
    assert_eq!(next, NextScreen::Menu);
    assert!(rtsl.0, "should land on the song list");
}

#[test]
fn next_phrase_index_wraps_around() {
    assert_eq!(next_phrase_index(0, 3), 1);
    assert_eq!(next_phrase_index(2, 3), 0);
}

#[test]
fn prev_phrase_index_wraps_around() {
    assert_eq!(prev_phrase_index(0, 3), 2);
    assert_eq!(prev_phrase_index(1, 3), 0);
}

#[test]
fn phrase_index_stepping_is_a_no_op_with_no_sections() {
    assert_eq!(next_phrase_index(0, 0), 0);
    assert_eq!(prev_phrase_index(0, 0), 0);
}

#[test]
fn phrase_index_steps_undo_each_other() {
    for count in 1..6usize {
        for i in 0..count {
            assert_eq!(prev_phrase_index(next_phrase_index(i, count), count), i);
            assert_eq!(next_phrase_index(prev_phrase_index(i, count), count), i);
        }
    }
}

#[test]
fn adaptive_difficulty_label_reflects_state() {
    assert_eq!(adaptive_difficulty_label_text(true), "Adaptive Difficulty: on");
    assert_eq!(adaptive_difficulty_label_text(false), "Adaptive Difficulty: off");
}
