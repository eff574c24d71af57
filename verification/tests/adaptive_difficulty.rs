use harmonicon::gameplay::adaptive_difficulty::{
    cleared_sections, item_note_counts, phrase_section_spans, unlocked_flags,
};

#[test]
fn a_section_is_cleared_only_when_every_played_note_is_hit() {
    // (section, hit cleanly)
    let notes = [(0, true), (0, true), (1, true), (1, false), (3, true), (9, true)];
    assert_eq!(cleared_sections(&notes, 4), vec![true, false, false, true]);
}

#[test]
fn unplayed_sections_are_not_cleared() {
    assert_eq!(cleared_sections(&[], 2), vec![false, false]);
    assert!(cleared_sections(&[(0, true)], 0).is_empty());
}

#[test]
fn empty_items_yields_no_sections() {
    assert!(phrase_section_spans(&[]).is_empty());
}

#[test]
fn no_phrase_tags_is_one_implicit_section() {
    let items = [(None, 2usize), (None, 3)];
    let sections = phrase_section_spans(&items);
    assert_eq!(sections.len(), 1);
    assert_eq!(sections[0].name, "Full Song");
    assert_eq!(sections[0].first_item, 0);
    assert_eq!(sections[0].note_count, 5);
}

#[test]
fn phrase_tags_split_into_sections() {
    let items = [(Some("intro"), 2usize), (None, 1), (Some("turnaround"), 3)];
    let sections = phrase_section_spans(&items);
    assert_eq!(sections.len(), 2);
    assert_eq!(sections[0].name, "intro");
    assert_eq!(sections[0].first_item, 0);
    assert_eq!(sections[0].note_count, 3);
    assert_eq!(sections[1].name, "turnaround");
    assert_eq!(sections[1].first_item, 2);
    assert_eq!(sections[1].note_count, 3);
}

#[test]
fn an_untagged_opening_run_is_its_own_section() {
    let items = [(None, 1usize), (Some("verse"), 2), (None, 2)];
    let sections = phrase_section_spans(&items);
    assert_eq!(sections.len(), 2);
    assert_eq!(sections[0].name, "Full Song");
    assert_eq!(sections[0].note_count, 1);
    assert_eq!(sections[1].name, "verse");
    assert_eq!(sections[1].note_count, 4);
}

#[test]
fn item_note_counts_name_each_items_section_and_its_count() {
    let items = [(Some("intro"), 2usize), (None, 1), (Some("turnaround"), 3)];
    assert_eq!(item_note_counts(&items, &[3, 3]), vec![(0, 3), (0, 3), (1, 3)]);
    // Where the section list is short, an item's own count governs it.
    assert_eq!(item_note_counts(&items, &[3]), vec![(0, 3), (0, 3), (1, 3)]);
    assert_eq!(item_note_counts(&items, &[]), vec![(0, 2), (0, 1), (1, 3)]);
}

#[test]
fn disabled_unlocks_everything_regardless_of_learned() {
    let items = [(Some("intro"), 4usize)];
    let flags = unlocked_flags(&items, &[4], &[1], false);
    assert_eq!(flags.len(), 4);
    assert!(flags.iter().all(|&(unlocked, _)| unlocked));
}

#[test]
fn unlearned_section_unlocks_only_a_prefix() {
    // An unlearned section of ten notes unlocks ceil(0.1 * 10) = 1 of them.
    let items = [(Some("intro"), 10usize)];
    let flags = unlocked_flags(&items, &[10], &[1], true);
    let unlocked_count = flags.iter().filter(|&&(u, _)| u).count();
    assert_eq!(unlocked_count, 1);
    assert!(flags[0].0);
    assert!(!flags[9].0);
}

#[test]
fn fully_learned_section_unlocks_everything() {
    let items = [(Some("intro"), 10usize)];
    let flags = unlocked_flags(&items, &[10], &[10], true);
    assert!(flags.iter().all(|&(u, _)| u));
}

#[test]
fn each_note_is_tagged_with_its_section_index() {
    let items = [(Some("intro"), 2usize), (Some("turnaround"), 2)];
    let flags = unlocked_flags(&items, &[2, 2], &[2, 2], true);
    assert_eq!(flags.iter().map(|&(_, s)| s).collect::<Vec<_>>(), vec![0, 0, 1, 1]);
}

#[test]
fn numbering_runs_across_the_items_of_a_section() {
    // Section "a" holds 2 + 3 events; three of them are unlocked, so the
    // second item's first event is the last unlocked one.
    let items = [(Some("a"), 2usize), (None, 3), (Some("b"), 2)];
    let flags = unlocked_flags(&items, &[5, 2], &[3, 3, 1], true);
    assert_eq!(
        flags,
        vec![(true, 0), (true, 0), (true, 0), (false, 0), (false, 0), (true, 1), (false, 1)]
    );
}
