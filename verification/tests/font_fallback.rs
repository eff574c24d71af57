use harmonicon::dialogs::font_fallback::{fallback_kind, split_runs, FallbackKind};

/// Characters missing from the UI font that the emoji fallback covers.
const EMOJI_CHARS: &[char] = &['\u{1F3B2}', '\u{1F4C1}', '\u{1F50A}'];
/// Characters missing from the UI font that the symbols fallback covers.
const SYMBOL_CHARS: &[char] = &['\u{2713}', '\u{21BB}'];

#[test]
fn split_runs_returns_one_run_for_plain_text() {
    let runs = split_runs("Listen");
    assert_eq!(runs, vec![("Listen".to_string(), None)]);
}

#[test]
fn split_runs_separates_a_leading_emoji_from_the_rest() {
    let runs = split_runs("\u{1F50A} Listen");
    assert_eq!(
        runs,
        vec![("\u{1F50A}".to_string(), Some(FallbackKind::Emoji)), (" Listen".to_string(), None)]
    );
}

#[test]
fn split_runs_merges_consecutive_same_kind_characters() {
    // Two emoji in a row should stay one run, not split per character.
    let runs = split_runs("\u{1F3B2}\u{1F50A} Drill");
    assert_eq!(
        runs,
        vec![("\u{1F3B2}\u{1F50A}".to_string(), Some(FallbackKind::Emoji)), (" Drill".to_string(), None)]
    );
}

#[test]
fn split_runs_handles_symbols_and_emoji_in_one_string() {
    let runs = split_runs("\u{2713} \u{1F50A}");
    assert_eq!(
        runs,
        vec![
            ("\u{2713}".to_string(), Some(FallbackKind::Symbols)),
            (" ".to_string(), None),
            ("\u{1F50A}".to_string(), Some(FallbackKind::Emoji)),
        ]
    );
}

#[test]
fn split_runs_of_empty_string_is_empty() {
    assert!(split_runs("").is_empty());
}

#[test]
fn fallback_kind_identifies_exactly_the_known_gaps() {
    for &c in EMOJI_CHARS {
        assert_eq!(fallback_kind(c), Some(FallbackKind::Emoji));
    }
    for &c in SYMBOL_CHARS {
        assert_eq!(fallback_kind(c), Some(FallbackKind::Symbols));
    }
    // A character the UI font already covers should need no fallback.
    assert_eq!(fallback_kind('A'), None);
    assert_eq!(fallback_kind('\u{2190}'), None); // ← already covered
}

#[test]
fn split_runs_spell_the_text_back() {
    let text = "\u{21BB} Retry \u{2713}\u{2713} \u{1F4C1}x";
    let runs = split_runs(text);
    let joined: String = runs.iter().map(|(s, _)| s.as_str()).collect();
    assert_eq!(joined, text);
    for pair in runs.windows(2) {
        assert_ne!(pair[0].1, pair[1].1);
    }
    assert_eq!(runs.len(), 6);
}
