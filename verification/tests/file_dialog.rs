use harmonicon::dialogs::file_dialog::{classify_entry, eq_ignore_ascii_case, EntryKind};

fn exts(v: &[&str]) -> Vec<String> {
    v.iter().map(|s| s.to_string()).collect()
}

#[test]
fn hidden_entries_are_skipped() {
    assert_eq!(classify_entry(".git", true, None, &[]), EntryKind::Skip);
    assert_eq!(classify_entry(".song.ogg", false, Some("ogg"), &exts(&["ogg"])), EntryKind::Skip);
}

#[test]
fn directories_are_always_listed() {
    assert_eq!(classify_entry("songs", true, None, &exts(&["ogg"])), EntryKind::Dir);
}

#[test]
fn files_match_extensions_ignoring_case() {
    let ogg = exts(&["ogg", "mid"]);
    assert_eq!(classify_entry("music.OGG", false, Some("OGG"), &ogg), EntryKind::File);
    assert_eq!(classify_entry("song.Mid", false, Some("Mid"), &ogg), EntryKind::File);
    assert_eq!(classify_entry("art.png", false, Some("png"), &ogg), EntryKind::Skip);
    assert_eq!(classify_entry("README", false, None, &ogg), EntryKind::Skip);
    assert_eq!(classify_entry("README", false, None, &[]), EntryKind::File);
}

#[test]
fn ascii_case_comparison() {
    assert!(eq_ignore_ascii_case("Hello", "hELLO"));
    assert!(!eq_ignore_ascii_case("Hello", "Hell"));
    assert!(!eq_ignore_ascii_case("\u{00C9}", "\u{00E9}"), "only ASCII letters fold");
}
