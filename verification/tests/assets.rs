use harmonicon::assets_management::{song_entry, sort_names, sort_unique_names, ui_theme_names};

fn strings(v: &[&str]) -> Vec<String> {
    v.iter().map(|s| s.to_string()).collect()
}

#[test]
fn names_sort_in_string_order_keeping_duplicates() {
    let sorted = sort_names(strings(&["wood", "Brass", "brass", "amber", "brass", "Émail", "zinc"]));
    assert_eq!(sorted, strings(&["Brass", "amber", "brass", "brass", "wood", "zinc", "Émail"]));
    let mut expected = strings(&["wood", "Brass", "brass", "amber", "brass", "Émail", "zinc"]);
    expected.sort();
    assert_eq!(sorted, expected);
}

#[test]
fn a_prefix_sorts_first() {
    assert_eq!(sort_names(strings(&["circular2", "circular", "circ"])), strings(&["circ", "circular", "circular2"]));
}

#[test]
fn theme_stems_are_sorted_and_listed_once() {
    assert_eq!(
        sort_unique_names(strings(&["square", "circular", "square", "arrow", "circular"])),
        strings(&["arrow", "circular", "square"])
    );
    assert!(sort_unique_names(Vec::new()).is_empty());
}

#[test]
fn ui_themes_fall_back_to_default() {
    assert_eq!(ui_theme_names(Vec::new()), strings(&["default"]));
    assert_eq!(ui_theme_names(strings(&["night", "day"])), strings(&["day", "night"]));
}

#[test]
fn song_entries_point_at_their_chart() {
    let e = song_entry("Little Walter", "Juke");
    assert_eq!(e.artist, "Little Walter");
    assert_eq!(e.name, "Juke");
    assert_eq!(e.asset_path, "songs/Little Walter/Juke/chart.harpchart");
}
