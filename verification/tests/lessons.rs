use harmonicon::lessons::{group_by_unit, is_unlocked, LessonEntry, LessonManifest};

fn manifest(id: &str, prereqs: &[&str]) -> LessonManifest {
    LessonManifest {
        id: id.into(),
        unit: "blowing".into(),
        title_key: format!("lesson-{id}-title"),
        body_key: format!("lesson-{id}-body"),
        chart: None,
        prerequisites: prereqs.iter().map(|s| s.to_string()).collect(),
    }
}

fn entry(id: &str, unit: &str) -> LessonEntry {
    LessonEntry { manifest: LessonManifest { unit: unit.into(), ..manifest(id, &[]) }, chart_asset_path: None }
}

#[test]
fn a_lesson_with_no_prerequisites_is_unlocked() {
    assert!(is_unlocked(&manifest("a", &[]), &[]));
}

#[test]
fn a_lesson_unlocks_only_when_every_prerequisite_is_passed() {
    let m = manifest("c", &["a", "b"]);
    assert!(!is_unlocked(&m, &[]));
    assert!(!is_unlocked(&m, &["a"]));
    assert!(is_unlocked(&m, &["a", "b"]));
}

#[test]
fn unlocking_ignores_order_and_extra_passes() {
    let m = manifest("c", &["a", "b"]);
    assert!(is_unlocked(&m, &["z", "b", "a"]));
    assert!(!is_unlocked(&m, &["A", "B"]));
}

fn check_grouping() {
    let lessons = [entry("a1", "blowing"), entry("a2", "blowing"), entry("r1", "rhythm"), entry("a3", "blowing")];
    let grouped = group_by_unit(&lessons);
    assert_eq!(grouped.len(), 2);
    assert_eq!(grouped[0].0, "blowing");
    let ids: Vec<&str> = grouped[0].1.iter().map(|l| l.manifest.id.as_str()).collect();
    assert_eq!(ids, ["a1", "a2", "a3"]);
    assert_eq!(grouped[1].0, "rhythm");
}

#[test]
fn lessons_grouping_preserves_lesson_and_unit_order() {
    check_grouping();
}

#[test]
fn catalog_grouping_preserves_lesson_and_unit_order() {
    check_grouping();
}

#[test]
fn grouping_nothing_gives_no_units() {
    assert!(group_by_unit(&[]).is_empty());
    let lessons = [entry("b1", "bending"), entry("r1", "rhythm"), entry("b2", "bending")];
    let grouped = group_by_unit(&lessons);
    let units: Vec<&str> = grouped.iter().map(|(u, _)| *u).collect();
    assert_eq!(units, ["bending", "rhythm"]);
    assert_eq!(grouped[1].1.len(), 1);
    assert_eq!(grouped[1].1[0].manifest.id, "r1");
}
