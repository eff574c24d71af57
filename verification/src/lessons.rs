//! Lesson curriculum rules: checking a `lesson.json` against the lesson
//! schema, which lessons are unlocked by the ones already passed, and lessons
//! grouped by unit for the menu.

use vstd::prelude::*;
use crate::json_schema::{fault_message, fault_text, render_violations, report_text, schema_report, schema_violations};

verus! {

/// One `lesson.json`, as far as unlocking and grouping read it.
#[derive(Debug, Clone, PartialEq)]
pub struct LessonManifest {
    pub id: String,
    pub unit: String,
    pub title_key: String,
    pub body_key: String,
    pub chart: Option<String>,
    pub prerequisites: Vec<String>,
}

/// A discovered lesson: its manifest plus the asset path its chart loads
/// from (`None` for instructional-only lessons).
#[derive(Debug, Clone, PartialEq)]
pub struct LessonEntry {
    pub manifest: LessonManifest,
    pub chart_asset_path: Option<String>,
}

/// `id` is among `passed_ids`.
pub open spec fn is_passed(passed_ids: Seq<&str>, id: Seq<char>) -> bool {
    exists|k: int| 0 <= k < passed_ids.len() && (#[trigger] passed_ids[k])@ == id
}

/// Every prerequisite of the lesson has been passed.
pub open spec fn unlocked(prerequisites: Seq<String>, passed_ids: Seq<&str>) -> bool {
    forall|i: int| 0 <= i < prerequisites.len() ==> is_passed(passed_ids, (#[trigger] prerequisites[i])@)
}

/// Whether `id` is among `passed_ids`.
fn contains_id(passed_ids: &[&str], id: &String) -> (r: bool)
    ensures
        r == is_passed(passed_ids@, id@),
{
    let n = passed_ids.len();
    let mut k: usize = 0;
    while k < n
        invariant
            n == passed_ids@.len(),
            k <= n,
            forall|j: int| 0 <= j < k ==> (#[trigger] passed_ids@[j])@ != id@,
        decreases n - k,
    {
        let candidate = passed_ids[k].to_string();
        proof {
            vstd::string::to_string_from_display_ensures_for_str(passed_ids@[k as int], candidate);
        }
        if candidate == *id {
            return true;
        }
        k = k + 1;
    }
    false
}

/// Whether a lesson is playable yet: every prerequisite id has a passed
/// record. `passed_ids` are the ids of the lessons already passed.
pub fn is_unlocked(manifest: &LessonManifest, passed_ids: &[&str]) -> (r: bool)
    ensures
        r == unlocked(manifest.prerequisites@, passed_ids@),
{
    let n = manifest.prerequisites.len();
    let mut i: usize = 0;
    while i < n
        invariant
            n == manifest.prerequisites@.len(),
            i <= n,
            forall|j: int| 0 <= j < i ==> is_passed(passed_ids@, (#[trigger] manifest.prerequisites@[j])@),
        decreases n - i,
    {
        if !contains_id(passed_ids, &manifest.prerequisites[i]) {
            return false;
        }
        i = i + 1;
    }
    true
}

/// The unit of lesson `i`.
pub open spec fn unit_of(lessons: Seq<LessonEntry>, i: int) -> Seq<char> {
    lessons[i].manifest.unit@
}

/// The position of the group for `unit` among `groups`, searching from `g`.
pub open spec fn group_of(groups: Seq<(Seq<char>, Seq<int>)>, unit: Seq<char>, g: int) -> Option<int>
    decreases groups.len() - g,
{
    if g < 0 || g >= groups.len() {
        None
    } else if groups[g].0 == unit {
        Some(g)
    } else {
        group_of(groups, unit, g + 1)
    }
}

proof fn lemma_group_of(groups: Seq<(Seq<char>, Seq<int>)>, unit: Seq<char>, g: int)
    requires
        0 <= g,
    ensures
        group_of(groups, unit, g) matches Some(x) ==> g <= x < groups.len() && groups[x].0 == unit,
        group_of(groups, unit, g) is None ==> forall|h: int| g <= h < groups.len() ==> (#[trigger] groups[h]).0 != unit,
    decreases groups.len() - g,
{
    if g < groups.len() && groups[g].0 != unit {
        lemma_group_of(groups, unit, g + 1);
    }
}

/// The first `n` lessons grouped by unit: each group is a unit name and the
/// indices of its lessons in order, the groups in the order their unit first
/// appears.
pub open spec fn unit_groups(lessons: Seq<LessonEntry>, n: int) -> Seq<(Seq<char>, Seq<int>)>
    decreases n,
{
    if n <= 0 {
        Seq::empty()
    } else {
        let groups = unit_groups(lessons, n - 1);
        let unit = unit_of(lessons, n - 1);
        match group_of(groups, unit, 0) {
            Some(g) => groups.update(g, (unit, groups[g].1.push(n - 1))),
            None => groups.push((unit, seq![n - 1])),
        }
    }
}

/// `groups` groups the first `n` lessons by unit: every group is non-empty,
/// lists lessons of its unit in increasing order, no two groups share a unit,
/// every lesson is listed, and groups come in the order their unit first
/// appears.
pub open spec fn grouped_by_unit(lessons: Seq<LessonEntry>, groups: Seq<(Seq<char>, Seq<int>)>, n: int) -> bool {
    &&& forall|g: int| 0 <= g < groups.len() ==> (#[trigger] groups[g]).1.len() > 0
    &&& forall|g: int, j: int| 0 <= g < groups.len() && 0 <= j < groups[g].1.len() ==> {
        &&& 0 <= #[trigger] groups[g].1[j] < n
        &&& unit_of(lessons, groups[g].1[j]) == groups[g].0
    }
    &&& forall|g: int, j: int, l: int| 0 <= g < groups.len() && 0 <= j < l < groups[g].1.len()
        ==> #[trigger] groups[g].1[j] < #[trigger] groups[g].1[l]
    &&& forall|g: int, h: int| 0 <= g < h < groups.len() ==> (#[trigger] groups[g]).0 != (#[trigger] groups[h]).0
    &&& forall|g: int, h: int| 0 <= g < h < groups.len() ==> (#[trigger] groups[g]).1[0] < (#[trigger] groups[h]).1[0]
    &&& forall|k: int| 0 <= k < n ==> #[trigger] lists(groups, k)
}

/// Some group lists lesson `k`.
pub open spec fn lists(groups: Seq<(Seq<char>, Seq<int>)>, k: int) -> bool {
    exists|g: int, j: int| 0 <= g < groups.len() && 0 <= j < groups[g].1.len() && #[trigger] groups[g].1[j] == k
}

/// Grouping lessons by unit keeps every lesson, in order, under its own
/// unit, with the units in the order they first appear.
pub proof fn lemma_unit_groups(lessons: Seq<LessonEntry>, n: int)
    requires
        0 <= n <= lessons.len(),
    ensures
        grouped_by_unit(lessons, unit_groups(lessons, n), n),
    decreases n,
{
    if n > 0 {
        lemma_unit_groups(lessons, n - 1);
        let old_groups = unit_groups(lessons, n - 1);
        let unit = unit_of(lessons, n - 1);
        lemma_group_of(old_groups, unit, 0);
        let groups = unit_groups(lessons, n);
        match group_of(old_groups, unit, 0) {
            Some(g0) => {
                assert(groups == old_groups.update(g0, (unit, old_groups[g0].1.push(n - 1))));
                assert forall|k: int| 0 <= k < n implies #[trigger] lists(groups, k) by {
                    if k == n - 1 {
                        assert(groups[g0].1[old_groups[g0].1.len() as int] == k);
                    } else {
                        assert(lists(old_groups, k));
                        let (g, j) = choose|g: int, j: int|
                            0 <= g < old_groups.len() && 0 <= j < old_groups[g].1.len() && #[trigger] old_groups[g].1[j] == k;
                        assert(groups[g].1[j] == k);
                    }
                }
                assert forall|g: int, j: int, l: int| 0 <= g < groups.len() && 0 <= j < l < groups[g].1.len()
                    implies #[trigger] groups[g].1[j] < #[trigger] groups[g].1[l] by {
                    if g == g0 && l == old_groups[g0].1.len() {
                        assert(groups[g].1[j] == old_groups[g].1[j]);
                    } else if g == g0 {
                        assert(groups[g].1[j] == old_groups[g].1[j]);
                        assert(groups[g].1[l] == old_groups[g].1[l]);
                    }
                }
                assert forall|g: int, j: int| 0 <= g < groups.len() && 0 <= j < groups[g].1.len() implies {
                    &&& 0 <= #[trigger] groups[g].1[j] < n
                    &&& unit_of(lessons, groups[g].1[j]) == groups[g].0
                } by {
                    if g == g0 && j < old_groups[g0].1.len() {
                        assert(groups[g].1[j] == old_groups[g].1[j]);
                    }
                }
                assert forall|g: int, h: int| 0 <= g < h < groups.len()
                    implies (#[trigger] groups[g]).1[0] < (#[trigger] groups[h]).1[0] by {
                    assert(groups[g].1[0] == old_groups[g].1[0]);
                    assert(groups[h].1[0] == old_groups[h].1[0]);
                }
            },
            None => {
                assert(groups == old_groups.push((unit, seq![n - 1])));
                let last = old_groups.len() as int;
                assert forall|k: int| 0 <= k < n implies #[trigger] lists(groups, k) by {
                    if k == n - 1 {
                        assert(groups[last].1[0] == k);
                    } else {
                        assert(lists(old_groups, k));
                        let (g, j) = choose|g: int, j: int|
                            0 <= g < old_groups.len() && 0 <= j < old_groups[g].1.len() && #[trigger] old_groups[g].1[j] == k;
                        assert(groups[g].1[j] == k);
                    }
                }
                assert forall|g: int, h: int| 0 <= g < h < groups.len() implies (#[trigger] groups[g]).0 != (#[trigger] groups[h]).0 by {
                    if h == last {
                        assert(old_groups[g].0 != unit);
                    }
                }
                assert forall|g: int, h: int| 0 <= g < h < groups.len()
                    implies (#[trigger] groups[g]).1[0] < (#[trigger] groups[h]).1[0] by {
                    if h == last {
                        assert(old_groups[g].1[0] < n - 1);
                    }
                }
            },
        }
    }
}

/// `r` holds the groups `groups` of `lessons`: the unit names, and references
/// to the lessons of each.
pub open spec fn groups_match(r: Seq<(&str, Vec<&LessonEntry>)>, groups: Seq<(Seq<char>, Seq<int>)>, lessons: Seq<LessonEntry>) -> bool {
    &&& r.len() == groups.len()
    &&& forall|g: int| 0 <= g < r.len() ==> {
        &&& (#[trigger] r[g]).0@ == groups[g].0
        &&& r[g].1@.len() == groups[g].1.len()
        &&& forall|j: int| 0 <= j < r[g].1@.len() ==> *(#[trigger] r[g].1@[j]) == lessons[groups[g].1[j]]
    }
}

/// The position of the group named `unit` in `units`.
fn find_unit(units: &Vec<(&str, Vec<&LessonEntry>)>, unit: &String, groups: Ghost<Seq<(Seq<char>, Seq<int>)>>) -> (r: Option<usize>)
    requires
        units@.len() == groups@.len(),
        forall|g: int| 0 <= g < units@.len() ==> (#[trigger] units@[g]).0@ == groups@[g].0,
    ensures
        match group_of(groups@, unit@, 0) {
            Some(g) => r matches Some(x) && x == g,
            None => r is None,
        },
        r matches Some(g) ==> g < units@.len(),
{
    proof {
        lemma_group_of(groups@, unit@, 0);
    }
    let n = units.len();
    let mut g: usize = 0;
    while g < n
        invariant
            n == units@.len(),
            units@.len() == groups@.len(),
            forall|h: int| 0 <= h < units@.len() ==> (#[trigger] units@[h]).0@ == groups@[h].0,
            g <= n,
            group_of(groups@, unit@, 0) == group_of(groups@, unit@, g as int),
        decreases n - g,
    {
        let name = units[g].0.to_string();
        proof {
            vstd::string::to_string_from_display_ensures_for_str(units@[g as int].0, name);
        }
        if name == *unit {
            return Some(g);
        }
        g = g + 1;
    }
    None
}

/// Groups lessons by unit, preserving both the lesson order and the order
/// each unit first appears in. Returns `(unit, lessons-in-that-unit)` pairs
/// ready for the menu to render as sections.
pub fn group_by_unit<'a>(lessons: &'a [LessonEntry]) -> (r: Vec<(&'a str, Vec<&'a LessonEntry>)>)
    ensures
        groups_match(r@, unit_groups(lessons@, lessons@.len() as int), lessons@),
{
    let mut units: Vec<(&'a str, Vec<&'a LessonEntry>)> = Vec::new();
    let n = lessons.len();
    let mut i: usize = 0;
    while i < n
        invariant
            n == lessons@.len(),
            i <= n,
            groups_match(units@, unit_groups(lessons@, i as int), lessons@),
        decreases n - i,
    {
        let entry = &lessons[i];
        let unit = entry.manifest.unit.as_str();
        let ghost groups = unit_groups(lessons@, i as int);
        let ghost before = units@;
        match find_unit(&units, &entry.manifest.unit, Ghost(groups)) {
            Some(g) => {
                let (name, mut list) = units.remove(g);
                let ghost old_list = list@;
                list.push(entry);
                units.insert(g, (name, list));
                proof {
                    assert(entry.manifest.unit@ == unit_of(lessons@, i as int));
                    assert(group_of(groups, unit_of(lessons@, i as int), 0) == Some(g as int));
                    lemma_group_of(groups, unit_of(lessons@, i as int), 0);
                    assert(units@ =~= before.update(g as int, (name, list)));
                    assert(name == before[g as int].0);
                    let next = unit_groups(lessons@, i + 1);
                    assert(next == groups.update(g as int, (unit_of(lessons@, i as int), groups[g as int].1.push(i as int))));
                    assert forall|h: int| 0 <= h < units@.len() implies {
                        &&& (#[trigger] units@[h]).0@ == next[h].0
                        &&& units@[h].1@.len() == next[h].1.len()
                        &&& forall|j: int| 0 <= j < units@[h].1@.len() ==> *(#[trigger] units@[h].1@[j]) == lessons@[next[h].1[j]]
                    } by {
                        if h == g {
                            assert(units@[h].1@ == old_list.push(entry));
                            assert(old_list == before[h].1@);
                            assert forall|j: int| 0 <= j < units@[h].1@.len() implies *(#[trigger] units@[h].1@[j]) == lessons@[next[h].1[j]] by {
                                if j < old_list.len() {
                                    assert(units@[h].1@[j] == before[h].1@[j]);
                                }
                            }
                        } else {
                            assert(units@[h] == before[h]);
                        }
                    }
                }
            },
            None => {
                units.push((unit, vec![entry]));
                proof {
                    let next = unit_groups(lessons@, i + 1);
                    assert(next == groups.push((unit_of(lessons@, i as int), seq![i as int])));
                    assert forall|h: int| 0 <= h < units@.len() implies {
                        &&& (#[trigger] units@[h]).0@ == next[h].0
                        &&& units@[h].1@.len() == next[h].1.len()
                        &&& forall|j: int| 0 <= j < units@[h].1@.len() ==> *(#[trigger] units@[h].1@[j]) == lessons@[next[h].1[j]]
                    } by {
                        if h < before.len() {
                            assert(units@[h] == before[h]);
                        }
                    }
                }
            },
        }
        i = i + 1;
    }
    units
}

/// The asset path a lesson's chart loads from: the asset prefix, the unit and
/// lesson directory names, and the chart file, joined by `/`.
pub fn chart_asset_path(asset_prefix: &str, unit_dir: &str, lesson_dir: &str, chart: &str) -> (r: String)
    ensures
        r@ == asset_prefix@ + "/"@ + unit_dir@ + "/"@ + lesson_dir@ + "/"@ + chart@,
{
    let mut s = String::from_str(asset_prefix);
    s.append("/");
    s.append(unit_dir);
    s.append("/");
    s.append(lesson_dir);
    s.append("/");
    s.append(chart);
    s
}

/// Checks one `lesson.json`'s bytes against the lesson schema text: `Ok` when
/// the manifest is JSON and the schema reports no violation; otherwise each
/// violation as "<message> (at /<path>)", joined with "; ", or why an input
/// was unusable.
pub fn check_lesson_manifest(bytes: &[u8], schema: &str) -> (r: Result<(), String>)
    ensures
        match schema_report(bytes@, schema@) {
            Err((fault, msg)) => r matches Err(m) && m@ == fault_message(fault, msg),
            Ok(vs) => if vs.len() == 0 {
                r is Ok
            } else {
                r matches Err(m) && m@ == report_text(vs, ""@, "; "@)
            },
        },
{
    match schema_violations(bytes, schema) {
        Err((fault, msg)) => Err(fault_text(fault, msg.as_str())),
        Ok(vs) => {
            if vs.len() == 0 {
                Ok(())
            } else {
                Err(render_violations(&vs, "", "; "))
            }
        },
    }
}

} // verus!
