//! Per-phrase note unlocking ("adaptive difficulty"). A chart's track items
//! fall into phrase sections: a new section starts at every item that
//! declares a phrase (the first item always opens the first section). Only a
//! prefix of each section's notes is unlocked; clearing a section cleanly
//! unlocks more of it next time. The learned fractions, and how many notes a
//! fraction unlocks, are floating-point and kept by the game loop; the
//! grouping, the prefix reveal and the judgment of a playthrough are here.

use vstd::prelude::*;

verus! {

/// Item `i` declares a phrase.
pub open spec fn declares<'a>(items: Seq<(Option<&'a str>, usize)>, i: int) -> bool {
    items[i].0 is Some
}

/// Item `i` opens a section: the first item, or one that declares a phrase.
pub open spec fn opens_section<'a>(items: Seq<(Option<&'a str>, usize)>, i: int) -> bool {
    i == 0 || declares(items, i)
}

/// The section item `i` belongs to: how many items after the first, up to
/// and including `i`, declare a phrase.
pub open spec fn section_of<'a>(items: Seq<(Option<&'a str>, usize)>, i: int) -> int
    decreases i,
{
    if i <= 0 {
        0
    } else {
        section_of(items, i - 1) + if declares(items, i) { 1int } else { 0int }
    }
}

/// How many note events the items before `i` hold.
pub open spec fn events_before<'a>(items: Seq<(Option<&'a str>, usize)>, i: int) -> int
    decreases i,
{
    if i <= 0 {
        0
    } else {
        events_before(items, i - 1) + items[i - 1].1
    }
}

/// All the note events of the track.
pub open spec fn total_events<'a>(items: Seq<(Option<&'a str>, usize)>) -> int {
    events_before(items, items.len() as int)
}

/// Position of event `k` of item `i` among all events.
pub open spec fn event_index<'a>(items: Seq<(Option<&'a str>, usize)>, i: int, k: int) -> int {
    events_before(items, i) + k
}

/// How many events of item `i`'s section come before item `i`.
pub open spec fn run_before<'a>(items: Seq<(Option<&'a str>, usize)>, i: int) -> int
    decreases i,
{
    if i <= 0 || declares(items, i) {
        0
    } else {
        run_before(items, i - 1) + items[i - 1].1
    }
}

/// The section note count that governs item `i`: its section's entry of
/// `section_counts`, or the item's own event count where the list is short.
pub open spec fn governing_count<'a>(
    items: Seq<(Option<&'a str>, usize)>,
    section_counts: Seq<usize>,
    i: int,
) -> int {
    let s = section_of(items, i);
    if s < section_counts.len() {
        section_counts[s] as int
    } else {
        items[i].1 as int
    }
}

proof fn lemma_section_of_bounds<'a>(items: Seq<(Option<&'a str>, usize)>, i: int)
    requires
        0 <= i,
    ensures
        0 <= section_of(items, i) <= i,
    decreases i,
{
    if i > 0 {
        lemma_section_of_bounds(items, i - 1);
    }
}

proof fn lemma_events_before_monotone<'a>(items: Seq<(Option<&'a str>, usize)>, i: int, j: int)
    requires
        0 <= i <= j,
    ensures
        0 <= events_before(items, i) <= events_before(items, j),
    decreases j - i,
{
    if i < j {
        lemma_events_before_monotone(items, i, j - 1);
    } else {
        lemma_events_before_nonneg(items, i);
    }
}

proof fn lemma_events_before_nonneg<'a>(items: Seq<(Option<&'a str>, usize)>, i: int)
    ensures
        0 <= events_before(items, i),
    decreases i,
{
    if i > 0 {
        lemma_events_before_nonneg(items, i - 1);
    }
}

proof fn lemma_run_before_bounds<'a>(items: Seq<(Option<&'a str>, usize)>, i: int)
    ensures
        0 <= run_before(items, i) <= events_before(items, i),
    decreases i,
{
    if i > 0 {
        lemma_run_before_bounds(items, i - 1);
        lemma_events_before_nonneg(items, i - 1);
    }
}

/// How many sections the items fall into.
pub open spec fn section_count<'a>(items: Seq<(Option<&'a str>, usize)>) -> int {
    if items.len() == 0 {
        0
    } else {
        section_of(items, items.len() - 1) + 1
    }
}

/// How many note events of section `s` the items before `n` hold.
pub open spec fn section_events<'a>(items: Seq<(Option<&'a str>, usize)>, s: int, n: int) -> int
    decreases n,
{
    if n <= 0 {
        0
    } else {
        section_events(items, s, n - 1) + if section_of(items, n - 1) == s { items[n - 1].1 as int } else { 0int }
    }
}

/// The name of the section that item `i` opens: its phrase, or "Full Song"
/// for an untagged first item.
pub open spec fn section_name<'a>(items: Seq<(Option<&'a str>, usize)>, i: int) -> Seq<char> {
    match items[i].0 {
        Some(p) => p@,
        None => "Full Song"@,
    }
}

/// One phrase section of a track: its name, the item that opens it, and how
/// many note events it holds.
pub struct SectionSpan {
    pub name: String,
    pub first_item: usize,
    pub note_count: usize,
}

/// Groups the track items (declared phrase, event count), in chart order,
/// into phrase sections: a new section starts at the first item and at each
/// item that declares a phrase. No items, no sections.
pub fn phrase_section_spans(items: &[(Option<&str>, usize)]) -> (r: Vec<SectionSpan>)
    requires
        total_events(items@) <= usize::MAX,
    ensures
        r@.len() == section_count(items@),
        forall|s: int| 0 <= s < r@.len() ==> {
            let f = (#[trigger] r@[s]).first_item as int;
            &&& f < items@.len()
            &&& opens_section(items@, f)
            &&& section_of(items@, f) == s
            &&& r@[s].name@ == section_name(items@, f)
            &&& r@[s].note_count == section_events(items@, s, items@.len() as int)
        },
{
    let mut spans: Vec<SectionSpan> = Vec::new();
    if items.len() == 0 {
        return spans;
    }
    let (first_phrase, first_count) = items[0];
    let mut cur_name: String = match first_phrase {
        Some(p) => p.to_owned(),
        None => "Full Song".to_owned(),
    };
    let mut cur_first: usize = 0;
    let mut cur_count: usize = first_count;
    proof {
        assert(section_of(items@, 0) == 0);
        assert(section_events(items@, 0, 0) == 0);
        assert(events_before(items@, 0) == 0);
        assert(section_events(items@, 0, 1) == first_count);
        assert forall|t: int| t > 0 implies #[trigger] section_events(items@, t, 1) == 0 by {
            assert(section_events(items@, t, 0) == 0);
        }
        lemma_events_before_monotone(items@, 1, items@.len() as int);
    }
    let mut i: usize = 1;
    while i < items.len()
        invariant
            1 <= i <= items@.len(),
            total_events(items@) <= usize::MAX,
            spans@.len() == section_of(items@, i - 1),
            cur_first < i,
            opens_section(items@, cur_first as int),
            section_of(items@, cur_first as int) == spans@.len(),
            cur_name@ == section_name(items@, cur_first as int),
            cur_count == section_events(items@, spans@.len() as int, i as int),
            cur_count <= events_before(items@, i as int),
            forall|s: int| 0 <= s < spans@.len() ==> {
                let f = (#[trigger] spans@[s]).first_item as int;
                &&& f < items@.len()
                &&& opens_section(items@, f)
                &&& section_of(items@, f) == s
                &&& spans@[s].name@ == section_name(items@, f)
                &&& spans@[s].note_count == section_events(items@, s, i as int)
            },
            forall|t: int| t > spans@.len() ==> #[trigger] section_events(items@, t, i as int) == 0,
        decreases items@.len() - i,
    {
        proof {
            lemma_events_before_monotone(items@, i as int + 1, items@.len() as int);
        }
        let (phrase, count) = items[i];
        let ghost cur = spans@.len() as int;
        match phrase {
            Some(p) => {
                let span = SectionSpan { name: cur_name, first_item: cur_first, note_count: cur_count };
                spans.push(span);
                cur_name = p.to_owned();
                cur_first = i;
                cur_count = count;
                proof {
                    assert(section_of(items@, i as int) == cur + 1);
                    assert(section_events(items@, cur + 1, i as int) == 0);
                }
            },
            None => {
                cur_count = cur_count + count;
                proof {
                    assert(section_of(items@, i as int) == cur);
                }
            },
        }
        proof {
            let ii = i as int;
            let now = section_of(items@, ii);
            assert forall|s: int| 0 <= s < spans@.len() implies {
                let f = (#[trigger] spans@[s]).first_item as int;
                &&& f < items@.len()
                &&& opens_section(items@, f)
                &&& section_of(items@, f) == s
                &&& spans@[s].name@ == section_name(items@, f)
                &&& spans@[s].note_count == section_events(items@, s, ii + 1)
            } by {
                assert(section_events(items@, s, ii + 1) == section_events(items@, s, ii) + if now == s { items@[ii].1 as int } else { 0int });
            }
            assert forall|t: int| t > spans@.len() implies #[trigger] section_events(items@, t, ii + 1) == 0 by {
                assert(section_events(items@, t, ii + 1) == section_events(items@, t, ii) + if now == t { items@[ii].1 as int } else { 0int });
            }
            assert(section_events(items@, spans@.len() as int, ii + 1) == section_events(items@, spans@.len() as int, ii) + if now == spans@.len() { items@[ii].1 as int } else { 0int });
        }
        i = i + 1;
    }
    let last = SectionSpan { name: cur_name, first_item: cur_first, note_count: cur_count };
    spans.push(last);
    spans
}

proof fn lemma_section_of_monotone<'a>(items: Seq<(Option<&'a str>, usize)>, j: int, i: int)
    requires
        0 <= j <= i,
    ensures
        section_of(items, j) <= section_of(items, i),
    decreases i - j,
{
    if j < i {
        lemma_section_of_monotone(items, j, i - 1);
    }
}

proof fn lemma_section_events_monotone<'a>(items: Seq<(Option<&'a str>, usize)>, s: int, n: int, m: int)
    requires
        0 <= n <= m,
    ensures
        0 <= section_events(items, s, n) <= section_events(items, s, m),
    decreases m - n,
{
    if n < m {
        lemma_section_events_monotone(items, s, n, m - 1);
    } else {
        lemma_section_events_nonneg(items, s, n);
    }
}

proof fn lemma_section_events_nonneg<'a>(items: Seq<(Option<&'a str>, usize)>, s: int, n: int)
    ensures
        0 <= section_events(items, s, n),
    decreases n,
{
    if n > 0 {
        lemma_section_events_nonneg(items, s, n - 1);
    }
}

/// No item before `n` belongs to a section after the one of item `n - 1`.
proof fn lemma_later_section_empty<'a>(items: Seq<(Option<&'a str>, usize)>, t: int, n: int)
    requires
        n > 0,
        t > section_of(items, n - 1),
    ensures
        section_events(items, t, n) == 0,
    decreases n,
{
    if n > 1 {
        lemma_section_of_monotone(items, n - 2, n - 1);
        lemma_later_section_empty(items, t, n - 1);
    } else {
        assert(section_events(items, t, 0) == 0);
    }
}

/// The events of item `i`'s section before it are exactly the run before it.
proof fn lemma_run_is_section_prefix<'a>(items: Seq<(Option<&'a str>, usize)>, i: int)
    requires
        0 <= i < items.len(),
    ensures
        section_events(items, section_of(items, i), i) == run_before(items, i),
    decreases i,
{
    if i == 0 {
        assert(section_events(items, section_of(items, 0), 0) == 0);
    } else if declares(items, i) {
        lemma_later_section_empty(items, section_of(items, i), i);
    } else {
        lemma_run_is_section_prefix(items, i - 1);
    }
}

/// Events are numbered along the track within a section: an earlier item of
/// the same section ends its numbers no later than a later one starts. So
/// for items with one active count, the unlocked events of a section are a
/// prefix of it.
pub proof fn lemma_section_numbering_runs_forward<'a>(items: Seq<(Option<&'a str>, usize)>, j: int, i: int)
    requires
        0 <= j < i < items.len(),
        section_of(items, j) == section_of(items, i),
    ensures
        run_before(items, j) + items[j].1 <= run_before(items, i),
{
    lemma_run_is_section_prefix(items, j);
    lemma_run_is_section_prefix(items, i);
    let s = section_of(items, i);
    assert(section_events(items, s, j + 1) == section_events(items, s, j) + items[j].1);
    lemma_section_events_monotone(items, s, j + 1, i);
}

/// With the section note counts that the grouping itself gives (as
/// `phrase_section_spans` reports them), the governing count of every item
/// exceeds the number of each of its events: with adaptive difficulty turned
/// off, `unlocked_flags` unlocks every note.
pub proof fn lemma_disabled_unlocks_all<'a>(
    items: Seq<(Option<&'a str>, usize)>,
    section_counts: Seq<usize>,
    i: int,
    k: int,
)
    requires
        section_counts.len() == section_count(items),
        forall|s: int| 0 <= s < section_counts.len() ==>
            #[trigger] section_counts[s] == section_events(items, s, items.len() as int),
        0 <= i < items.len(),
        0 <= k < items[i].1,
    ensures
        run_before(items, i) + k < governing_count(items, section_counts, i),
{
    let s = section_of(items, i);
    lemma_run_is_section_prefix(items, i);
    lemma_section_of_bounds(items, i);
    lemma_section_of_monotone(items, i, items.len() - 1);
    assert(section_events(items, s, i + 1) == section_events(items, s, i) + items[i].1);
    lemma_section_events_monotone(items, s, i + 1, items.len() as int);
    assert(section_counts[s] == section_events(items, s, items.len() as int));
}

/// For each track item (its declared phrase, its event count): the section
/// it belongs to and the section note count that governs it, taken from
/// `section_counts` (or the item's own count where that list is short).
pub fn item_note_counts(items: &[(Option<&str>, usize)], section_counts: &[usize]) -> (r: Vec<(usize, usize)>)
    ensures
        r@.len() == items@.len(),
        forall|i: int| 0 <= i < items@.len() ==> (#[trigger] r@[i]).0 == section_of(items@, i)
            && r@[i].1 == governing_count(items@, section_counts@, i),
{
    let mut out: Vec<(usize, usize)> = Vec::new();
    let mut section_idx: usize = 0;
    let mut i: usize = 0;
    while i < items.len()
        invariant
            i <= items@.len(),
            out@.len() == i,
            i == 0 ==> section_idx == 0,
            i > 0 ==> section_idx == section_of(items@, i - 1),
            forall|j: int| 0 <= j < i ==> (#[trigger] out@[j]).0 == section_of(items@, j)
                && out@[j].1 == governing_count(items@, section_counts@, j),
        decreases items@.len() - i,
    {
        proof {
            lemma_section_of_bounds(items@, i as int);
        }
        let (phrase, count) = items[i];
        if i > 0 && phrase.is_some() {
            section_idx = section_idx + 1;
        }
        let note_count = if section_idx < section_counts.len() { section_counts[section_idx] } else { count };
        out.push((section_idx, note_count));
        i = i + 1;
    }
    out
}

/// Per note event `(unlocked, section index)`, in the flattened order of
/// `items` (each item's events in turn). Within a section the events are
/// numbered from zero across its items; an event is unlocked when its number
/// is below the item's active count: `active_counts[i]` when `enabled`, the
/// governing section note count (see `item_note_counts`) otherwise, which
/// unlocks the whole section.
pub fn unlocked_flags(
    items: &[(Option<&str>, usize)],
    section_counts: &[usize],
    active_counts: &[usize],
    enabled: bool,
) -> (r: Vec<(bool, usize)>)
    requires
        active_counts@.len() == items@.len(),
        total_events(items@) <= usize::MAX,
    ensures
        r@.len() == total_events(items@),
        forall|i: int, k: int| 0 <= i < items@.len() && 0 <= k < items@[i].1 ==> {
            let e = #[trigger] r@[event_index(items@, i, k)];
            &&& e.1 == section_of(items@, i)
            &&& e.0 == (run_before(items@, i) + k < if enabled {
                active_counts@[i] as int
            } else {
                governing_count(items@, section_counts@, i)
            })
        },
{
    let mut flags: Vec<(bool, usize)> = Vec::new();
    let mut section_idx: usize = 0;
    let mut ordinal: usize = 0;
    let mut i: usize = 0;
    while i < items.len()
        invariant
            i <= items@.len(),
            active_counts@.len() == items@.len(),
            total_events(items@) <= usize::MAX,
            flags@.len() == events_before(items@, i as int),
            i == 0 ==> section_idx == 0,
            i > 0 ==> section_idx == section_of(items@, i - 1),
            i > 0 ==> ordinal == run_before(items@, i - 1) + items@[i - 1].1,
            forall|j: int, k: int| 0 <= j < i && 0 <= k < items@[j].1 ==> {
                let e = #[trigger] flags@[event_index(items@, j, k)];
                &&& e.1 == section_of(items@, j)
                &&& e.0 == (run_before(items@, j) + k < if enabled {
                    active_counts@[j] as int
                } else {
                    governing_count(items@, section_counts@, j)
                })
            },
        decreases items@.len() - i,
    {
        proof {
            lemma_section_of_bounds(items@, i as int);
            lemma_run_before_bounds(items@, i as int);
            lemma_events_before_monotone(items@, i as int + 1, items@.len() as int);
            lemma_events_before_nonneg(items@, i as int);
        }
        let (phrase, count) = items[i];
        if i > 0 && phrase.is_some() {
            section_idx = section_idx + 1;
            ordinal = 0;
        } else if i == 0 {
            ordinal = 0;
        }
        let note_count = if section_idx < section_counts.len() { section_counts[section_idx] } else { count };
        let active = if enabled { active_counts[i] } else { note_count };
        let ghost start = flags@.len() as int;
        let ghost prev = flags@;
        let mut k: usize = 0;
        while k < count
            invariant
                k <= count,
                count == items@[i as int].1,
                i < items@.len(),
                start == events_before(items@, i as int),
                0 <= start,
                prev.len() == start,
                flags@.len() == start + k,
                forall|x: int| 0 <= x < start ==> #[trigger] flags@[x] == prev[x],
                ordinal == run_before(items@, i as int) + k,
                section_idx == section_of(items@, i as int),
                events_before(items@, i as int + 1) <= usize::MAX,
                run_before(items@, i as int) <= events_before(items@, i as int),
                forall|x: int| start <= x < start + k ==> #[trigger] flags@[x] == (
                    run_before(items@, i as int) + (x - start) < active,
                    section_idx,
                ),
            decreases count - k,
        {
            let ghost before_push = flags@;
            flags.push((ordinal < active, section_idx));
            assert forall|x: int| start <= x < start + k + 1 implies #[trigger] flags@[x] == (
                run_before(items@, i as int) + (x - start) < active,
                section_idx,
            ) by {
                if x < start + k {
                    assert(flags@[x] == before_push[x]);
                }
            }
            assert forall|x: int| 0 <= x < start implies #[trigger] flags@[x] == prev[x] by {
                assert(flags@[x] == before_push[x]);
            }
            ordinal = ordinal + 1;
            k = k + 1;
        }
        assert forall|j: int, kk: int| 0 <= j <= i && 0 <= kk < items@[j].1 implies {
            let e = #[trigger] flags@[event_index(items@, j, kk)];
            &&& e.1 == section_of(items@, j)
            &&& e.0 == (run_before(items@, j) + kk < if enabled {
                active_counts@[j] as int
            } else {
                governing_count(items@, section_counts@, j)
            })
        } by {
            if j < i {
                lemma_events_before_monotone(items@, j + 1, i as int);
                lemma_events_before_nonneg(items@, j);
                assert(events_before(items@, j + 1) == events_before(items@, j) + items@[j].1);
                assert(event_index(items@, j, kk) < start);
                assert(flags@[event_index(items@, j, kk)] == prev[event_index(items@, j, kk)]);
            } else {
                assert(flags@[event_index(items@, j, kk)] == flags@[start + kk]);
            }
        }
        i = i + 1;
    }
    flags
}


/// Some note of `notes` (section index, cleanly hit) belongs to section `k`.
pub open spec fn section_seen(notes: Seq<(usize, bool)>, k: int) -> bool {
    exists|i: int| 0 <= i < notes.len() && (#[trigger] notes[i]).0 == k
}

/// Every note of section `k` was hit cleanly.
pub open spec fn section_clean(notes: Seq<(usize, bool)>, k: int) -> bool {
    forall|i: int| 0 <= i < notes.len() && (#[trigger] notes[i]).0 == k ==> notes[i].1
}

/// A single miss anywhere in a section keeps it from being cleared, wherever
/// it falls among the section's notes.
pub proof fn lemma_miss_blocks_clear(notes: Seq<(usize, bool)>, i: int)
    requires
        0 <= i < notes.len(),
        !notes[i].1,
    ensures
        !section_clean(notes, notes[i].0 as int),
{
}

/// A section is clean when no note of it was missed.
pub proof fn lemma_no_miss_is_clean(notes: Seq<(usize, bool)>, k: int)
    requires
        forall|i: int| 0 <= i < notes.len() && (#[trigger] notes[i]).0 == k ==> notes[i].1,
    ensures
        section_clean(notes, k),
{
}

/// For each of `section_count` sections, whether the playthrough cleared it:
/// some of its notes were played and every one of them was hit cleanly.
/// `notes` pairs each played note's section index with whether it was hit
/// and not missed; notes of sections past `section_count` are ignored.
pub fn cleared_sections(notes: &[(usize, bool)], section_count: usize) -> (r: Vec<bool>)
    ensures
        r@.len() == section_count,
        forall|k: int| 0 <= k < section_count ==>
            #[trigger] r@[k] == (section_seen(notes@, k) && section_clean(notes@, k)),
        forall|i: int| 0 <= i < notes@.len() && (#[trigger] notes@[i]).0 < section_count && !notes@[i].1
            ==> !r@[notes@[i].0 as int],
        forall|k: int| 0 <= k < section_count && #[trigger] r@[k] ==>
            exists|i: int| 0 <= i < notes@.len() && (#[trigger] notes@[i]).0 == k && notes@[i].1,
        forall|k: int| 0 <= k < section_count && !#[trigger] r@[k] && (exists|i: int| 0 <= i < notes@.len() && (#[trigger] notes@[i]).0 == k)
            ==> exists|i: int| 0 <= i < notes@.len() && (#[trigger] notes@[i]).0 == k && !notes@[i].1,
{
    let mut seen: Vec<bool> = Vec::new();
    let mut clean: Vec<bool> = Vec::new();
    let mut k: usize = 0;
    while k < section_count
        invariant
            k <= section_count,
            seen@.len() == k,
            clean@.len() == k,
            forall|j: int| 0 <= j < k ==> !(#[trigger] seen@[j]),
            forall|j: int| 0 <= j < k ==> #[trigger] clean@[j],
        decreases section_count - k,
    {
        seen.push(false);
        clean.push(true);
        k = k + 1;
    }
    let n = notes.len();
    let mut i: usize = 0;
    while i < n
        invariant
            n == notes@.len(),
            i <= n,
            seen@.len() == section_count,
            clean@.len() == section_count,
            forall|j: int| 0 <= j < section_count ==>
                (#[trigger] seen@[j]) == section_seen(notes@.take(i as int), j),
            forall|j: int| 0 <= j < section_count ==>
                (#[trigger] clean@[j]) == section_clean(notes@.take(i as int), j),
        decreases n - i,
    {
        let (idx, ok) = notes[i];
        let ghost before = notes@.take(i as int);
        let ghost after = notes@.take(i + 1);
        assert(after =~= before.push((idx, ok)));
        if idx < section_count {
            seen.set(idx, true);
            if !ok {
                clean.set(idx, false);
            }
        }
        assert forall|j: int| 0 <= j < section_count implies (#[trigger] seen@[j]) == section_seen(after, j) by {
            if j == idx {
                assert(after[i as int].0 == j);
            } else if section_seen(after, j) {
                let w = choose|w: int| 0 <= w < after.len() && (#[trigger] after[w]).0 == j;
                assert(before[w] == after[w]);
            }
            if section_seen(before, j) {
                let w = choose|w: int| 0 <= w < before.len() && (#[trigger] before[w]).0 == j;
                assert(after[w] == before[w]);
            }
        }
        assert forall|j: int| 0 <= j < section_count implies (#[trigger] clean@[j]) == section_clean(after, j) by {
            if !section_clean(before, j) {
                let w = choose|w: int| 0 <= w < before.len() && (#[trigger] before[w]).0 == j && !before[w].1;
                assert(after[w] == before[w]);
            }
            if j == idx && !ok {
                assert(after[i as int].0 == j && !after[i as int].1);
            }
            if section_clean(before, j) && (j != idx || ok) {
                assert forall|w: int| 0 <= w < after.len() && (#[trigger] after[w]).0 == j implies after[w].1 by {
                    if w < i {
                        assert(after[w] == before[w]);
                    }
                }
            }
        }
        i = i + 1;
    }
    assert(notes@.take(n as int) =~= notes@);
    let mut cleared: Vec<bool> = Vec::new();
    let mut k: usize = 0;
    while k < section_count
        invariant
            k <= section_count,
            seen@.len() == section_count,
            clean@.len() == section_count,
            cleared@.len() == k,
            forall|j: int| 0 <= j < section_count ==> (#[trigger] seen@[j]) == section_seen(notes@, j),
            forall|j: int| 0 <= j < section_count ==> (#[trigger] clean@[j]) == section_clean(notes@, j),
            forall|j: int| 0 <= j < k ==> #[trigger] cleared@[j] == (section_seen(notes@, j) && section_clean(notes@, j)),
        decreases section_count - k,
    {
        cleared.push(seen[k] && clean[k]);
        k = k + 1;
    }
    cleared
}

} // verus!
