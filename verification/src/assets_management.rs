//! What the asset scans make of the names they find on disk: the sorted
//! lists of note themes, UI themes and harmonica models, and the song
//! entries of the song list. Reading the directories is left to the game.

use vstd::prelude::*;
use crate::text::chars_of;
use vstd::multiset::Multiset;
use vstd::multiset::lemma_multiset_empty_len;
use vstd::seq_lib::{to_multiset_build, to_multiset_contains, to_multiset_insert, to_multiset_len};

verus! {

/// Lexicographic order of texts by code point, the order in which Rust
/// compares strings.
pub open spec fn text_lt(a: Seq<char>, b: Seq<char>) -> bool
    decreases a.len(),
{
    if a.len() == 0 {
        b.len() > 0
    } else if b.len() == 0 {
        false
    } else if a[0] != b[0] {
        (a[0] as int) < (b[0] as int)
    } else {
        text_lt(a.drop_first(), b.drop_first())
    }
}

/// `a` sorts no later than `b`.
pub open spec fn text_le(a: Seq<char>, b: Seq<char>) -> bool {
    a == b || text_lt(a, b)
}

proof fn lemma_text_lt_transitive(a: Seq<char>, b: Seq<char>, c: Seq<char>)
    requires
        text_lt(a, b),
        text_lt(b, c),
    ensures
        text_lt(a, c),
    decreases a.len(),
{
    if a.len() > 0 && b.len() > 0 && c.len() > 0 && a[0] == b[0] && b[0] == c[0] {
        lemma_text_lt_transitive(a.drop_first(), b.drop_first(), c.drop_first());
    }
}

proof fn lemma_text_lt_total(a: Seq<char>, b: Seq<char>)
    ensures
        a == b || text_lt(a, b) || text_lt(b, a),
    decreases a.len(),
{
    if a.len() > 0 && b.len() > 0 {
        if a[0] == b[0] {
            lemma_text_lt_total(a.drop_first(), b.drop_first());
            if a.drop_first() == b.drop_first() {
                assert(a =~= seq![a[0]] + a.drop_first());
                assert(b =~= seq![b[0]] + b.drop_first());
            }
        } else {
            assert((a[0] as int) != (b[0] as int));
        }
    } else if a.len() == 0 && b.len() == 0 {
        assert(a =~= b);
    }
}

/// `a` sorts strictly before `b`.
fn text_less(a: &String, b: &String) -> (r: bool)
    ensures
        r == text_lt(a@, b@),
{
    let x = chars_of(a.as_str());
    let y = chars_of(b.as_str());
    let mut i: usize = 0;
    assert(a@.skip(0) =~= a@);
    assert(b@.skip(0) =~= b@);
    loop
        invariant
            x@ == a@,
            y@ == b@,
            i <= x@.len(),
            i <= y@.len(),
            text_lt(a@, b@) == text_lt(a@.skip(i as int), b@.skip(i as int)),
        decreases x@.len() - i,
    {
        let ghost sa = a@.skip(i as int);
        let ghost sb = b@.skip(i as int);
        if i == x.len() {
            return i < y.len();
        }
        if i == y.len() {
            return false;
        }
        assert(sa[0] == x@[i as int] && sb[0] == y@[i as int]);
        if x[i] != y[i] {
            return x[i] < y[i];
        }
        assert(sa.drop_first() =~= a@.skip(i + 1));
        assert(sb.drop_first() =~= b@.skip(i + 1));
        i = i + 1;
    }
}

/// The texts of `names`.
pub open spec fn texts(names: Seq<String>) -> Seq<Seq<char>> {
    names.map_values(|n: String| n@)
}

/// `s` is in ascending order.
pub open spec fn ascending(s: Seq<Seq<char>>) -> bool {
    forall|i: int, j: int| 0 <= i < j < s.len() ==> text_le(#[trigger] s[i], #[trigger] s[j])
}

/// `s` is in strictly ascending order: ascending, with no text twice.
pub open spec fn strictly_ascending(s: Seq<Seq<char>>) -> bool {
    forall|i: int, j: int| 0 <= i < j < s.len() ==> text_lt(#[trigger] s[i], #[trigger] s[j])
}

proof fn lemma_text_le_transitive(a: Seq<char>, b: Seq<char>, c: Seq<char>)
    requires
        text_le(a, b),
        text_le(b, c),
    ensures
        text_le(a, c),
{
    if text_lt(a, b) && text_lt(b, c) {
        lemma_text_lt_transitive(a, b, c);
    }
}

/// Inserting `x` after every text that sorts before it and before the rest
/// keeps a sequence ascending.
proof fn lemma_insert_keeps_ascending(s: Seq<Seq<char>>, p: int, x: Seq<char>)
    requires
        ascending(s),
        0 <= p <= s.len(),
        forall|i: int| 0 <= i < p ==> text_lt(#[trigger] s[i], x),
        p == s.len() || !text_lt(s[p], x),
    ensures
        ascending(s.insert(p, x)),
{
    let t = s.insert(p, x);
    if p < s.len() {
        lemma_text_lt_total(s[p], x);
    }
    assert forall|i: int, j: int| 0 <= i < j < t.len() implies text_le(#[trigger] t[i], #[trigger] t[j]) by {
        if i < p && j == p {
        } else if i < p && j > p {
            assert(t[j] == s[j - 1]);
            assert(text_le(s[i], s[j - 1]));
        } else if i == p && j > p {
            assert(t[j] == s[j - 1]);
            if j - 1 > p {
                assert(text_le(s[p], s[j - 1]));
            }
            lemma_text_le_transitive(x, s[p], s[j - 1]);
        } else if i > p {
            assert(t[i] == s[i - 1] && t[j] == s[j - 1]);
        }
    }
}

/// `names` in ascending order, duplicates kept: the order in which the game
/// lists UI themes and harmonica models.
pub fn sort_names(names: Vec<String>) -> (r: Vec<String>)
    ensures
        ascending(texts(r@)),
        texts(r@).to_multiset() == texts(names@).to_multiset(),
{
    let mut rest = names;
    let mut out: Vec<String> = Vec::new();
    proof {
        to_multiset_len(texts(out@));
        lemma_multiset_empty_len(texts(out@).to_multiset());
    }
    while rest.len() > 0
        invariant
            ascending(texts(out@)),
            texts(out@).to_multiset().add(texts(rest@).to_multiset()) == texts(names@).to_multiset(),
        decreases rest@.len(),
    {
        let ghost old_rest = rest@;
        let x = match rest.pop() {
            Some(x) => x,
            None => {
                return out;
            },
        };
        proof {
            assert(texts(old_rest) =~= texts(rest@).push(x@));
            to_multiset_build(texts(rest@), x@);
        }
        let mut p: usize = 0;
        loop
            invariant
                p <= out@.len(),
                forall|i: int| 0 <= i < p ==> text_lt(#[trigger] texts(out@)[i], x@),
            ensures
                p <= out@.len(),
                forall|i: int| 0 <= i < p ==> text_lt(#[trigger] texts(out@)[i], x@),
                p == out@.len() || !text_lt(texts(out@)[p as int], x@),
            decreases out@.len() - p,
        {
            if p == out.len() {
                break;
            }
            if !text_less(&out[p], &x) {
                break;
            }
            p = p + 1;
        }
        let ghost old_out = out@;
        out.insert(p, x);
        proof {
            assert(texts(out@) =~= texts(old_out).insert(p as int, x@));
            lemma_insert_keeps_ascending(texts(old_out), p as int, x@);
            to_multiset_insert(texts(old_out), p as int, x@);
            assert(texts(out@).to_multiset().add(texts(rest@).to_multiset()) =~= texts(old_out).to_multiset().add(texts(old_rest).to_multiset()));
        }
    }
    proof {
        to_multiset_len(texts(rest@));
        lemma_multiset_empty_len(texts(rest@).to_multiset());
    }
    assert(texts(out@).to_multiset().add(texts(rest@).to_multiset()) =~= texts(out@).to_multiset());
    out
}

/// The distinct texts of `names`, in ascending order: the list of note
/// themes (one per file stem).
pub fn sort_unique_names(names: Vec<String>) -> (r: Vec<String>)
    ensures
        strictly_ascending(texts(r@)),
        forall|t: Seq<char>| #[trigger] texts(r@).contains(t) <==> texts(names@).contains(t),
{
    let ghost original = texts(names@);
    let sorted = sort_names(names);
    proof {
        assert forall|t: Seq<char>| #[trigger] texts(sorted@).contains(t) <==> original.contains(t) by {
            to_multiset_contains(texts(sorted@), t);
            to_multiset_contains(original, t);
        }
    }
    let mut out: Vec<String> = Vec::new();
    let mut i: usize = 0;
    while i < sorted.len()
        invariant
            i <= sorted@.len(),
            ascending(texts(sorted@)),
            strictly_ascending(texts(out@)),
            forall|t: Seq<char>| #[trigger] texts(out@).contains(t) <==> texts(sorted@).take(i as int).contains(t),
            i == 0 ==> out@.len() == 0,
            i > 0 ==> out@.len() > 0 && out@[out@.len() - 1]@ == sorted@[i - 1]@,
        decreases sorted@.len() - i,
    {
        let x = sorted[i].clone();
        let ghost before = texts(out@);
        let ghost seen = texts(sorted@).take(i as int);
        assert(texts(sorted@).take(i + 1) =~= seen.push(x@));
        let repeat = out.len() > 0 && out[out.len() - 1] == x;
        if !repeat {
            proof {
                if i > 0 {
                    let last = before[before.len() - 1];
                    assert(text_le(texts(sorted@)[i - 1], texts(sorted@)[i as int]));
                    assert(text_lt(last, x@));
                    assert forall|k: int| 0 <= k < before.len() implies text_lt(#[trigger] before[k], x@) by {
                        if k < before.len() - 1 {
                            lemma_text_lt_transitive(before[k], last, x@);
                        }
                    }
                }
            }
            out.push(x);
            proof {
                assert(texts(out@) =~= before.push(x@));
                assert forall|t: Seq<char>| #[trigger] texts(out@).contains(t) implies seen.push(x@).contains(t) by {
                    let w = choose|w: int| 0 <= w < texts(out@).len() && texts(out@)[w] == t;
                    if w < before.len() {
                        assert(before[w] == t);
                        assert(before.contains(t));
                        assert(seen.contains(t));
                        let v = choose|v: int| 0 <= v < seen.len() && seen[v] == t;
                        assert(seen.push(x@)[v] == t);
                    } else {
                        assert(seen.push(x@)[seen.len() as int] == t);
                    }
                }
                assert forall|t: Seq<char>| #[trigger] seen.push(x@).contains(t) implies texts(out@).contains(t) by {
                    let w = choose|w: int| 0 <= w < seen.push(x@).len() && seen.push(x@)[w] == t;
                    if w < seen.len() {
                        assert(seen[w] == t);
                        assert(seen.contains(t));
                        assert(before.contains(t));
                        let v = choose|v: int| 0 <= v < before.len() && before[v] == t;
                        assert(texts(out@)[v] == t);
                    } else {
                        assert(texts(out@)[before.len() as int] == t);
                    }
                }
            }
        } else {
            proof {
                let last = before.len() - 1;
                assert(before[last] == x@);
                assert forall|t: Seq<char>| #[trigger] texts(out@).contains(t) implies seen.push(x@).contains(t) by {
                    assert(seen.contains(t));
                    let w = choose|w: int| 0 <= w < seen.len() && seen[w] == t;
                    assert(seen.push(x@)[w] == t);
                }
                assert forall|t: Seq<char>| #[trigger] seen.push(x@).contains(t) implies texts(out@).contains(t) by {
                    let w = choose|w: int| 0 <= w < seen.push(x@).len() && seen.push(x@)[w] == t;
                    if w < seen.len() {
                        assert(seen[w] == t);
                        assert(seen.contains(t));
                    } else {
                        assert(before[last] == t);
                    }
                }
            }
        }
        i = i + 1;
    }
    assert(texts(sorted@).take(sorted@.len() as int) =~= texts(sorted@));
    out
}

/// The UI themes to offer: the theme folders found, in ascending order, or
/// the built-in "default" theme when none was found.
pub fn ui_theme_names(found: Vec<String>) -> (r: Vec<String>)
    ensures
        found@.len() == 0 ==> texts(r@) == seq!["default"@],
        found@.len() > 0 ==> ascending(texts(r@)) && texts(r@).to_multiset() == texts(found@).to_multiset(),
{
    if found.len() == 0 {
        let mut r: Vec<String> = Vec::new();
        r.push("default".to_owned());
        assert(texts(r@) =~= seq!["default"@]);
        r
    } else {
        sort_names(found)
    }
}

/// A playable song of the song list.
pub struct SongEntry {
    pub artist: String,
    pub name: String,
    pub asset_path: String,
}

/// Where the chart of song `name` by `artist` is found among the assets.
pub open spec fn song_asset_path(artist: Seq<char>, name: Seq<char>) -> Seq<char> {
    "songs/"@ + artist + "/"@ + name + "/chart.harpchart"@
}

/// The song-list entry for the song folder `name` of the artist folder
/// `artist`.
pub fn song_entry(artist: &str, name: &str) -> (r: SongEntry)
    ensures
        r.artist@ == artist@,
        r.name@ == name@,
        r.asset_path@ == song_asset_path(artist@, name@),
{
    let mut path = String::new();
    path.append("songs/");
    path.append(artist);
    path.append("/");
    path.append(name);
    path.append("/chart.harpchart");
    SongEntry { artist: artist.to_owned(), name: name.to_owned(), asset_path: path }
}

} // verus!
