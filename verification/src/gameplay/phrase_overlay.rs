//! The phrase/groove banner: which phrase and groove are in effect, and the
//! banner's text.

use vstd::prelude::*;
use crate::text::chars_of;

verus! {

/// The most recent tag among `tags` that is present, if any.
pub open spec fn latest_declared<'a>(tags: Seq<Option<&'a str>>) -> Option<&'a str>
    decreases tags.len(),
{
    if tags.len() == 0 {
        None
    } else if tags.last() is Some {
        tags.last()
    } else {
        latest_declared(tags.drop_last())
    }
}

/// The phrase tags of `items`.
pub open spec fn phrase_tags<'a>(items: Seq<(Option<&'a str>, Option<&'a str>)>) -> Seq<Option<&'a str>> {
    items.map_values(|it: (Option<&'a str>, Option<&'a str>)| it.0)
}

/// The groove tags of `items`.
pub open spec fn groove_tags<'a>(items: Seq<(Option<&'a str>, Option<&'a str>)>) -> Seq<Option<&'a str>> {
    items.map_values(|it: (Option<&'a str>, Option<&'a str>)| it.1)
}

/// The phrase and groove in effect after the `(phrase, groove)` tags of the
/// track items that have started, in track order: each persists from the
/// most recent item that declared one.
pub fn latest_phrase_groove<'a>(started: &[(Option<&'a str>, Option<&'a str>)]) -> (r: (Option<&'a str>, Option<&'a str>))
    ensures
        r.0 == latest_declared(phrase_tags(started@)),
        r.1 == latest_declared(groove_tags(started@)),
{
    let mut phrase: Option<&'a str> = None;
    let mut groove: Option<&'a str> = None;
    let mut i: usize = 0;
    while i < started.len()
        invariant
            i <= started@.len(),
            phrase == latest_declared(phrase_tags(started@.take(i as int))),
            groove == latest_declared(groove_tags(started@.take(i as int))),
        decreases started@.len() - i,
    {
        let (p, g) = started[i];
        assert(phrase_tags(started@.take(i + 1)).drop_last() =~= phrase_tags(started@.take(i as int)));
        assert(groove_tags(started@.take(i + 1)).drop_last() =~= groove_tags(started@.take(i as int)));
        assert(phrase_tags(started@.take(i + 1)).last() == p);
        assert(groove_tags(started@.take(i + 1)).last() == g);
        if p.is_some() {
            phrase = p;
        }
        if g.is_some() {
            groove = g;
        }
        i = i + 1;
    }
    assert(started@.take(started@.len() as int) =~= started@);
    (phrase, groove)
}

/// `s` with every underscore turned into a space.
pub open spec fn spaced(s: Seq<char>) -> Seq<char> {
    s.map_values(|c: char| if c == '_' { ' ' } else { c })
}

/// Appends `s` with underscores read as spaces.
fn push_spaced(out: &mut String, s: &str)
    ensures
        final(out)@ == old(out)@ + spaced(s@),
{
    let cs = chars_of(s);
    let n = cs.len();
    let mut i: usize = 0;
    while i < n
        invariant
            n == s@.len(),
            cs@ == s@,
            i <= n,
            out@ == old(out)@ + spaced(s@).take(i as int),
        decreases n - i,
    {
        let c = cs[i];
        out.push(if c == '_' { ' ' } else { c });
        assert(spaced(s@).take(i + 1) =~= spaced(s@).take(i as int).push(if c == '_' { ' ' } else { c }));
        i = i + 1;
    }
    assert(spaced(s@).take(n as int) =~= spaced(s@));
}

/// The banner for a phrase/groove pair: "♪ phrase  ·  groove", either part
/// alone, or nothing.
pub open spec fn phrase_label(phrase: Option<Seq<char>>, groove: Option<Seq<char>>) -> Seq<char> {
    match (phrase, groove) {
        (Some(p), Some(g)) => "\u{266A} "@ + spaced(p) + "  \u{00B7}  "@ + g,
        (Some(p), None) => "\u{266A} "@ + spaced(p),
        (None, Some(g)) => "\u{266A} "@ + g,
        (None, None) => Seq::empty(),
    }
}

/// Renders the banner text for a phrase/groove pair. Underscores in phrase
/// names become spaces so chart ids like `boom_shuffle` read naturally.
pub fn format_phrase_label(phrase: Option<&str>, groove: Option<&str>) -> (r: String)
    ensures
        r@ == phrase_label(
            match phrase { Some(p) => Some(p@), None => None },
            match groove { Some(g) => Some(g@), None => None },
        ),
{
    let mut s = String::new();
    match (phrase, groove) {
        (Some(p), Some(g)) => {
            s.append("\u{266A} ");
            push_spaced(&mut s, p);
            s.append("  \u{00B7}  ");
            s.append(g);
        },
        (Some(p), None) => {
            s.append("\u{266A} ");
            push_spaced(&mut s, p);
        },
        (None, Some(g)) => {
            s.append("\u{266A} ");
            s.append(g);
        },
        (None, None) => {},
    }
    s
}

} // verus!
