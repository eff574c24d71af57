//! Glyph fallback for the few symbols the bundled UI font lacks (emoji-range
//! icons and a couple of dingbats used as button icons): which fallback font
//! a character needs, and text split into runs that each need one font.

use vstd::prelude::*;
use crate::text::chars_of;

verus! {

/// Which bundled fallback font a character needs, if any.
#[derive(Debug, Clone, Copy, PartialEq, Eq, Structural)]
pub enum FallbackKind {
    Emoji,
    Symbols,
}

/// The fallback font `c` needs: the emoji font for 🎲 📁 🔊, the symbols font
/// for ✓ ↻, none for anything else.
pub open spec fn kind_of(c: char) -> Option<FallbackKind> {
    if c == '\u{1F3B2}' || c == '\u{1F4C1}' || c == '\u{1F50A}' {
        Some(FallbackKind::Emoji)
    } else if c == '\u{2713}' || c == '\u{21BB}' {
        Some(FallbackKind::Symbols)
    } else {
        None
    }
}

/// Which bundled fallback font `c` needs, if any.
pub fn fallback_kind(c: char) -> (r: Option<FallbackKind>)
    ensures
        r == kind_of(c),
{
    if c == '\u{1F3B2}' || c == '\u{1F4C1}' || c == '\u{1F50A}' {
        Some(FallbackKind::Emoji)
    } else if c == '\u{2713}' || c == '\u{21BB}' {
        Some(FallbackKind::Symbols)
    } else {
        None
    }
}

/// A run of text and the fallback font it needs.
pub type Run = (String, Option<FallbackKind>);

/// The texts of `runs` one after another.
pub open spec fn joined(runs: Seq<Run>) -> Seq<char>
    decreases runs.len(),
{
    if runs.len() == 0 {
        Seq::empty()
    } else {
        joined(runs.drop_last()) + runs.last().0@
    }
}

/// Each run is non-empty and every character of it needs the run's font,
/// and no two neighbouring runs need the same font.
pub open spec fn well_split(runs: Seq<Run>) -> bool {
    &&& forall|i: int| 0 <= i < runs.len() ==> (#[trigger] runs[i]).0@.len() > 0
    &&& forall|i: int, j: int| 0 <= i < runs.len() && 0 <= j < runs[i].0@.len()
        ==> kind_of(#[trigger] runs[i].0@[j]) == runs[i].1
    &&& forall|i: int| 0 < i < runs.len() ==> (#[trigger] runs[i]).1 != runs[i - 1].1
}

fn same_kind(a: Option<FallbackKind>, b: Option<FallbackKind>) -> (r: bool)
    ensures
        r == (a == b),
{
    match (a, b) {
        (None, None) => true,
        (Some(x), Some(y)) => x == y,
        _ => false,
    }
}

/// Splits `text` into runs of consecutive characters that need the same font
/// (or no fallback at all): the runs spell the text, each run needs one font,
/// and neighbouring runs need different ones.
pub fn split_runs(text: &str) -> (r: Vec<Run>)
    ensures
        joined(r@) == text@,
        well_split(r@),
{
    let cs = chars_of(text);
    let mut runs: Vec<Run> = Vec::new();
    let n = cs.len();
    let mut i: usize = 0;
    while i < n
        invariant
            n == cs@.len(),
            cs@ == text@,
            i <= n,
            joined(runs@) == text@.take(i as int),
            well_split(runs@),
        decreases n - i,
    {
        let c = cs[i];
        let kind = fallback_kind(c);
        let ghost before = runs@;
        let len = runs.len();
        if len > 0 && same_kind(runs[len - 1].1, kind) {
            let (mut s, k) = runs.pop().unwrap();
            let ghost old_text = s@;
            s.push(c);
            runs.push((s, k));
            proof {
                assert(runs@.drop_last() =~= before.drop_last());
                assert(joined(runs@) =~= joined(before.drop_last()) + old_text.push(c));
                assert(before.last().0@ == old_text);
                assert(text@.take(i + 1) =~= text@.take(i as int).push(c));
                assert forall|a: int, b: int| 0 <= a < runs@.len() && 0 <= b < runs@[a].0@.len()
                    implies kind_of(#[trigger] runs@[a].0@[b]) == runs@[a].1 by {
                    if a < len - 1 {
                        assert(runs@[a] == before[a]);
                    } else if b < old_text.len() {
                        assert(runs@[a].0@[b] == before[a].0@[b]);
                    }
                }
                assert forall|a: int| 0 < a < runs@.len() implies (#[trigger] runs@[a]).1 != runs@[a - 1].1 by {
                    assert(runs@[a].1 == before[a].1);
                    assert(runs@[a - 1].1 == before[a - 1].1);
                }
                assert forall|a: int| 0 <= a < runs@.len() implies (#[trigger] runs@[a]).0@.len() > 0 by {
                    if a < len - 1 {
                        assert(runs@[a] == before[a]);
                    }
                }
            }
        } else {
            let mut s = String::new();
            s.push(c);
            runs.push((s, kind));
            proof {
                assert(runs@.drop_last() =~= before);
                assert(runs@.last().0@ =~= seq![c]);
                assert(text@.take(i + 1) =~= text@.take(i as int).push(c));
                assert(joined(runs@) =~= text@.take(i + 1));
                assert forall|a: int, b: int| 0 <= a < runs@.len() && 0 <= b < runs@[a].0@.len()
                    implies kind_of(#[trigger] runs@[a].0@[b]) == runs@[a].1 by {
                    if a < len {
                        assert(runs@[a] == before[a]);
                    }
                }
                assert forall|a: int| 0 < a < runs@.len() implies (#[trigger] runs@[a]).1 != runs@[a - 1].1 by {
                    if a < len {
                        assert(runs@[a] == before[a]);
                    }
                    assert(runs@[a - 1] == before[a - 1]);
                }
                assert forall|a: int| 0 <= a < runs@.len() implies (#[trigger] runs@[a]).0@.len() > 0 by {
                    if a < len {
                        assert(runs@[a] == before[a]);
                    }
                }
            }
        }
        i = i + 1;
    }
    assert(text@.take(n as int) =~= text@);
    runs
}

} // verus!
