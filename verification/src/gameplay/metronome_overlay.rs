//! The metronome's click pattern: which ticks click, and which of those are
//! accented. How ticks are counted from the clock and how loud a click is
//! are floating-point and kept by the game loop.

use vstd::prelude::*;
use vstd::arithmetic::div_mod::{lemma_fundamental_div_mod, lemma_fundamental_div_mod_converse, lemma_mod_add_multiples_vanish, lemma_mod_self_0};

verus! {

/// Click subdivision. `Straight` clicks plain quarters; `Shuffle` splits each
/// beat into triplets and clicks the beat and the swung "and" (the long-short
/// blues groove).
#[derive(Debug, Clone, Copy, PartialEq, Eq, Structural)]
pub enum MetronomeFeel {
    Straight,
    Shuffle,
}

impl Default for MetronomeFeel {
    /// Shuffle, since the songs are blues.
    fn default() -> (r: Self)
        ensures
            r == MetronomeFeel::Shuffle,
    {
        MetronomeFeel::Shuffle
    }
}

/// The other feel: what the feel button switches to.
pub fn toggle_feel(feel: MetronomeFeel) -> (r: MetronomeFeel)
    ensures
        r != feel,
{
    match feel {
        MetronomeFeel::Shuffle => MetronomeFeel::Straight,
        MetronomeFeel::Straight => MetronomeFeel::Shuffle,
    }
}

/// A sounding click: a beat, accented on the first beat of a bar, or the
/// softer swung "and" of a shuffle.
#[derive(Debug, Clone, Copy, PartialEq, Eq, Structural)]
pub enum Click {
    Beat { accent: bool },
    SwungAnd,
}

/// Beat `beat` is the first beat of a bar of `beats` beats.
pub open spec fn downbeat(beat: int, beats: int) -> bool {
    beat % beats == 0
}

/// Euclidean quotient and remainder of `a` by a positive `b`.
fn div_rem_euclid(a: i64, b: i64) -> (r: (i64, i64))
    requires
        b >= 1,
    ensures
        r.0 == a as int / b as int,
        r.1 == a as int % b as int,
{
    if a >= 0 {
        (a / b, a % b)
    } else {
        // a == -(p + 1) with p >= 0
        let p = -(a + 1);
        let q = p / b;
        let m = p % b;
        proof {
            lemma_fundamental_div_mod(p as int, b as int);
            assert(a as int == (-q - 1) * (b as int) + (b - 1 - m)) by (nonlinear_arith)
                requires
                    p as int == b * q + m,
                    a as int == -(p + 1),
            ;
            lemma_fundamental_div_mod_converse(a as int, b as int, -q - 1, b - 1 - m);
        }
        (-q - 1, b - 1 - m)
    }
}

/// True when a beat is the first beat of its bar of `beats` beats.
pub fn is_downbeat(beat: i64, beats: i64) -> (r: bool)
    requires
        beats >= 1,
    ensures
        r == downbeat(beat as int, beats as int),
        r == (beat as int % beats as int == 0),
{
    let (_, m) = div_rem_euclid(beat, beats);
    m == 0
}

/// The click for a tick: in straight feel every tick is a beat; in shuffle
/// feel a beat is three triplet ticks, of which the first clicks the beat,
/// the last clicks the swung "and", and the middle one is silent.
pub open spec fn tick_click(tick: int, beats: int, feel: MetronomeFeel) -> Option<Click> {
    match feel {
        MetronomeFeel::Straight => Some(Click::Beat { accent: downbeat(tick, beats) }),
        MetronomeFeel::Shuffle => {
            if tick % 3 == 0 {
                Some(Click::Beat { accent: downbeat(tick / 3, beats) })
            } else if tick % 3 == 2 {
                Some(Click::SwungAnd)
            } else {
                None
            }
        },
    }
}

/// Accents follow the bar length: in straight feel with bars of `b` beats,
/// tick `t` is accented exactly when it is a multiple of `b`, so a whole bar
/// later the accent comes back and, in bars of more than one beat, the tick
/// after a downbeat is never accented.
pub proof fn lemma_straight_accents_follow_the_bar(t: int, b: int)
    requires
        b >= 1,
    ensures
        tick_click(t, b, MetronomeFeel::Straight) == Some(Click::Beat { accent: t % b == 0 }),
        tick_click(t + b, b, MetronomeFeel::Straight) == tick_click(t, b, MetronomeFeel::Straight),
        tick_click(b, b, MetronomeFeel::Straight) == Some(Click::Beat { accent: true }),
        b > 1 && t % b == 0 ==> tick_click(t + 1, b, MetronomeFeel::Straight) == Some(Click::Beat { accent: false }),
{
    lemma_mod_add_multiples_vanish(t, b);
    lemma_mod_self_0(b);
    if b > 1 && t % b == 0 {
        lemma_fundamental_div_mod(t, b);
        let q = t / b;
        assert(t + 1 == q * b + 1) by (nonlinear_arith)
            requires
                t == b * q + 0,
        ;
        lemma_fundamental_div_mod_converse(t + 1, b, q, 1);
    }
}

/// What to play for a tick, with bars of `beats` beats: `None` for a silent
/// subdivision.
pub fn click_for_tick(tick: i64, beats: i64, feel: MetronomeFeel) -> (r: Option<Click>)
    requires
        beats >= 1,
    ensures
        r == tick_click(tick as int, beats as int, feel),
        feel == MetronomeFeel::Straight ==> r == Some(Click::Beat { accent: tick as int % beats as int == 0 }),
        feel == MetronomeFeel::Shuffle ==> r == (if tick as int % 3 == 0 {
            Some(Click::Beat { accent: (tick as int / 3) % beats as int == 0 })
        } else if tick as int % 3 == 2 {
            Some(Click::SwungAnd)
        } else {
            None
        }),
{
    match feel {
        MetronomeFeel::Straight => Some(Click::Beat { accent: is_downbeat(tick, beats) }),
        MetronomeFeel::Shuffle => {
            let (beat, sub) = div_rem_euclid(tick, 3);
            if sub == 0 {
                Some(Click::Beat { accent: is_downbeat(beat, beats) })
            } else if sub == 2 {
                Some(Click::SwungAnd)
            } else {
                None
            }
        },
    }
}

} // verus!
