//! Gameplay bookkeeping that is independent of rendering and audio: the
//! per-song hit tallies, split by the technique each note asks for.

pub mod adaptive_difficulty;
pub mod bending_trainer;
pub mod gameplay_2d;
pub mod harmonica_overlay;
pub mod judging;
pub mod metronome_overlay;
pub mod jam_session;
pub mod pause_menu;
pub mod phrase_overlay;
pub mod scoring;

use vstd::prelude::*;
use crate::gameplay::scoring::HitQuality;
use crate::audio_system::midi::{fits_i32, note_to_midi, note_value, note_value_fits};

verus! {

/// Hit/miss tally for one technique category, so the results screen can show
/// "your bends land, your overblows don't" instead of one blended accuracy.
#[derive(Debug, Default, Clone, Copy, PartialEq, Eq, Structural)]
pub struct TechniqueStats {
    pub hits: u32,
    pub misses: u32,
}

impl TechniqueStats {
    /// How many notes of this technique were judged.
    pub fn total(&self) -> (r: u32)
        requires
            self.hits + self.misses <= u32::MAX,
        ensures
            r == self.hits + self.misses,
    {
        self.hits + self.misses
    }
}

/// The technique a chart modifier asks for (its parameters do not matter to
/// the tallies).
#[derive(Debug, Clone, Copy, PartialEq, Eq, Structural)]
pub enum ModifierKind {
    Bend,
    Overblow,
    Overdraw,
    Slide,
    Vibrato,
    WahWah,
}

/// The name a technique goes by in a chart's style-bonus table and in the
/// feedback effects.
pub open spec fn fx_key(m: ModifierKind) -> Seq<char> {
    match m {
        ModifierKind::Bend => "bend"@,
        ModifierKind::Vibrato => "vibrato"@,
        ModifierKind::WahWah => "wah-wah"@,
        ModifierKind::Overblow => "overblow"@,
        ModifierKind::Overdraw => "overdraw"@,
        ModifierKind::Slide => "slide"@,
    }
}

/// The style-bonus/effects key of a technique.
pub fn modifier_fx_key(m: ModifierKind) -> (r: &'static str)
    ensures
        r@ == fx_key(m),
{
    match m {
        ModifierKind::Bend => "bend",
        ModifierKind::Vibrato => "vibrato",
        ModifierKind::WahWah => "wah-wah",
        ModifierKind::Overblow => "overblow",
        ModifierKind::Overdraw => "overdraw",
        ModifierKind::Slide => "slide",
    }
}

/// Vibrato and wah are articulations sustained through the note, judged at
/// the end of it; bends, overblows, overdraws and slides are judged at the onset.
pub fn is_sustained_technique(m: ModifierKind) -> (r: bool)
    ensures
        r == (m == ModifierKind::Vibrato || m == ModifierKind::WahWah),
{
    match m {
        ModifierKind::Vibrato | ModifierKind::WahWah => true,
        _ => false,
    }
}

/// Per-song hit tally shown on the results screen: hits by timing quality
/// (`good` are on-time/early Good hits, `delayed` late ones), misses, and a
/// hit/miss tally per technique.
#[derive(Debug, Default, Clone, Copy, PartialEq, Eq, Structural)]
pub struct SongStats {
    pub perfect: u32,
    pub good: u32,
    pub delayed: u32,
    pub miss: u32,
    /// Notes with no technique modifier at all.
    pub normal: TechniqueStats,
    pub bend: TechniqueStats,
    pub overblow: TechniqueStats,
    pub overdraw: TechniqueStats,
    /// Chromatic harmonica's slide button.
    pub slide: TechniqueStats,
    pub vibrato: TechniqueStats,
    pub wah: TechniqueStats,
    /// Onset hits where no other harp pitch sounded alongside the expected one.
    pub clean_attack: TechniqueStats,
    /// Onset hits/misses of the notes of chords.
    pub chord: TechniqueStats,
}

/// The tally a technique is counted in.
pub open spec fn bucket(s: SongStats, m: ModifierKind) -> TechniqueStats {
    match m {
        ModifierKind::Bend => s.bend,
        ModifierKind::Overblow => s.overblow,
        ModifierKind::Overdraw => s.overdraw,
        ModifierKind::Slide => s.slide,
        ModifierKind::Vibrato => s.vibrato,
        ModifierKind::WahWah => s.wah,
    }
}

/// How often `m` occurs in `mods`.
pub open spec fn occurrences(mods: Seq<ModifierKind>, m: ModifierKind) -> nat
    decreases mods.len(),
{
    if mods.len() == 0 {
        0
    } else {
        occurrences(mods.drop_last(), m) + if mods.last() == m { 1nat } else { 0nat }
    }
}

/// `t` with `n` more hits (when `hit`) or misses.
pub open spec fn counted(t: TechniqueStats, n: nat, hit: bool) -> TechniqueStats {
    if hit {
        TechniqueStats { hits: (t.hits + n) as u32, misses: t.misses }
    } else {
        TechniqueStats { hits: t.hits, misses: (t.misses + n) as u32 }
    }
}

/// `t` can take `n` more hits (when `hit`) or misses without overflowing.
pub open spec fn has_room(t: TechniqueStats, n: nat, hit: bool) -> bool {
    if hit { t.hits + n <= u32::MAX } else { t.misses + n <= u32::MAX }
}

/// Every tally a note with `mods` counts toward has room for it.
pub open spec fn room_for(s: SongStats, mods: Seq<ModifierKind>, hit: bool) -> bool {
    &&& mods.len() == 0 ==> has_room(s.normal, 1, hit)
    &&& forall|m: ModifierKind| has_room(#[trigger] bucket(s, m), occurrences(mods, m), hit)
}

/// Adds one hit (when `hit`) or miss to `stats`.
pub fn bump(stats: &mut TechniqueStats, hit: bool)
    requires
        has_room(*old(stats), 1, hit),
    ensures
        *final(stats) == counted(*old(stats), 1, hit),
{
    if hit {
        stats.hits = stats.hits + 1;
    } else {
        stats.misses = stats.misses + 1;
    }
}

impl SongStats {
    /// Tallies a note's hit/miss outcome against every technique modifier it
    /// carries (a note can have several, e.g. Bend + Vibrato — it counts
    /// toward each), or `normal` if it has none.
    pub fn record_technique(&mut self, modifiers: &[ModifierKind], hit: bool)
        requires
            room_for(*old(self), modifiers@, hit),
        ensures
            *final(self) == counted_buckets(*old(self), modifiers@, hit),
    {
        if modifiers.len() == 0 {
            bump(&mut self.normal, hit);
            assert(forall|m: ModifierKind| occurrences(modifiers@, m) == 0);
            return;
        }
        let ghost start = *self;
        let n = modifiers.len();
        let mut i: usize = 0;
        while i < n
            invariant
                n == modifiers@.len(),
                n > 0,
                i <= n,
                room_for(start, modifiers@, hit),
                self.normal == start.normal,
                self.perfect == start.perfect,
                self.good == start.good,
                self.delayed == start.delayed,
                self.miss == start.miss,
                self.clean_attack == start.clean_attack,
                self.chord == start.chord,
                forall|m: ModifierKind| #[trigger] bucket(*self, m)
                    == counted(bucket(start, m), occurrences(modifiers@.take(i as int), m), hit),
            decreases n - i,
        {
            let m = modifiers[i];
            proof {
                assert(modifiers@.take(i + 1).drop_last() =~= modifiers@.take(i as int));
                lemma_occurrences_prefix(modifiers@, i + 1, m);
                assert(modifiers@.take(i + 1).last() == m);
                assert(occurrences(modifiers@.take(i + 1), m) == occurrences(modifiers@.take(i as int), m) + 1);
                assert(has_room(bucket(start, m), occurrences(modifiers@, m), hit));
                assert(has_room(bucket(*self, m), 1, hit));
            }
            let ghost before = *self;
            match m {
                ModifierKind::Bend => bump(&mut self.bend, hit),
                ModifierKind::Overblow => bump(&mut self.overblow, hit),
                ModifierKind::Overdraw => bump(&mut self.overdraw, hit),
                ModifierKind::Slide => bump(&mut self.slide, hit),
                ModifierKind::Vibrato => bump(&mut self.vibrato, hit),
                ModifierKind::WahWah => bump(&mut self.wah, hit),
            }
            assert forall|k: ModifierKind| #[trigger] bucket(*self, k)
                == counted(bucket(start, k), occurrences(modifiers@.take(i + 1), k), hit) by {
                assert(bucket(before, k) == counted(bucket(start, k), occurrences(modifiers@.take(i as int), k), hit));
            }
            i = i + 1;
        }
        assert(modifiers@.take(n as int) =~= modifiers@);
        proof {
            lemma_buckets_determine(start, *self, modifiers@, hit);
        }
    }
}

/// `s` with a note carrying `mods` counted as a hit (`hit`) or miss: in the
/// tally of each modifier it carries (once per occurrence), or in `normal`
/// when it carries none.
pub open spec fn counted_buckets(s: SongStats, mods: Seq<ModifierKind>, hit: bool) -> SongStats {
    SongStats {
        normal: if mods.len() == 0 { counted(s.normal, 1, hit) } else { s.normal },
        bend: counted(s.bend, occurrences(mods, ModifierKind::Bend), hit),
        overblow: counted(s.overblow, occurrences(mods, ModifierKind::Overblow), hit),
        overdraw: counted(s.overdraw, occurrences(mods, ModifierKind::Overdraw), hit),
        slide: counted(s.slide, occurrences(mods, ModifierKind::Slide), hit),
        vibrato: counted(s.vibrato, occurrences(mods, ModifierKind::Vibrato), hit),
        wah: counted(s.wah, occurrences(mods, ModifierKind::WahWah), hit),
        ..s
    }
}

proof fn lemma_buckets_determine(start: SongStats, s: SongStats, mods: Seq<ModifierKind>, hit: bool)
    requires
        mods.len() > 0,
        s.normal == start.normal,
        s.perfect == start.perfect,
        s.good == start.good,
        s.delayed == start.delayed,
        s.miss == start.miss,
        s.clean_attack == start.clean_attack,
        s.chord == start.chord,
        forall|m: ModifierKind| #[trigger] bucket(s, m) == counted(bucket(start, m), occurrences(mods, m), hit),
    ensures
        s == counted_buckets(start, mods, hit),
{
    assert(bucket(s, ModifierKind::Bend) == counted(bucket(start, ModifierKind::Bend), occurrences(mods, ModifierKind::Bend), hit));
    assert(bucket(s, ModifierKind::Overblow) == counted(bucket(start, ModifierKind::Overblow), occurrences(mods, ModifierKind::Overblow), hit));
    assert(bucket(s, ModifierKind::Overdraw) == counted(bucket(start, ModifierKind::Overdraw), occurrences(mods, ModifierKind::Overdraw), hit));
    assert(bucket(s, ModifierKind::Slide) == counted(bucket(start, ModifierKind::Slide), occurrences(mods, ModifierKind::Slide), hit));
    assert(bucket(s, ModifierKind::Vibrato) == counted(bucket(start, ModifierKind::Vibrato), occurrences(mods, ModifierKind::Vibrato), hit));
    assert(bucket(s, ModifierKind::WahWah) == counted(bucket(start, ModifierKind::WahWah), occurrences(mods, ModifierKind::WahWah), hit));
}

/// Counting the first `k` modifiers never counts more than all of them.
proof fn lemma_occurrences_prefix(mods: Seq<ModifierKind>, k: int, m: ModifierKind)
    requires
        0 <= k <= mods.len(),
    ensures
        occurrences(mods.take(k), m) <= occurrences(mods, m),
    decreases mods.len(),
{
    if k < mods.len() {
        assert(mods.drop_last().take(k) =~= mods.take(k));
        lemma_occurrences_prefix(mods.drop_last(), k, m);
    } else {
        assert(mods.take(k) =~= mods);
    }
}

impl SongStats {
    /// Counts a hit of the given quality; a Good hit after the target time
    /// (`late`) is a delayed hit.
    pub fn record_hit(&mut self, quality: HitQuality, late: bool)
        requires
            match quality {
                HitQuality::Perfect => old(self).perfect < u32::MAX,
                HitQuality::Good => if late { old(self).delayed < u32::MAX } else { old(self).good < u32::MAX },
            },
        ensures
            *final(self) == match quality {
                HitQuality::Perfect => SongStats { perfect: (old(self).perfect + 1) as u32, ..*old(self) },
                HitQuality::Good => if late {
                    SongStats { delayed: (old(self).delayed + 1) as u32, ..*old(self) }
                } else {
                    SongStats { good: (old(self).good + 1) as u32, ..*old(self) }
                },
            },
    {
        match quality {
            HitQuality::Perfect => self.perfect = self.perfect + 1,
            HitQuality::Good => {
                if late {
                    self.delayed = self.delayed + 1;
                } else {
                    self.good = self.good + 1;
                }
            },
        }
    }
}

/// The MIDI note a player must produce for a note whose natural pitch is
/// named `natural`, bent by `bend` semitones (negative = down): `None` when
/// the name is not a note (such as the dash of a hole the harp can't play) or
/// the bent pitch leaves the MIDI range 0..=127.
pub fn target_pitch(natural: &str, bend: i32) -> (r: Option<u8>)
    requires
        note_value_fits(natural@),
        note_value(natural@) matches Some(v) ==> fits_i32(v + bend),
    ensures
        match note_value(natural@) {
            Some(v) => if 0 <= v + bend <= 127 { r == Some((v + bend) as u8) } else { r is None },
            None => r is None,
        },
{
    match note_to_midi(natural) {
        Some(m) => {
            let midi = m + bend;
            if 0 <= midi && midi <= 127 {
                Some(midi as u8)
            } else {
                None
            }
        },
        None => None,
    }
}

// ── Judged notes ────────────────────────────────────────────────────────────

/// Score state of a song: points, the current combo and the best combo so
/// far. (The clock time of the last hit, which combo decay reads, is kept by
/// the game loop.)
#[derive(Debug, Default, Clone, Copy, PartialEq, Eq, Structural)]
pub struct Score {
    pub points: u32,
    pub combo: u32,
    pub max_combo: u32,
}

/// The best combo is never below the current one.
pub open spec fn combo_within_best(s: Score) -> bool {
    s.combo <= s.max_combo
}

/// Vibrato and wah are judged over the sustain, not at the onset.
pub open spec fn is_sustained(m: ModifierKind) -> bool {
    m == ModifierKind::Vibrato || m == ModifierKind::WahWah
}

/// The modifiers of `mods` that are judged at the onset, in order.
pub open spec fn onset_modifiers(mods: Seq<ModifierKind>) -> Seq<ModifierKind>
    decreases mods.len(),
{
    if mods.len() == 0 {
        Seq::empty()
    } else if is_sustained(mods.last()) {
        onset_modifiers(mods.drop_last())
    } else {
        onset_modifiers(mods.drop_last()).push(mods.last())
    }
}

/// The modifiers judged at the onset: all but vibrato and wah.
pub fn onset_techniques(modifiers: &[ModifierKind]) -> (r: Vec<ModifierKind>)
    ensures
        r@ == onset_modifiers(modifiers@),
{
    let mut r: Vec<ModifierKind> = Vec::new();
    let n = modifiers.len();
    let mut i: usize = 0;
    while i < n
        invariant
            n == modifiers@.len(),
            i <= n,
            r@ == onset_modifiers(modifiers@.take(i as int)),
        decreases n - i,
    {
        let m = modifiers[i];
        assert(modifiers@.take(i + 1).drop_last() =~= modifiers@.take(i as int));
        if !is_sustained_technique(m) {
            r.push(m);
        }
        i = i + 1;
    }
    assert(modifiers@.take(n as int) =~= modifiers@);
    r
}

/// The tally after a note carrying `mods` is missed at its onset; `chord`
/// when it belongs to a chord.
pub open spec fn tallied_miss(s: SongStats, mods: Seq<ModifierKind>, chord: bool) -> SongStats {
    let t = counted_buckets(s, mods, false);
    SongStats {
        miss: (s.miss + 1) as u32,
        chord: if chord { counted(s.chord, 1, false) } else { s.chord },
        ..t
    }
}

/// Counts a note missed at its onset: a miss, a miss for each technique it
/// carries (or for `normal`), a chord miss for a chord note; and with combo
/// scoring on, the combo breaks.
pub fn register_miss(stats: &mut SongStats, score: &mut Score, modifiers: &[ModifierKind], chord: bool, combo_enabled: bool)
    requires
        old(stats).miss < u32::MAX,
        room_for(*old(stats), modifiers@, false),
        chord ==> has_room(old(stats).chord, 1, false),
    ensures
        *final(stats) == tallied_miss(*old(stats), modifiers@, chord),
        final(stats).miss == old(stats).miss + 1,
        final(stats).perfect == old(stats).perfect,
        final(stats).good == old(stats).good,
        final(stats).delayed == old(stats).delayed,
        *final(score) == (if combo_enabled { Score { combo: 0, ..*old(score) } } else { *old(score) }),
        combo_within_best(*old(score)) ==> combo_within_best(*final(score)),
{
    stats.miss = stats.miss + 1;
    let ghost after_miss = *stats;
    assert forall|m: ModifierKind| #[trigger] bucket(after_miss, m) == bucket(*old(stats), m) by {}
    assert(room_for(after_miss, modifiers@, false));
    stats.record_technique(modifiers, false);
    assert(*stats == counted_buckets(after_miss, modifiers@, false));
    if chord {
        bump(&mut stats.chord, false);
    }
    if combo_enabled {
        score.combo = 0;
    }
}

/// The technique tallies after a note carrying `mods` is hit at its onset:
/// its onset techniques each count a hit (a note without modifiers counts
/// for `normal`; one with only sustained techniques counts nothing yet).
pub open spec fn onset_counted(s: SongStats, mods: Seq<ModifierKind>) -> SongStats {
    if mods.len() == 0 || onset_modifiers(mods).len() > 0 {
        counted_buckets(s, onset_modifiers(mods), true)
    } else {
        s
    }
}

/// The tally after a note carrying `mods` is hit at its onset with timing
/// `quality` (`late` for after the target time): its onset techniques, then
/// a chord hit for a chord note or else a clean or unclean attack, then the
/// timing quality.
pub open spec fn tallied_hit(s: SongStats, quality: crate::gameplay::scoring::HitQuality, late: bool,
    mods: Seq<ModifierKind>, chord: bool, clean: bool) -> SongStats {
    let t = onset_counted(s, mods);
    let u = if chord {
        SongStats { chord: counted(t.chord, 1, true), ..t }
    } else {
        SongStats { clean_attack: counted(t.clean_attack, 1, clean), ..t }
    };
    match quality {
        HitQuality::Perfect => SongStats { perfect: (u.perfect + 1) as u32, ..u },
        HitQuality::Good => if late {
            SongStats { delayed: (u.delayed + 1) as u32, ..u }
        } else {
            SongStats { good: (u.good + 1) as u32, ..u }
        },
    }
}

/// Counts a note hit at its onset (see [`tallied_hit`]) and extends the
/// combo, raising the best combo with it. `clean` tells whether no other
/// harp pitch sounded with a single note. Points are added by the caller,
/// whose multiplier reads the new combo.
pub fn register_hit(stats: &mut SongStats, score: &mut Score, quality: HitQuality, late: bool,
    modifiers: &[ModifierKind], chord: bool, clean: bool)
    requires
        (modifiers@.len() == 0 || onset_modifiers(modifiers@).len() > 0)
            ==> room_for(*old(stats), onset_modifiers(modifiers@), true),
        chord ==> has_room(old(stats).chord, 1, true),
        !chord ==> has_room(old(stats).clean_attack, 1, clean),
        match quality {
            HitQuality::Perfect => old(stats).perfect < u32::MAX,
            HitQuality::Good => if late { old(stats).delayed < u32::MAX } else { old(stats).good < u32::MAX },
        },
        old(score).combo < u32::MAX,
    ensures
        *final(stats) == tallied_hit(*old(stats), quality, late, modifiers@, chord, clean),
        final(stats).miss == old(stats).miss,
        final(stats).perfect == old(stats).perfect + (if quality == HitQuality::Perfect { 1int } else { 0int }),
        final(stats).good == old(stats).good + (if quality == HitQuality::Good && !late { 1int } else { 0int }),
        final(stats).delayed == old(stats).delayed + (if quality == HitQuality::Good && late { 1int } else { 0int }),
        final(score).combo == old(score).combo + 1,
        final(score).max_combo == if old(score).combo + 1 > old(score).max_combo {
            old(score).combo + 1
        } else {
            old(score).max_combo as int
        },
        final(score).points == old(score).points,
        combo_within_best(*final(score)),
{
    let onset = onset_techniques(modifiers);
    if modifiers.len() == 0 || onset.len() > 0 {
        stats.record_technique(onset.as_slice(), true);
    }
    if chord {
        bump(&mut stats.chord, true);
    } else {
        bump(&mut stats.clean_attack, clean);
    }
    stats.record_hit(quality, late);
    score.combo = score.combo + 1;
    if score.combo > score.max_combo {
        score.max_combo = score.combo;
    }
}

/// The technique tallies once a note's sustain ends: its sustained
/// techniques the player was heard doing count as hits, the others as misses.
pub open spec fn sustain_counted(s: SongStats, verified: Seq<ModifierKind>, unverified: Seq<ModifierKind>) -> SongStats {
    let t = if verified.len() > 0 { counted_buckets(s, verified, true) } else { s };
    if unverified.len() > 0 { counted_buckets(t, unverified, false) } else { t }
}

/// Counts the sustained techniques of a note at the end of its sustain:
/// `verified` (heard) as hits, `unverified` as misses; an empty list counts
/// nothing (it does not fall back to `normal`).
pub fn register_sustain_end(stats: &mut SongStats, verified: &[ModifierKind], unverified: &[ModifierKind])
    requires
        verified@.len() > 0 ==> room_for(*old(stats), verified@, true),
        unverified@.len() > 0 ==> room_for(
            if verified@.len() > 0 { counted_buckets(*old(stats), verified@, true) } else { *old(stats) },
            unverified@,
            false,
        ),
    ensures
        *final(stats) == sustain_counted(*old(stats), verified@, unverified@),
{
    if verified.len() > 0 {
        stats.record_technique(verified, true);
    }
    if unverified.len() > 0 {
        stats.record_technique(unverified, false);
    }
}

impl Score {
    /// Adds `p` points.
    pub fn add_points(&mut self, p: u32)
        requires
            old(self).points + p <= u32::MAX,
        ensures
            *final(self) == (Score { points: (old(self).points + p) as u32, ..*old(self) }),
    {
        self.points = self.points + p;
    }
}

} // verus!
