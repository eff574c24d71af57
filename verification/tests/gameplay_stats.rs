use harmonicon::gameplay::scoring::{base_points, HitQuality, NoteOutcome, GOOD_POINTS, PERFECT_POINTS};
use harmonicon::gameplay::{bump, is_sustained_technique, modifier_fx_key, ModifierKind, SongStats, TechniqueStats};

#[test]
fn technique_stats_accuracy_divides_hits_by_total() {
    let s = TechniqueStats { hits: 3, misses: 1 };
    assert_eq!(s.total(), 4);
    assert!((s.hits as f32 / s.total() as f32 - 0.75).abs() < 1e-6);
}

#[test]
fn record_technique_with_no_modifiers_goes_to_normal() {
    let mut stats = SongStats::default();
    stats.record_technique(&[], true);
    stats.record_technique(&[], false);
    assert_eq!(stats.normal.hits, 1);
    assert_eq!(stats.normal.misses, 1);
    assert_eq!(stats.bend.total(), 0);
}

#[test]
fn record_technique_routes_each_modifier_to_its_own_bucket() {
    let mut stats = SongStats::default();
    stats.record_technique(&[ModifierKind::Bend], true);
    stats.record_technique(&[ModifierKind::Overblow], false);
    stats.record_technique(&[ModifierKind::Vibrato], true);
    stats.record_technique(&[ModifierKind::WahWah], true);
    stats.record_technique(&[ModifierKind::Overdraw], true);
    stats.record_technique(&[ModifierKind::Slide], true);

    assert_eq!(stats.bend.hits, 1);
    assert_eq!(stats.overblow.misses, 1);
    assert_eq!(stats.vibrato.hits, 1);
    assert_eq!(stats.wah.hits, 1);
    assert_eq!(stats.overdraw.hits, 1);
    assert_eq!(stats.slide.hits, 1);
    assert_eq!(stats.normal.total(), 0, "no plain notes were recorded");
}

#[test]
fn record_technique_with_two_modifiers_credits_both() {
    // A note that's both bent and vibrato'd counts as a data point for
    // both techniques' accuracy.
    let mut stats = SongStats::default();
    stats.record_technique(&[ModifierKind::Bend, ModifierKind::Vibrato], true);
    assert_eq!(stats.bend.hits, 1);
    assert_eq!(stats.vibrato.hits, 1);
}

#[test]
fn record_technique_counts_a_repeated_modifier_each_time() {
    let mut stats = SongStats::default();
    stats.record_technique(&[ModifierKind::Bend, ModifierKind::Bend], false);
    assert_eq!(stats.bend, TechniqueStats { hits: 0, misses: 2 });
    assert_eq!(stats.normal.total(), 0);
}

#[test]
fn record_hit_splits_good_hits_by_lateness() {
    let mut stats = SongStats::default();
    stats.record_hit(HitQuality::Perfect, true);
    stats.record_hit(HitQuality::Good, false);
    stats.record_hit(HitQuality::Good, true);
    stats.record_hit(HitQuality::Good, true);
    assert_eq!((stats.perfect, stats.good, stats.delayed, stats.miss), (1, 1, 2, 0));
}

#[test]
fn bump_adds_one_to_the_right_side() {
    let mut t = TechniqueStats { hits: 5, misses: 7 };
    bump(&mut t, true);
    bump(&mut t, false);
    assert_eq!(t, TechniqueStats { hits: 6, misses: 8 });
}

#[test]
fn modifier_fx_keys_match_technique_names() {
    assert_eq!(modifier_fx_key(ModifierKind::Bend), "bend");
    assert_eq!(modifier_fx_key(ModifierKind::Vibrato), "vibrato");
    assert_eq!(modifier_fx_key(ModifierKind::WahWah), "wah-wah");
    assert_eq!(modifier_fx_key(ModifierKind::Overblow), "overblow");
    assert_eq!(modifier_fx_key(ModifierKind::Overdraw), "overdraw");
    assert_eq!(modifier_fx_key(ModifierKind::Slide), "slide");
}

#[test]
fn vibrato_and_wah_are_sustained_bend_and_overblow_are_not() {
    assert!(is_sustained_technique(ModifierKind::Vibrato));
    assert!(is_sustained_technique(ModifierKind::WahWah));
    assert!(!is_sustained_technique(ModifierKind::Bend));
    assert!(!is_sustained_technique(ModifierKind::Overblow));
    assert!(!is_sustained_technique(ModifierKind::Overdraw));
    assert!(!is_sustained_technique(ModifierKind::Slide));
}

#[test]
fn base_points_per_quality() {
    assert_eq!(base_points(HitQuality::Perfect), PERFECT_POINTS);
    assert_eq!(base_points(HitQuality::Good), GOOD_POINTS);
    assert_eq!((PERFECT_POINTS, GOOD_POINTS), (100, 50));
    assert_ne!(NoteOutcome::Hit(HitQuality::Good), NoteOutcome::Hit(HitQuality::Perfect));
}

use harmonicon::gameplay::target_pitch;

#[test]
fn bend_targets_the_bent_pitch() {
    // A 1-semitone draw bend on B4 (71) must be played as A#4 (70), not the
    // natural B4.
    assert_eq!(target_pitch("B4", -1), Some(70));
}

#[test]
fn deeper_bend_targets_lower_pitch() {
    assert_eq!(target_pitch("B4", -2), Some(69)); // A4
}

#[test]
fn non_bend_techniques_keep_the_natural_pitch() {
    assert_eq!(target_pitch("D5", 0), Some(74));
}

#[test]
fn unknown_pitch_name_has_no_target() {
    // The "—" placeholder for a hole/direction the harp can't produce isn't a
    // parseable note name, so there's no valid target at all.
    assert_eq!(target_pitch("\u{2014}", -1), None);
}

#[test]
fn target_pitch_stays_in_the_midi_range() {
    assert_eq!(target_pitch("C-1", -1), None);
    assert_eq!(target_pitch("G9", 0), Some(127));
    assert_eq!(target_pitch("G9", 1), None);
}

use harmonicon::gameplay::{onset_techniques, register_hit, register_miss, register_sustain_end, Score};

#[test]
fn onset_techniques_drop_vibrato_and_wah() {
    let mods = [ModifierKind::Vibrato, ModifierKind::Bend, ModifierKind::WahWah, ModifierKind::Overdraw];
    assert_eq!(onset_techniques(&mods), vec![ModifierKind::Bend, ModifierKind::Overdraw]);
    assert!(onset_techniques(&[ModifierKind::Vibrato]).is_empty());
}

#[test]
fn a_miss_breaks_the_combo_only_with_combo_scoring() {
    let mut stats = SongStats::default();
    let mut score = Score { points: 300, combo: 3, max_combo: 5 };
    register_miss(&mut stats, &mut score, &[ModifierKind::Bend], true, true);
    assert_eq!(score, Score { points: 300, combo: 0, max_combo: 5 });
    assert_eq!((stats.miss, stats.bend.misses, stats.chord.misses, stats.normal.total()), (1, 1, 1, 0));

    let mut score = Score { points: 0, combo: 2, max_combo: 2 };
    register_miss(&mut stats, &mut score, &[], false, false);
    assert_eq!(score.combo, 2);
    assert_eq!((stats.miss, stats.normal.misses, stats.chord.misses), (2, 1, 1));
}

#[test]
fn a_hit_extends_the_combo_and_tallies_the_onset() {
    let mut stats = SongStats::default();
    let mut score = Score { points: 0, combo: 4, max_combo: 4 };
    register_hit(&mut stats, &mut score, HitQuality::Good, true, &[ModifierKind::Bend, ModifierKind::Vibrato], false, true);
    assert_eq!(score, Score { points: 0, combo: 5, max_combo: 5 });
    assert_eq!((stats.delayed, stats.good, stats.perfect), (1, 0, 0));
    assert_eq!(stats.bend.hits, 1);
    assert_eq!(stats.vibrato.total(), 0, "vibrato is judged at the end of the sustain");
    assert_eq!(stats.clean_attack.hits, 1);

    // A note with only sustained techniques counts nothing at the onset.
    register_hit(&mut stats, &mut score, HitQuality::Perfect, false, &[ModifierKind::WahWah], true, false);
    assert_eq!((stats.wah.total(), stats.normal.total(), stats.chord.hits, stats.perfect), (0, 0, 1, 1));

    // A plain note counts for `normal`; an unclean single note counts a miss
    // of the clean-attack tally.
    register_hit(&mut stats, &mut score, HitQuality::Good, false, &[], false, false);
    assert_eq!((stats.normal.hits, stats.clean_attack.misses, stats.good), (1, 1, 1));
    assert_eq!(score.combo, 7);
}

#[test]
fn best_combo_is_kept_after_a_break() {
    let mut stats = SongStats::default();
    let mut score = Score::default();
    for _ in 0..3 {
        register_hit(&mut stats, &mut score, HitQuality::Perfect, false, &[], false, true);
    }
    register_miss(&mut stats, &mut score, &[], false, true);
    register_hit(&mut stats, &mut score, HitQuality::Perfect, false, &[], false, true);
    assert_eq!((score.combo, score.max_combo), (1, 3));
    score.add_points(150);
    assert_eq!(score.points, 150);
}

#[test]
fn sustain_end_counts_heard_and_unheard_techniques() {
    let mut stats = SongStats::default();
    register_sustain_end(&mut stats, &[ModifierKind::Vibrato], &[ModifierKind::WahWah]);
    assert_eq!((stats.vibrato.hits, stats.wah.misses), (1, 1));
    register_sustain_end(&mut stats, &[], &[]);
    assert_eq!(stats.normal.total(), 0, "nothing to count does not fall back to normal");
}
