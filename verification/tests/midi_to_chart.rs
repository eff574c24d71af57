use std::path::Path;

use harmonicon::midi_file::{
    find_track, note_on_count, parse_usize, select_track, track_display_name, track_name_of,
    EventKind, MidiFile, TrackEvent,
};
use harmonicon::midi_load::load_midi;
use harmonicon::midi_timeline::{
    collect_tempo_map, extract_notes, file_ticks_fit, first_time_signature, total_ticks, Note,
    DEFAULT_TEMPO_US,
};
use harmonicon::midi_to_chart::{
    build_pitch_maps, c_richter_blow, c_richter_draw, chart_item_id, chart_items, map_pitch,
    processed_path, song_title, HarpAction,
};
use harmonicon::audio_system::midi::note_to_midi;

fn meta(delta: u32, kind: EventKind) -> TrackEvent {
    TrackEvent { delta, kind }
}

fn note_on(delta: u32, key: u8, vel: u8) -> TrackEvent {
    TrackEvent { delta, kind: EventKind::NoteOn { key, vel } }
}

fn note_off(delta: u32, key: u8) -> TrackEvent {
    TrackEvent { delta, kind: EventKind::NoteOff { key, vel: 0 } }
}

fn track_name(name: &str) -> EventKind {
    EventKind::TrackName(name.as_bytes().to_vec())
}

fn smf(tracks: Vec<Vec<TrackEvent>>) -> MidiFile {
    MidiFile { ticks_per_quarter: Some(480), tracks }
}

// ── track_name_of / note_on_count / find_track ──────────────────────────────

#[test]
fn track_name_of_reads_the_first_track_name_event() {
    let track = vec![meta(0, track_name("Bass")), note_on(0, 60, 100)];
    assert_eq!(track_name_of(&track).as_deref(), Some("Bass"));
}

#[test]
fn track_name_of_is_none_without_a_name_event() {
    let track = vec![note_on(0, 60, 100)];
    assert_eq!(track_name_of(&track), None);
}

#[test]
fn track_name_of_replaces_invalid_utf8() {
    let track = vec![meta(0, EventKind::TrackName(vec![b'A', 0xFF, b'B'])), meta(0, track_name("Later"))];
    assert_eq!(track_name_of(&track).as_deref(), Some("A\u{FFFD}B"));
}

#[test]
fn note_on_count_ignores_zero_velocity_note_ons() {
    // A NoteOn with velocity 0 is a NoteOff in disguise (MIDI convention);
    // it must not inflate the note count.
    let track = vec![note_on(0, 60, 100), note_on(10, 62, 0), note_off(10, 60), note_on(0, 64, 80)];
    assert_eq!(note_on_count(&track), 2);
}

#[test]
fn find_track_matches_by_name_case_sensitively() {
    let file = smf(vec![vec![meta(0, track_name("Drums"))], vec![meta(0, track_name("Bass"))]]);
    assert_eq!(find_track(&file, "Bass"), Some(1));
    assert_eq!(find_track(&file, "bass"), None);
    assert_eq!(find_track(&file, "Lead"), None);
}

#[test]
fn select_track_takes_an_index_or_a_name() {
    let file = smf(vec![
        vec![meta(0, track_name("Drums"))],
        vec![meta(0, track_name("Bass"))],
        vec![meta(0, track_name("7"))],
    ]);
    assert_eq!(select_track(&file, "1"), Some(1));
    assert_eq!(select_track(&file, "+0"), Some(0));
    assert_eq!(select_track(&file, "Bass"), Some(1));
    // Out of range as an index, so it is looked up as a name.
    assert_eq!(select_track(&file, "7"), Some(2));
    assert_eq!(select_track(&file, "9"), None);
    assert_eq!(select_track(&file, "-1"), None);
}

#[test]
fn parse_usize_follows_str_parse() {
    assert_eq!(parse_usize("0"), Some(0));
    assert_eq!(parse_usize("+42"), Some(42));
    assert_eq!(parse_usize("007"), Some(7));
    assert_eq!(parse_usize(""), None);
    assert_eq!(parse_usize("+"), None);
    assert_eq!(parse_usize("-3"), None);
    assert_eq!(parse_usize("4a"), None);
    assert_eq!(parse_usize(&usize::MAX.to_string()), Some(usize::MAX));
    assert_eq!(parse_usize("99999999999999999999999"), None);
}

#[test]
fn display_name_falls_back_to_the_index() {
    let file = smf(vec![vec![meta(0, track_name("Lead"))], vec![note_on(0, 60, 1)]]);
    assert_eq!(track_display_name(&file, 0), "Lead");
    assert_eq!(track_display_name(&file, 1), "track 1");
}

// ── processed_path ───────────────────────────────────────────────────────────

#[test]
fn processed_path_appends_suffix_before_the_extension() {
    let out = processed_path("/songs/Riff.mid");
    assert_eq!(Path::new(&out), Path::new("/songs/Riff_processed.midi"));
}

#[test]
fn processed_path_falls_back_to_song_for_an_unnamed_file() {
    let out = processed_path("/");
    assert_eq!(Path::new(&out), Path::new("/song_processed.midi"));
}

#[test]
fn song_title_is_the_file_stem() {
    assert_eq!(song_title("/songs/Riff.mid"), "Riff");
    assert_eq!(song_title("/"), "Untitled");
}

// ── collect_tempo_map ───────────────────────────────────────────────────────

#[test]
fn collect_tempo_map_defaults_to_120bpm_at_tick_zero_when_unset() {
    let file = smf(vec![vec![note_on(0, 60, 100)]]);
    assert_eq!(collect_tempo_map(&file), vec![(0, DEFAULT_TEMPO_US)]);
}

#[test]
fn collect_tempo_map_collects_and_sorts_changes_across_tracks() {
    let file = smf(vec![
        vec![meta(100, EventKind::Tempo(300_000))],
        vec![meta(0, EventKind::Tempo(500_000))],
    ]);
    assert_eq!(collect_tempo_map(&file), vec![(0, 500_000), (100, 300_000)]);
}

#[test]
fn collect_tempo_map_keeps_file_order_at_one_tick_and_adds_the_default() {
    let file = smf(vec![
        vec![meta(50, EventKind::Tempo(400_000)), meta(0, EventKind::Tempo(450_000))],
        vec![meta(50, EventKind::Tempo(600_000)), meta(10, EventKind::Tempo(700_000))],
    ]);
    assert_eq!(
        collect_tempo_map(&file),
        vec![(0, DEFAULT_TEMPO_US), (50, 400_000), (50, 450_000), (50, 600_000), (60, 700_000)]
    );
}

// ── first_time_signature ────────────────────────────────────────────────────

#[test]
fn first_time_signature_decodes_denominator_as_a_power_of_two() {
    // (3, 3, ...) encodes 3/8 — denominator is 2^3.
    let file = smf(vec![vec![meta(0, EventKind::TimeSignature(3, 3, 24, 8))]]);
    assert_eq!(first_time_signature(&file), (3, 8));
}

#[test]
fn first_time_signature_defaults_to_four_four_when_absent() {
    let file = smf(vec![vec![note_on(0, 60, 100)]]);
    assert_eq!(first_time_signature(&file), (4, 4));
}

#[test]
fn first_time_signature_searches_track_by_track() {
    let file = smf(vec![
        vec![note_on(0, 60, 100)],
        vec![meta(0, EventKind::TimeSignature(6, 3, 24, 8)), meta(0, EventKind::TimeSignature(2, 1, 24, 8))],
    ]);
    assert_eq!(first_time_signature(&file), (6, 8));
}

// ── ticks ───────────────────────────────────────────────────────────────────

#[test]
fn total_ticks_sums_the_deltas() {
    assert_eq!(total_ticks(&vec![note_on(10, 60, 1), note_off(20, 60)]), Some(30));
    assert_eq!(total_ticks(&vec![]), Some(0));
    let file = smf(vec![vec![note_on(u32::MAX, 60, 1)]]);
    assert!(file_ticks_fit(&file));
}

// ── extract_notes ───────────────────────────────────────────────────────────

#[test]
fn extract_notes_pairs_note_on_with_note_off() {
    let track = vec![note_on(0, 60, 100), note_off(240, 60)];
    let notes = extract_notes(&track);
    assert_eq!(notes.len(), 1);
    assert_eq!(notes[0].start_tick, 0);
    assert_eq!(notes[0].dur_ticks, 240);
    assert_eq!(notes[0].key, 60);
}

#[test]
fn extract_notes_treats_zero_velocity_note_on_as_note_off() {
    let track = vec![note_on(0, 60, 100), note_on(120, 60, 0)];
    let notes = extract_notes(&track);
    assert_eq!(notes.len(), 1);
    assert_eq!(notes[0].dur_ticks, 120);
}

#[test]
fn extract_notes_orders_overlapping_notes_by_start_then_key() {
    let track = vec![note_on(0, 64, 100), note_on(0, 60, 100), note_off(100, 64), note_off(0, 60)];
    let notes = extract_notes(&track);
    let keys: Vec<u8> = notes.iter().map(|n| n.key).collect();
    assert_eq!(keys, vec![60, 64]);
}

#[test]
fn extract_notes_ignores_an_unmatched_note_off() {
    let track = vec![note_off(0, 60)];
    assert!(extract_notes(&track).is_empty());
}

#[test]
fn extract_notes_restarts_a_key_that_sounds_again() {
    // The second NoteOn of key 60 replaces the first; one note results.
    let track = vec![note_on(0, 60, 100), note_on(10, 60, 90), note_off(5, 60), note_on(0, 62, 80), note_off(20, 62)];
    let notes = extract_notes(&track);
    assert_eq!(
        notes,
        vec![Note { start_tick: 10, dur_ticks: 5, key: 60 }, Note { start_tick: 15, dur_ticks: 20, key: 62 }]
    );
}

// ── build_pitch_maps / map_pitch ────────────────────────────────────────────

#[test]
fn map_pitch_maps_a_directly_playable_blow_note() {
    let (blow, draw) = build_pitch_maps();
    // C4 is hole 1 blow on a C richter harp.
    let midi = note_to_midi("C4").unwrap() as u8;
    let mapped = map_pitch(midi, &blow, &draw);
    assert_eq!(mapped.hole, 1);
    assert_eq!(mapped.action.label(), "blow");
    assert_eq!(mapped.bend, None);
}

#[test]
fn map_pitch_reaches_a_low_hole_draw_bend() {
    let (blow, draw) = build_pitch_maps();
    // Hole 2 draw is G4; bending down one semitone reaches F#4, which
    // isn't directly playable, so it should resolve to a -1 semitone bend.
    let target = note_to_midi("G4").unwrap() as u8 - 1;
    let mapped = map_pitch(target, &blow, &draw);
    assert_eq!(mapped.action.label(), "draw");
    assert!((1..=6).contains(&mapped.hole));
    assert_eq!(mapped.bend, Some(-1));
}

#[test]
fn map_pitch_falls_back_to_the_nearest_playable_note() {
    let (blow, draw) = build_pitch_maps();
    // Absurdly low pitch: nothing is directly playable or bend-reachable,
    // so it must snap to *some* natural note rather than panicking.
    let mapped = map_pitch(0, &blow, &draw);
    assert!(mapped.bend.is_none());
    assert!(mapped.hole >= 1 && mapped.hole <= 10);
    // The nearest playable note to MIDI 0 is C4, hole 1 blow.
    assert_eq!((mapped.hole, mapped.action, mapped.natural), (1, HarpAction::Blow, 60));
}

#[test]
fn map_pitch_uses_a_high_hole_blow_bend() {
    let (blow, draw) = build_pitch_maps();
    // B6 (95) is neither blown nor drawn, and a half-step blow bend on hole 10 (C7).
    let mapped = map_pitch(95, &blow, &draw);
    assert_eq!((mapped.hole, mapped.action, mapped.natural, mapped.bend), (10, HarpAction::Blow, 96, Some(-1)));
    // Above the top of the harp, the pitch snaps down to C7.
    let mapped = map_pitch(120, &blow, &draw);
    assert_eq!((mapped.hole, mapped.action, mapped.natural, mapped.bend), (10, HarpAction::Blow, 96, None));
}

#[test]
fn pitch_maps_follow_the_c_richter_layout() {
    let (blow, draw) = build_pitch_maps();
    assert_eq!(blow.len(), 10);
    assert_eq!(draw.len(), 10);
    assert_eq!(blow.get(&60), Some(&1));
    assert_eq!(draw.get(&93), Some(&10));
    assert_eq!(c_richter_blow()[0], "C4");
    assert_eq!(c_richter_draw()[9], "A6");
}

// ── chart items ─────────────────────────────────────────────────────────────

#[test]
fn chart_item_ids_are_zero_padded() {
    assert_eq!(chart_item_id(1), "n0001");
    assert_eq!(chart_item_id(42), "n0042");
    assert_eq!(chart_item_id(999), "n0999");
    assert_eq!(chart_item_id(12345), "n12345");
}

#[test]
fn chart_items_group_notes_that_start_together() {
    let notes = vec![
        Note { start_tick: 0, dur_ticks: 100, key: 60 },
        Note { start_tick: 0, dur_ticks: 240, key: 64 },
        Note { start_tick: 480, dur_ticks: 120, key: 66 },
    ];
    let items = chart_items(&notes);
    assert_eq!(items.len(), 2);
    assert_eq!(items[0].id, "n0001");
    assert_eq!((items[0].start_tick, items[0].end_tick), (0, 240));
    assert_eq!(items[0].play_mode(), "chord");
    assert_eq!(items[0].events.len(), 2);
    assert_eq!(items[0].events[0].note, "C4");
    assert_eq!(items[0].events[1].note, "E4");
    assert_eq!(items[1].id, "n0002");
    assert_eq!(items[1].play_mode(), "single");
    assert_eq!((items[1].start_tick, items[1].end_tick), (480, 600));
    // F#4 is a half-step draw bend on hole 2; the chart names the natural G4.
    assert_eq!(items[1].events[0].mapped.bend, Some(-1));
    assert_eq!(items[1].events[0].note, "G4");
    assert!(chart_items(&vec![]).is_empty());
}

// ── load_midi ───────────────────────────────────────────────────────────────

fn small_midi_file() -> Vec<u8> {
    let mut bytes = Vec::new();
    bytes.extend_from_slice(b"MThd");
    bytes.extend_from_slice(&[0, 0, 0, 6, 0, 0, 0, 1, 0x01, 0xE0]);
    let events: Vec<u8> = vec![
        0x00, 0xFF, 0x03, 0x04, b'L', b'e', b'a', b'd', // track name
        0x00, 0xFF, 0x51, 0x03, 0x07, 0xA1, 0x20, // tempo 500000
        0x00, 0xFF, 0x58, 0x04, 0x03, 0x02, 0x18, 0x08, // 3/4
        0x00, 0x90, 0x3C, 0x64, // note on C4
        0x83, 0x60, 0x80, 0x3C, 0x00, // 480 ticks later, note off
        0x00, 0xFF, 0x2F, 0x00, // end of track
    ];
    bytes.extend_from_slice(b"MTrk");
    bytes.extend_from_slice(&(events.len() as u32).to_be_bytes());
    bytes.extend_from_slice(&events);
    bytes
}

#[test]
fn load_midi_reads_a_small_file() {
    let file = load_midi(&small_midi_file()).expect("valid file");
    assert_eq!(file.ticks_per_quarter, Some(480));
    assert_eq!(file.tracks.len(), 1);
    assert_eq!(track_name_of(&file.tracks[0]).as_deref(), Some("Lead"));
    assert_eq!(note_on_count(&file.tracks[0]), 1);
    assert_eq!(collect_tempo_map(&file), vec![(0, 500_000)]);
    assert_eq!(first_time_signature(&file), (3, 4));
    assert_eq!(extract_notes(&file.tracks[0]), vec![Note { start_tick: 0, dur_ticks: 480, key: 60 }]);
}

#[test]
fn load_midi_refuses_other_bytes() {
    let err = load_midi(b"not a midi file").unwrap_err();
    assert!(!err.message.is_empty());
}
