# harmonicon

The rules and data logic of Harmonicon, a rhythm game for the diatonic blues
harmonica, written as a Verus library: Verus proves the functions in `src/`
against their `requires`/`ensures` contracts. The calls into `midly`,
`serde_json`, `jsonschema` and std that stand behind `external_body`
wrappers are trusted, each with a contract stating what their documentation
or source shows.

## Layout

- `src/audio_system/` — note names and MIDI numbers (`midi`, `midi_functions`),
  the WAV file layout, the selectable pitch-detection algorithms, and the
  input-device choice.
- `src/harmonica/` — the harp model a chart carries: blow/draw labels, the
  twelve-bar roots of a key, and every note a harp can produce.
- `src/midi_file.rs`, `src/midi_load.rs`, `src/midi_timeline.rs`,
  `src/midi_to_chart.rs` — reading a MIDI file (through `midly`), the tempo
  map, note pairing, and mapping each pitch onto a C richter harp to build
  chart items.
- `src/scoring.rs`, `src/gameplay/judging.rs` — judging notes against the
  pitches heard: the fresh-attack gate (a held pitch scores one note), the
  chord rule, clean attacks, the closest-first judgment of pending notes, the
  cursor past finished notes, the wait-for-note target, and loop resets.
- `src/gameplay/` — hit tallies and the bookkeeping of judged notes, the
  harmonica diagram's note math, the Bending Trainer, the pause menu and Jam
  Session rules, the phrase banner, the metronome's click pattern, the play
  mode badge, and adaptive difficulty (phrase sections, the prefix reveal of
  their notes, cleared sections).
- `src/dialogs/`, `src/lessons.rs` — font fallback runs, the file dialog's
  entry rule, the pitch-algorithm picker's options, the check of a
  `lesson.json` against the lesson schema (through `jsonschema`), lesson
  unlocking and grouping.
- `src/assets_management.rs` — the asset lists: theme and model names in
  string order (deduplicated where the game asks for it), the default theme,
  and the song entries with their chart paths.
- `src/json_schema.rs` — checking a JSON document against a JSON Schema
  (`serde_json`, `jsonschema`) and rendering the violations, shared by the
  lesson manifest check and the generated chart check (`check_chart`).
- `src/text.rs` — decimal formatting and parsing shared by the above.
- `app/` — the `midi-to-chart` command-line tool (file I/O, seconds, JSON and
  schema validation), the asset and lesson folder scans and the lesson
  deserialize, and the
  floating-point parts of the game: pitch detection, the per-frame scoring
  loop (timing windows in seconds, ordering by offset, sustain, multipliers;
  it hands the decisions to the library), results, metronome and clock.
- `tests/` — the unit tests, run against the compiled library.
