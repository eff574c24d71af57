//! Harmonicon: the rules and data logic of a diatonic-harmonica rhythm game,
//! verified with Verus. Note names and MIDI numbers, the harp layout model,
//! MIDI-track to chart conversion, lesson gating, and the small state rules of
//! the practice screens live here; audio capture, rendering and file I/O do not.

pub mod text;
pub mod assets_management;
pub mod audio_system;
pub mod harmonica;
pub mod json_schema;
pub mod gameplay;
pub mod dialogs;
pub mod lessons;
pub mod midi_file;
pub mod midi_load;
pub mod midi_timeline;
pub mod midi_to_chart;
pub mod scoring;
