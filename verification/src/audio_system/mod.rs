pub mod audio_input;
pub mod midi;
pub mod midi_functions;
pub mod pitch_detect;
pub mod wav;
