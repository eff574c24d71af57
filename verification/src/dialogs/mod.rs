pub mod algo_picker;
pub mod font_fallback;
pub mod file_dialog;
