use harmonicon::audio_system::audio_input::{resolve_device_name, MicStatus};
use harmonicon::audio_system::pitch_detect::PitchAlgorithm;
use harmonicon::dialogs::algo_picker::algo_labels;

#[test]
fn resolve_device_name_finds_an_exact_match() {
    let available = vec!["USB Mic".to_string(), "Built-in".to_string()];
    assert_eq!(resolve_device_name(&available, "Built-in").as_deref(), Some("Built-in"));
    assert_eq!(resolve_device_name(&available, "built-in"), None);
    assert_eq!(resolve_device_name(&available, "Unplugged"), None);
}

#[test]
fn resolve_device_name_treats_empty_as_the_default() {
    let available = vec!["".to_string(), "USB Mic".to_string()];
    assert_eq!(resolve_device_name(&available, ""), None);
}

#[test]
fn mic_status_compares_by_content() {
    let a = MicStatus::Connected { device_name: "USB Mic".to_string() };
    assert_eq!(a.clone(), a);
    assert_ne!(a, MicStatus::Failed { reason: "USB Mic".to_string() });
}

#[test]
fn pitch_algorithms_in_display_order() {
    let labels: Vec<&str> = PitchAlgorithm::all().iter().map(|a| a.label()).collect();
    assert_eq!(labels, vec!["FFT", "YIN", "pYIN", "MPM"]);
    assert_eq!(PitchAlgorithm::default(), PitchAlgorithm::Fft);
}

#[test]
fn algo_labels_list_every_algorithm_in_order() {
    assert_eq!(algo_labels(), vec!["FFT".to_string(), "YIN".to_string(), "pYIN".to_string(), "MPM".to_string()]);
}
