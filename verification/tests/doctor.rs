use shr_daw::doctor::{audio_tuning_doctor_target, daemon_args, DoctorCapability};
use shr_daw::fsutil::is_executable;

#[test]
fn doctor_capability_summary_distinguishes_ready_partial_and_unconfigured() {
    let empty = DoctorCapability::new("AUDIO TUNING");
    assert_eq!(empty.summary(), "[--] AUDIO TUNING: not configured");

    let mut ready = DoctorCapability::new("CORE / EDITOR");
    ready.record(true);
    ready.record(true);
    assert_eq!(ready.summary(), "[ok] CORE / EDITOR: 2/2 checks ready");

    let mut partial = DoctorCapability::new("JACK AUDIO");
    partial.record(true);
    partial.record(false);
    assert_eq!(partial.summary(), "[!!] JACK AUDIO: 1/2 checks need attention");
}

#[test]
fn doctor_passes_configured_audio_intent_to_tuning_helper() {
    assert_eq!(audio_tuning_doctor_target(Some(3)), "3");
    assert_eq!(audio_tuning_doctor_target(None), "none");
}

#[test]
fn daemon_is_started_with_the_selector_as_given() {
    assert_eq!(daemon_args("preset_2"), ["daemon", "preset_2"]);
    assert_eq!(daemon_args("synthv1:Duplicate"), ["daemon", "synthv1:Duplicate"]);
}

#[test]
fn every_failed_check_is_one_problem() {
    let mut midi = DoctorCapability::new("MIDI");
    for ok in [false, true, false, false] {
        midi.record(ok);
    }
    assert_eq!((midi.checks, midi.problems), (4, 3));
    assert_eq!(midi.summary(), "[!!] MIDI: 3/4 checks need attention");
}

#[test]
fn only_regular_files_with_an_execute_bit_are_executable() {
    assert!(is_executable(true, 0o755));
    assert!(is_executable(true, 0o601));
    assert!(!is_executable(true, 0o644));
    assert!(!is_executable(false, 0o755));
}

#[test]
fn daemon_keeps_the_original_index_selector_for_duplicate_names() {
    assert_eq!(daemon_args("preset_2"), ["daemon", "preset_2"]);
}
