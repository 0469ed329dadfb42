use shr_daw::loop_player::{
    apply_queued, bar_to_beat, check_native_rates, checked_loop_frames, checked_slot, configured_output_ports,
    fade_frames, library_entries, loop_destinations, matching_controller_output_index, queued_code,
    queued_command, require_native_rate, settled_status, validate_loop_settings, LibraryEntry, LoopCommand,
    LoopError, LoopStatus, MAX_DECODED_LOOP_FRAMES,
};
use shr_daw::sequencer::{BpmInterpretation, LoopSettings};

fn outputs() -> Vec<String> {
    vec!["system:playback_1".to_string(), "system:playback_2".to_string()]
}

#[test]
fn loop_meter_keeps_the_existing_owned_stereo_route() {
    let ports = configured_output_ports("shsynth-loop");
    assert_eq!(ports, ["shsynth-loop:output_l".to_string(), "shsynth-loop:output_r".to_string()]);
    let outputs = outputs();
    let destinations = loop_destinations(&outputs).unwrap();
    assert_eq!(destinations, [outputs[0].as_str(), outputs[1].as_str()]);
    assert!(loop_destinations(&outputs[..1]).is_err());
}

#[test]
fn native_loop_playback_requires_matching_jack_rate() {
    assert!(require_native_rate(44_100, 44_100).is_ok());
    assert!(require_native_rate(44_100, 48_000).unwrap_err().message().contains("restart JACK at 44100 Hz"));
}

#[test]
fn decoded_loop_frame_limit_is_explicit_and_bounded() {
    assert_eq!(checked_loop_frames(MAX_DECODED_LOOP_FRAMES).unwrap(), MAX_DECODED_LOOP_FRAMES as usize);
    assert!(checked_loop_frames(MAX_DECODED_LOOP_FRAMES + 1).unwrap_err().message().contains("safe loop limit"));
}

#[test]
fn oversized_loops_name_their_frame_count() {
    let error = checked_loop_frames(6_000_001).unwrap_err();
    assert_eq!(error, LoopError::TooManyFrames { frames: 6_000_001 });
    assert_eq!(error.message(), "WAV has 6000001 frames; the safe loop limit is 6000000 frames");
}

#[test]
fn controller_clock_output_uses_one_exact_stable_alsa_port_name() {
    let names = vec![
        "Minilab3:Minilab3 MIDI 32:0".to_owned(),
        "Minilab3:Minilab3 DIN THRU 32:1".to_owned(),
        "Other:Other MIDI 40:0".to_owned(),
    ];
    assert_eq!(matching_controller_output_index(&names, "Minilab3:Minilab3 MIDI").unwrap(), 0);
    assert!(matching_controller_output_index(&names, "Minilab3").is_err());
    let ambiguous = vec!["Minilab3:Minilab3 MIDI 32:0".to_owned(), "Minilab3:Minilab3 MIDI 41:0".to_owned()];
    assert!(matching_controller_output_index(&ambiguous, "Minilab3:Minilab3 MIDI").is_err());
}

#[test]
fn controller_clock_output_names_are_exact_and_errors_are_explained() {
    let names = vec!["Controller:Clock In 24:0".to_string(), "Other:Port 25:0".to_string()];
    assert_eq!(matching_controller_output_index(&names, "Controller:Clock In"), Ok(0));
    assert_eq!(
        matching_controller_output_index(&names, " Controller:Clock In"),
        Err("controller clock output must be one exact ALSA port name".to_string())
    );
    assert_eq!(
        matching_controller_output_index(&names, ""),
        Err("controller clock output must be one exact ALSA port name".to_string())
    );
    assert_eq!(
        matching_controller_output_index(&names, "Missing:Port"),
        Err("controller clock output \"Missing:Port\" is offline".to_string())
    );
}

#[test]
fn slots_are_numbered_one_to_four() {
    assert_eq!(checked_slot(0), Ok(0));
    assert_eq!(checked_slot(3), Ok(3));
    assert_eq!(checked_slot(4), Err(LoopError::SlotOutOfRange));
    assert_eq!(LoopError::SlotOutOfRange.message(), "loop slot must be 1..=4");
    assert_eq!(LoopError::SlotEmpty { slot: 2 }.message(), "loop slot 3 is empty");
}

#[test]
fn bars_convert_to_beats_with_a_bounded_meter() {
    assert_eq!(bar_to_beat(4, 4), 16);
    assert_eq!(bar_to_beat(3, 0), 3);
    assert_eq!(bar_to_beat(2, 40), 32);
    assert_eq!(bar_to_beat(u32::MAX, 2), u32::MAX);
}

#[test]
fn fades_are_five_milliseconds_and_at_most_a_quarter_slice() {
    assert_eq!(fade_frames(48_000, 1_000_000), 240);
    assert_eq!(fade_frames(44_100, 1_000_000), 221);
    assert_eq!(fade_frames(48_000, 100), 25);
    assert_eq!(fade_frames(48_000, 2), 1);
    assert_eq!(fade_frames(0, 1_000), 1);
}

#[test]
fn queued_commands_round_trip_and_apply_at_the_boundary() {
    for command in [None, Some(LoopCommand::Launch), Some(LoopCommand::Stop)] {
        assert_eq!(queued_command(queued_code(command)), command);
    }
    assert!(apply_queued(queued_code(Some(LoopCommand::Launch)), false));
    assert!(!apply_queued(queued_code(Some(LoopCommand::Stop)), true));
    assert!(apply_queued(queued_code(None), true));
    assert!(!apply_queued(7, true));
}

#[test]
fn native_rate_faults_isolate_or_refuse() {
    let rates = [Some(48_000), None, Some(44_100), Some(22_050)];
    assert_eq!(check_native_rates(rates, 48_000, true), Ok([false, false, true, true]));
    assert_eq!(
        check_native_rates(rates, 48_000, false),
        Err(LoopError::RateMismatch { source_rate: 44_100, jack_rate: 48_000 })
    );
    assert_eq!(check_native_rates([Some(48_000), None, None, None], 48_000, false), Ok([false; 4]));
}

fn settings(level: u16, filter: i16) -> LoopSettings {
    LoopSettings {
        file: "used.wav".to_string(),
        source_bpm_x100: 12_000,
        interpretation: BpmInterpretation::Normal,
        start_beat: 0,
        length_beats: 4,
        offset_beats: 0,
        level_x1000: level,
        filter_x1000: filter,
    }
}

#[test]
fn loop_settings_outside_their_ranges_are_refused() {
    assert!(validate_loop_settings(&settings(1_000, 0)).is_ok());
    assert_eq!(validate_loop_settings(&settings(1_501, 0)), Err(LoopError::InvalidSettings));
    assert_eq!(validate_loop_settings(&settings(1_000, -1_001)), Err(LoopError::InvalidSettings));
    let mut empty = settings(1_000, 0);
    empty.length_beats = 0;
    assert_eq!(validate_loop_settings(&empty).unwrap_err().message(), "invalid private loop settings");
}

#[test]
fn library_lists_current_file_and_saved_references() {
    let files = vec!["alias.wav".to_string(), "free.wav".to_string(), "used.wav".to_string()];
    let references = vec!["used.wav".to_string(), "other.wav".to_string(), "used.wav".to_string()];
    let entries = library_entries(&files, Some("free.wav"), &references);
    assert_eq!(
        entries,
        [
            LibraryEntry { file: "alias.wav".to_string(), current: false, saved_references: 0 },
            LibraryEntry { file: "free.wav".to_string(), current: true, saved_references: 0 },
            LibraryEntry { file: "used.wav".to_string(), current: false, saved_references: 2 },
        ]
    );
    assert!(library_entries(&files, None, &references).iter().all(|entry| !entry.current));
}

#[test]
fn slot_status_plays_only_when_every_condition_holds() {
    let mut stored = LoopStatus::default();
    stored.loaded = true;
    let playing = settled_status(stored.clone(), true, false, None, false, true, true, false);
    assert!(playing.playing);
    assert_eq!(playing.error, None);
    let muted = settled_status(stored.clone(), true, true, None, false, true, true, false);
    assert!(!muted.playing);
    let inactive = settled_status(stored.clone(), true, false, Some(LoopCommand::Stop), false, true, false, false);
    assert!(!inactive.playing);
    assert_eq!(inactive.queued, Some(LoopCommand::Stop));
    assert_eq!(inactive.error.as_deref(), Some("JACK loop client inactive"));
    let previewed = settled_status(stored.clone(), true, false, None, false, true, false, true);
    assert!(previewed.playing);
    let faulted = settled_status(stored, true, false, None, true, true, false, false);
    assert_eq!(faulted.error.as_deref(), Some("loop tempo no longer matches Pattern tempo"));
}

#[test]
fn an_empty_slot_reports_no_time() {
    let status = LoopStatus::default();
    assert_eq!((status.duration, status.elapsed), (0, 0));
    assert!(!status.loaded && !status.playing);
}
