use shr_daw::midi_endpoint::{legacy_key, matching_index, matching_optional_index, stable_identity, EndpointError};

#[test]
fn canonical_identity_strips_only_a_trailing_numeric_address() {
    assert_eq!(
        stable_identity("AudioBox USB 96:AudioBox USB 96 MIDI 1 32:0"),
        "AudioBox USB 96:AudioBox USB 96 MIDI 1"
    );
    assert_eq!(stable_identity("Device 32:0 name"), "Device 32:0 name");
    assert_eq!(stable_identity("Device:Port"), "Device:Port");
}

#[test]
fn canonical_and_legacy_audiobox_values_resolve_uniquely() {
    let names = vec!["AudioBox USB 96:AudioBox USB 96 MIDI 1 32:0".to_string()];
    assert_eq!(matching_index(&names, "AudioBox USB 96:AudioBox USB 96 MIDI 1", "MIDI output").unwrap(), 0);
    assert_eq!(matching_index(&names, "AudioBox USB 96 AudioBox USB 96 MIDI 1", "MIDI output").unwrap(), 0);
}

#[test]
fn missing_ambiguous_and_partial_values_are_rejected() {
    let names = vec!["Box:Port 20:0".to_string(), "Box-Port 21:0".to_string(), "Other:DIN 22:0".to_string()];
    assert!(matching_index(&names, "Box", "MIDI output").is_err());
    assert!(matching_index(&names, "Missing:Port", "MIDI output").is_err());
    assert!(matching_index(&names, "Box Port", "MIDI output").unwrap_err().message().contains("ambiguous"));
}

#[test]
fn empty_identity_is_refused_with_its_description() {
    let names = vec!["Box:Port 20:0".to_string()];
    let error = matching_index(&names, "   ", "MIDI input").unwrap_err();
    assert!(matches!(error, EndpointError::EmptyIdentity { .. }));
    assert_eq!(error.message(), "MIDI input identity cannot be empty");
}

#[test]
fn offline_and_ambiguous_errors_quote_the_trimmed_identity() {
    let names = vec!["Box:Port 20:0".to_string(), "Box:Port 21:0".to_string()];
    assert_eq!(
        matching_index(&names, "  Missing:Port ", "MIDI output").unwrap_err().message(),
        "MIDI output \"Missing:Port\" is offline"
    );
    assert_eq!(
        matching_index(&names, "box:port", "MIDI output").unwrap_err().message(),
        "MIDI output \"box:port\" is ambiguous (2 stable identity matches)"
    );
    let legacy = vec!["Box:Port 20:0".to_string(), "Box-Port 21:0".to_string()];
    assert_eq!(
        matching_index(&legacy, "Box Port", "MIDI output").unwrap_err().message(),
        "MIDI output \"Box Port\" is ambiguous (2 legacy identity matches)"
    );
}

#[test]
fn stable_identity_wins_over_legacy_compatibility() {
    let names = vec!["box port 20:0".to_string(), "BOX:PORT 21:0".to_string()];
    assert_eq!(matching_index(&names, "Box:Port", "MIDI output").unwrap(), 1);
}

#[test]
fn optional_matching_turns_only_offline_into_none() {
    let names = vec!["Box:Port 20:0".to_string(), "Box:Port 21:0".to_string()];
    assert_eq!(matching_optional_index(&names, "Gone:Port", "MIDI input").unwrap(), None);
    assert_eq!(matching_optional_index(&names, "Box:Port 20:0", "MIDI input").unwrap_err().message(),
        "MIDI input \"Box:Port 20:0\" is ambiguous (2 stable identity matches)");
    let single = vec!["Box:Port 20:0".to_string()];
    assert_eq!(matching_optional_index(&single, "Box:Port", "MIDI input").unwrap(), Some(0));
}

#[test]
fn legacy_key_lowercases_alphanumerics_and_joins_words() {
    assert_eq!(legacy_key("AudioBox USB 96:AudioBox  MIDI-1 32:0"), "audiobox usb 96 audiobox midi 1");
    assert_eq!(legacy_key("  :: "), "");
}
