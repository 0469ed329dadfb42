use shr_daw::effects::{
    EffectControl, EffectControlHub, EffectKind, PreparedValue, RegisteredControl, BYPASS_DIRTY_BIT,
    MAX_RUNTIME_PARAMETERS,
};

const VERSION: u32 = 1;

fn utility(id: u64) -> RegisteredControl<EffectControl> {
    RegisteredControl {
        id,
        kind: EffectKind::Utility,
        version: VERSION,
        control: EffectControl::new(id, EffectKind::Utility, VERSION, [0; MAX_RUNTIME_PARAMETERS], false),
    }
}

fn retired(id: u64) -> RegisteredControl<EffectControl> {
    let mut entry = utility(id);
    entry.control.deactivate();
    entry
}

const MUTE: Option<PreparedValue> = Some(PreparedValue { index: 6, bits: 0 });

#[test]
fn graph_and_drum_control_owners_clear_independently() {
    let mut hub = EffectControlHub::default();
    hub.replace_graph(vec![utility(7)]);
    hub.replace_drums(vec![utility(8)]);
    hub.clear_graph();
    assert!(hub.publish_normalized(8, EffectKind::Utility, VERSION, MUTE, 0).is_ok());
    assert!(hub.publish_normalized(7, EffectKind::Utility, VERSION, MUTE, 0).is_err());
    hub.clear_drums();
    assert!(hub.publish_normalized(8, EffectKind::Utility, VERSION, MUTE, 0).is_err());
}

#[test]
fn automation_publishes_values_and_bypass_to_the_registered_control() {
    let mut hub = EffectControlHub::new();
    hub.replace_graph(vec![utility(3), utility(4)]);
    assert!(hub
        .publish_normalized(4, EffectKind::Utility, VERSION, Some(PreparedValue { index: 0, bits: 0x3f80_0000 }), 1234)
        .is_ok());
    assert!(hub.publish_normalized(3, EffectKind::Utility, VERSION, None, 32_768).is_ok());
    assert!(hub.publish_normalized(3, EffectKind::Utility, VERSION, None, 32_767).is_ok());
    assert_eq!(
        hub.publish_normalized(
            4,
            EffectKind::Utility,
            VERSION,
            Some(PreparedValue { index: MAX_RUNTIME_PARAMETERS, bits: 1 }),
            0
        )
        .unwrap_err()
        .message(),
        "effect parameter exceeds runtime control bound"
    );
}

#[test]
fn stale_and_incompatible_targets_are_refused() {
    let mut hub = EffectControlHub::new();
    hub.replace_graph(vec![utility(3), retired(4)]);
    assert_eq!(
        hub.publish_normalized(9, EffectKind::Utility, VERSION, None, 0).unwrap_err().message(),
        "effect automation target is stale or missing"
    );
    assert_eq!(
        hub.publish_normalized(3, EffectKind::Eq, VERSION, None, 0).unwrap_err().message(),
        "effect automation schema is incompatible"
    );
    assert_eq!(
        hub.publish_normalized(3, EffectKind::Utility, VERSION + 1, None, 0).unwrap_err().message(),
        "effect automation schema is incompatible"
    );
    assert_eq!(
        hub.publish_normalized(4, EffectKind::Utility, VERSION, None, 0).unwrap_err().message(),
        "effect control target is stale"
    );
    assert_eq!(
        hub.publish_normalized(4, EffectKind::Utility, VERSION, MUTE, 0).unwrap_err().message(),
        "effect control target is stale"
    );
}

#[test]
fn a_later_control_of_one_identity_replaces_the_earlier() {
    let mut hub = EffectControlHub::new();
    hub.replace_graph(vec![retired(5), utility(5)]);
    assert!(hub.publish_normalized(5, EffectKind::Utility, VERSION, None, 0).is_ok());
    hub.replace_graph(vec![utility(5), retired(5)]);
    assert!(hub.publish_normalized(5, EffectKind::Utility, VERSION, None, 0).is_err());
}

#[test]
fn replacing_the_graph_keeps_controls_the_drums_share() {
    let mut hub = EffectControlHub::new();
    hub.replace_drums(vec![utility(2)]);
    hub.replace_graph(vec![utility(2), utility(6)]);
    hub.replace_graph(vec![utility(9)]);
    assert!(hub.publish_normalized(2, EffectKind::Utility, VERSION, None, 0).is_ok());
    assert!(hub.publish_normalized(6, EffectKind::Utility, VERSION, None, 0).is_err());
    assert!(hub.publish_normalized(9, EffectKind::Utility, VERSION, None, 0).is_ok());
}

#[test]
fn published_bypass_and_values_are_announced_until_taken() {
    let mut control = EffectControl::new(7, EffectKind::Delay, 2, [0; MAX_RUNTIME_PARAMETERS], false);
    assert_eq!((control.id(), control.kind(), control.version()), (7, EffectKind::Delay, 2));
    assert!(control.publish_bypass(true).is_ok());
    assert!(control.bypass());
    assert!(control.publish_value_bits(3, 0x3f80_0000).is_ok());
    assert_eq!(control.value_bits(3), 0x3f80_0000);
    assert_eq!(control.take_dirty(), BYPASS_DIRTY_BIT | (1 << 3));
    assert_eq!(control.take_dirty(), 0);
    assert_eq!(
        control.publish_value_bits(MAX_RUNTIME_PARAMETERS, 1).unwrap_err().message(),
        "effect parameter exceeds runtime control bound"
    );
    assert_eq!(control.take_dirty(), 0);
}

#[test]
fn a_deactivated_control_is_stale() {
    let mut control = EffectControl::new(1, EffectKind::Gate, 1, [5; MAX_RUNTIME_PARAMETERS], true);
    assert!(control.publish_value_bits(0, 9).is_ok());
    control.deactivate();
    assert_eq!(control.take_dirty(), 0);
    assert_eq!(control.publish_bypass(false).unwrap_err().message(), "effect control target is stale");
    assert_eq!(control.publish_value_bits(1, 9).unwrap_err().message(), "effect control target is stale");
    assert!(control.bypass());
    assert_eq!(control.value_bits(0), 9);
    assert_eq!(control.value_bits(1), 5);
}
