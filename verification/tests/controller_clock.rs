use shr_daw::controller_clock::{ClockCommand, ClockMessage, ClockStep, ControllerClock};

#[test]
fn first_start_sends_a_clock_then_start() {
    let mut clock = ControllerClock::new();
    assert_eq!(clock.command(ClockCommand::Start), ClockStep::Send(ClockMessage::TimingClock));
    assert_eq!(clock.sent(true), ClockStep::AdvancePhase);
    assert_eq!(clock.advanced(), ClockStep::Send(ClockMessage::Start));
    assert_eq!(clock.sent(true), ClockStep::Idle);
    let state = clock.state();
    assert!(state.transport_running && state.clock_sent && state.output_available && !state.suspended);
}

#[test]
fn restarting_stops_the_running_transport_first() {
    let mut clock = ControllerClock::new();
    clock.command(ClockCommand::Start);
    clock.sent(true);
    clock.advanced();
    clock.sent(true);
    assert_eq!(clock.command(ClockCommand::Start), ClockStep::Send(ClockMessage::Stop));
    assert_eq!(clock.sent(true), ClockStep::Send(ClockMessage::Start));
    assert_eq!(clock.sent(true), ClockStep::Idle);
}

#[test]
fn ticks_send_one_clock_when_due() {
    let mut clock = ControllerClock::default();
    assert_eq!(clock.timeout(), ClockStep::CheckDue);
    assert_eq!(clock.due(false), ClockStep::Idle);
    assert_eq!(clock.timeout(), ClockStep::CheckDue);
    assert_eq!(clock.due(true), ClockStep::Send(ClockMessage::TimingClock));
    assert_eq!(clock.sent(true), ClockStep::Idle);
    assert!(clock.state().clock_sent);
}

#[test]
fn suspended_output_stays_silent_until_the_next_start() {
    let mut clock = ControllerClock::new();
    clock.command(ClockCommand::Start);
    clock.sent(true);
    clock.advanced();
    clock.sent(true);
    assert_eq!(clock.command(ClockCommand::Suspend), ClockStep::Send(ClockMessage::Stop));
    assert_eq!(clock.sent(true), ClockStep::Idle);
    assert_eq!(clock.timeout(), ClockStep::Idle);
    assert_eq!(clock.command(ClockCommand::Stop), ClockStep::Idle);
    assert_eq!(clock.command(ClockCommand::Start), ClockStep::Send(ClockMessage::TimingClock));
}

#[test]
fn a_failed_send_stops_further_output() {
    let mut clock = ControllerClock::new();
    assert_eq!(clock.command(ClockCommand::Start), ClockStep::Send(ClockMessage::TimingClock));
    assert_eq!(clock.sent(false), ClockStep::AdvancePhase);
    assert_eq!(clock.advanced(), ClockStep::Idle);
    assert!(clock.state().transport_running);
    assert_eq!(clock.timeout(), ClockStep::CheckDue);
    assert_eq!(clock.due(true), ClockStep::Idle);
    assert_eq!(clock.command(ClockCommand::Shutdown), ClockStep::Exit);
}

#[test]
fn shutdown_stops_a_running_transport_before_exiting() {
    let mut clock = ControllerClock::new();
    clock.command(ClockCommand::Start);
    clock.sent(true);
    clock.advanced();
    clock.sent(true);
    assert_eq!(clock.command(ClockCommand::Tempo), ClockStep::Idle);
    assert_eq!(clock.command(ClockCommand::Shutdown), ClockStep::Send(ClockMessage::Stop));
    assert_eq!(clock.sent(false), ClockStep::Exit);
}

#[test]
fn clock_only_protocol_has_no_channel_voice_sysex_continue_or_song_position() {
    let bytes = [ClockMessage::TimingClock.bytes(), ClockMessage::Start.bytes(), ClockMessage::Stop.bytes()];
    assert_eq!(bytes, [&[0xf8][..], &[0xfa][..], &[0xfc][..]]);
    assert!(bytes
        .iter()
        .flat_map(|message| message.iter())
        .all(|byte| !matches!(byte, 0x80..=0xef | 0xf0 | 0xf2 | 0xfb)));
}
