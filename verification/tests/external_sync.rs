use shr_daw::external_sync::{
    shift_instant, ExternalClockFollower, FollowerAction, FollowerState, MidiByteStream, RealtimeMessage,
    StreamItem, ACQUISITION_INTERVALS, MAX_CONSECUTIVE_MALFORMED, MIDI_START, MIDI_STOP, MIDI_TIMING_CLOCK,
};
use std::time::Duration;

const ORIGIN: u64 = 1_000_000_000;

fn at(millis: u64) -> u64 {
    ORIGIN + millis * 1_000_000
}

fn bpm(tempo: shr_daw::tempo::Bpm) -> f64 {
    f64::from(tempo.hundredths) / 100.0
}

#[test]
fn realtime_bytes_do_not_corrupt_note_cc_program_running_status_or_sysex() {
    let mut parser = MidiByteStream::default();
    let items = parser.push(&[
        0x90,
        60,
        MIDI_TIMING_CLOCK,
        100,
        61,
        99,
        0xb2,
        74,
        MIDI_START,
        64,
        0xc3,
        12,
        0xf0,
        0x01,
        MIDI_TIMING_CLOCK,
        0x02,
        0xf7,
        MIDI_STOP,
    ]);
    assert_eq!(
        items,
        [
            StreamItem::Realtime(RealtimeMessage::TimingClock),
            StreamItem::Message(vec![0x90, 60, 100]),
            StreamItem::Message(vec![0x90, 61, 99]),
            StreamItem::Realtime(RealtimeMessage::Start),
            StreamItem::Message(vec![0xb2, 74, 64]),
            StreamItem::Message(vec![0xc3, 12]),
            StreamItem::Realtime(RealtimeMessage::TimingClock),
            StreamItem::Message(vec![0xf0, 0x01, 0x02, 0xf7]),
            StreamItem::Realtime(RealtimeMessage::Stop),
        ]
    );
}

#[test]
fn command_pad_note_on_off_and_pressure_remain_complete() {
    let mut parser = MidiByteStream::default();
    let items = parser.push(&[0x99, 40, MIDI_TIMING_CLOCK, 127, 0xa9, 40, 50, 0x89, MIDI_TIMING_CLOCK, 40, 0]);
    let messages = items
        .into_iter()
        .filter_map(|item| match item {
            StreamItem::Message(bytes) => Some(bytes),
            _ => None,
        })
        .collect::<Vec<_>>();
    assert_eq!(messages, [vec![0x99, 40, 127], vec![0xa9, 40, 50], vec![0x89, 40, 0]]);
}

#[test]
fn six_intervals_acquire_exact_twenty_four_ppqn_tempo() {
    for target in [20.0, 60.0, 120.0, 173.0, 300.0] {
        let interval = Duration::from_secs_f64(60.0 / target / 24.0);
        let mut follower = ExternalClockFollower::default();
        let mut ready = None;
        for pulse in 0..=ACQUISITION_INTERVALS {
            let received = ORIGIN + interval.mul_f64(pulse as f64).as_nanos() as u64;
            if let FollowerAction::Ready(tempo) = follower.receive(RealtimeMessage::TimingClock, received) {
                ready = Some(tempo);
            }
        }
        let actual = bpm(ready.expect("tempo was not acquired"));
        assert!((actual - target).abs() <= 0.02, "{target} became {actual}");
    }
}

#[test]
fn start_stop_restart_and_loss_require_fresh_start() {
    let mut follower = ExternalClockFollower::default();
    assert_eq!(follower.receive(RealtimeMessage::Start, ORIGIN), FollowerAction::StartRefused);
    for pulse in 0..=ACQUISITION_INTERVALS {
        follower.receive(RealtimeMessage::TimingClock, at(21 * pulse as u64));
    }
    assert!(matches!(follower.receive(RealtimeMessage::Start, at(130)), FollowerAction::Start(_)));
    assert!(matches!(follower.receive(RealtimeMessage::Start, at(131)), FollowerAction::Restart(_)));
    assert_eq!(follower.receive(RealtimeMessage::Stop, at(132)), FollowerAction::Stop);
    assert_eq!(follower.receive(RealtimeMessage::Continue, at(133)), FollowerAction::ContinueRefused);
    follower.receive(RealtimeMessage::Start, at(134));
    assert_eq!(follower.check_timeout(at(700)), FollowerAction::Lost);
    assert_eq!(follower.receive(RealtimeMessage::Start, at(701)), FollowerAction::StartRefused);
}

#[test]
fn jitter_bursts_and_outliers_keep_tempo_and_phase_bounded() {
    let mut follower = ExternalClockFollower::default();
    let jitter = [0i64, 1, -1, 2, -2, 0, 1, -1, 0, 2, -2, 0];
    let mut time = ORIGIN;
    for pulse in 0..48 {
        let delta = 21i64 + jitter[pulse % jitter.len()];
        time += delta as u64 * 1_000_000;
        follower.receive(RealtimeMessage::TimingClock, time);
        if pulse == 20 {
            // Two coalesced USB deliveries do not alter the tempo filter or
            // create an unbounded phase correction.
            follower.receive(RealtimeMessage::TimingClock, time);
        }
    }
    let tempo = bpm(follower.tempo().unwrap());
    assert!((tempo - 120.0).abs() < 4.0, "jitter tempo {tempo}");
    assert!(matches!(follower.receive(RealtimeMessage::Start, time), FollowerAction::Start(_)));
    let next = time + 45_000_000;
    let FollowerAction::Pulse(update) = follower.receive(RealtimeMessage::TimingClock, next) else {
        panic!("running pulse was not published");
    };
    let limit = follower.filtered_interval().unwrap() / 8;
    assert!(update.phase_correction_nanos.unsigned_abs() <= limit);
}

#[test]
fn long_run_filter_does_not_accumulate_clock_period_drift() {
    let interval = Duration::from_secs_f64(60.0 / 123.45 / 24.0);
    let instant = |pulse: usize| ORIGIN + interval.mul_f64(pulse as f64).as_nanos() as u64;
    let mut follower = ExternalClockFollower::default();
    for pulse in 0..=ACQUISITION_INTERVALS {
        follower.receive(RealtimeMessage::TimingClock, instant(pulse));
    }
    assert!(matches!(
        follower.receive(RealtimeMessage::Start, instant(ACQUISITION_INTERVALS)),
        FollowerAction::Start(_)
    ));
    let mut last = ORIGIN;
    for pulse in ACQUISITION_INTERVALS + 1..=24 * 60 * 10 {
        last = instant(pulse);
        assert!(matches!(follower.receive(RealtimeMessage::TimingClock, last), FollowerAction::Pulse(_)));
    }
    let tempo = bpm(follower.tempo().unwrap());
    assert!((tempo - 123.45).abs() <= 0.02, "long-run tempo {tempo}");
    let phase_error = last as i128 - follower.predicted_phase().unwrap() as i128;
    assert!(phase_error.unsigned_abs() <= 2, "phase drift {phase_error} ns");
}

#[test]
fn malformed_clock_fails_boundedly_and_good_pulses_reacquire() {
    let mut follower = ExternalClockFollower::default();
    for _ in 0..MAX_CONSECUTIVE_MALFORMED - 1 {
        assert_eq!(follower.malformed(), FollowerAction::Nothing);
    }
    assert_eq!(follower.malformed(), FollowerAction::Fault);
    assert_eq!(follower.state(), FollowerState::Fault);
    for pulse in 0..=ACQUISITION_INTERVALS {
        follower.receive(RealtimeMessage::TimingClock, at(20 * pulse as u64));
    }
    assert_eq!(follower.state(), FollowerState::Ready);
    assert!(matches!(follower.receive(RealtimeMessage::Start, at(130)), FollowerAction::Start(_)));
}

#[test]
fn realtime_status_bytes_read_as_realtime_messages() {
    assert_eq!(RealtimeMessage::from_byte(0xf8), Some(RealtimeMessage::TimingClock));
    assert_eq!(RealtimeMessage::from_byte(0xfa), Some(RealtimeMessage::Start));
    assert_eq!(RealtimeMessage::from_byte(0xfb), Some(RealtimeMessage::Continue));
    assert_eq!(RealtimeMessage::from_byte(0xfc), Some(RealtimeMessage::Stop));
    assert_eq!(RealtimeMessage::from_byte(0x90), None);
}

#[test]
fn stray_data_bytes_are_reported_malformed() {
    let mut parser = MidiByteStream::new();
    assert_eq!(parser.push(&[0x40]), [StreamItem::Malformed]);
}

#[test]
fn instants_shift_and_an_impossible_earlier_instant_keeps_the_value() {
    assert_eq!(shift_instant(100, 25), 125);
    assert_eq!(shift_instant(100, -25), 75);
    assert_eq!(shift_instant(10, -25), 10);
    assert_eq!(shift_instant(u64::MAX - 1, 5), u64::MAX);
}

#[test]
fn reset_source_forgets_the_acquired_tempo() {
    let mut follower = ExternalClockFollower::new();
    for pulse in 0..=ACQUISITION_INTERVALS {
        follower.receive(RealtimeMessage::TimingClock, at(20 * pulse as u64));
    }
    assert!(follower.tempo().is_some());
    follower.reset_source();
    assert_eq!(follower.state(), FollowerState::Waiting);
    assert!(follower.tempo().is_none());
}
