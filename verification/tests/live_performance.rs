use shr_daw::live_performance::{
    is_launch_boundary, CaptureCommit, CaptureState, LaneShape, LaunchQuantization, LivePatternPerformance,
};
use shr_daw::sequencer::{Cell, Note, Page, Pattern, Song};
use shr_daw::tempo::Bpm;

fn setup_pattern(rows: usize) -> Pattern {
    Pattern::new(rows, Bpm::default_tempo(), 4, vec![Page::new("LIVE", 0, false)])
}

fn song_with_patterns(count: u16) -> Song {
    let mut song = Song::new(setup_pattern(64), 80);
    for _ in 1..count {
        song.append_pattern(setup_pattern(16)).unwrap();
    }
    song
}

#[test]
fn browsing_and_group_navigation_never_launch() {
    let song = song_with_patterns(6);
    let mut live = LivePatternPerformance::default();
    live.reset_for_project(&song);
    live.browse(&song, 1);
    live.browse(&song, 1);
    assert_eq!(live.selected(), Some(2));
    assert_eq!(live.current(), None);
    assert_eq!(live.queued(), None);
    assert_eq!(live.group(&song), [0, 1, 2, 3]);
    live.select(&song, 5).unwrap();
    assert_eq!(live.group(&song), [4, 5]);
}

#[test]
fn queue_replacement_cancellation_retrigger_and_boundaries_are_explicit() {
    let song = song_with_patterns(3);
    let mut live = LivePatternPerformance::default();
    live.reset_for_project(&song);
    live.set_quantization(LaunchQuantization::Pattern);
    live.select(&song, 1).unwrap();
    assert_eq!(live.queue_selected().unwrap().pattern, 1);
    live.select(&song, 2).unwrap();
    assert_eq!(live.queue_selected().unwrap().pattern, 2);
    assert!(live.cancel_queue());
    assert!(!live.cancel_queue());
    live.activate(1, false);
    assert_eq!(live.queue_retrigger().unwrap().pattern, 1);
    assert!(is_launch_boundary(
        LaunchQuantization::Pattern,
        64,
        64,
        4,
        4
    ));
    assert!(!is_launch_boundary(
        LaunchQuantization::Pattern,
        16,
        64,
        4,
        4
    ));
    assert!(is_launch_boundary(LaunchQuantization::Bar, 16, 64, 4, 4));
}

#[test]
fn capture_records_only_activations_and_requires_confirmation() {
    let mut song = song_with_patterns(3);
    let arrangement_before = song.order.clone();
    let mut live = LivePatternPerformance::default();
    live.reset_for_project(&song);
    live.start_capture();
    live.select(&song, 2).unwrap();
    live.queue_selected().unwrap();
    live.cancel_queue();
    live.activate(1, false);
    live.fail_queued();
    live.activate(1, true);
    assert_eq!(live.capture(), &CaptureState::Recording(vec![1, 1]));
    assert_eq!(song.order, arrangement_before);
    live.request_capture_commit().unwrap();
    live.cancel_capture();
    assert_eq!(song.order, arrangement_before);
    live.start_capture();
    live.activate(2, false);
    live.activate(2, true);
    live.request_capture_commit().unwrap();
    assert_eq!(
        live.confirm_capture(&mut song, CaptureCommit::Replace)
            .unwrap(),
        2
    );
    assert_eq!(song.order, [2, 2]);
    assert_eq!(song.patterns.len(), 3, "references must not clone Patterns");
}

#[test]
fn lane_shaping_is_bounded_deterministic_and_transient() {
    let song = song_with_patterns(1);
    let mut live = LivePatternPerformance::default();
    live.reset_for_project(&song);
    let shape = live.shape_mut(0, 0, 0);
    shape.set_velocity(999);
    shape.set_gate(-1);
    shape.set_transpose(90);
    assert_eq!(shape.velocity(127), 127);
    assert_eq!(shape.gate(80), 8);
    assert_eq!(shape.note(100), 127);

    let mut pattern = song.patterns[0].pattern.clone();
    pattern.rows[0][0] = Cell {
        note: Note::On(100),
        velocity: Some(80),
        gate: Some(50),
        ..Cell::default()
    };
    let shaped = live.shaped_pattern(0, &pattern, song.gate_percent);
    assert_eq!(shaped.rows[0][0].note, Note::On(127));
    assert_eq!(shaped.rows[0][0].velocity, Some(127));
    assert_eq!(shaped.rows[0][0].gate, Some(5));
    assert_eq!(pattern.rows[0][0].note, Note::On(100));

    let replacement = song_with_patterns(1);
    live.reset_for_project(&replacement);
    assert_eq!(live.shapes(0, 0), [LaneShape::default(); 4]);
}

#[test]
fn browsing_backwards_wraps_and_an_empty_song_selects_nothing() {
    let song = song_with_patterns(3);
    let mut live = LivePatternPerformance::default();
    live.reset_for_project(&song);
    live.browse(&song, -1);
    assert_eq!(live.selected(), Some(2));
    live.browse(&song, 1);
    assert_eq!(live.selected(), Some(0));
    let mut empty = song_with_patterns(1);
    empty.patterns.clear();
    live.browse(&empty, 1);
    assert_eq!(live.selected(), None);
    assert!(live.group(&empty).is_empty());
}

#[test]
fn missing_patterns_and_empty_queues_are_refused_with_messages() {
    let song = song_with_patterns(2);
    let mut live = LivePatternPerformance::default();
    assert_eq!(live.select(&song, 7).unwrap_err().message(), "Pattern 07 is missing");
    assert_eq!(live.select(&song, 12).unwrap_err().message(), "Pattern 12 is missing");
    assert_eq!(live.queue_selected().unwrap_err().message(), "no Pattern selected");
    assert_eq!(live.queue_retrigger().unwrap_err().message(), "no Pattern is playing");
    assert_eq!(live.request_capture_commit().unwrap_err().message(), "Live Pattern capture is not recording");
}

#[test]
fn activations_count_serially_and_clear_the_queue() {
    let song = song_with_patterns(2);
    let mut live = LivePatternPerformance::default();
    live.reset_for_project(&song);
    live.queue_selected().unwrap();
    let first = live.activate(1, false);
    let second = live.activate(0, true);
    assert_eq!((first.serial, first.pattern, first.retrigger), (1, 1, false));
    assert_eq!((second.serial, second.pattern, second.retrigger), (2, 0, true));
    assert_eq!(live.queued(), None);
    assert_eq!(live.current(), Some(0));
    assert_eq!(live.quantization(), LaunchQuantization::Bar);
}

#[test]
fn capture_commit_refusals_leave_the_arrangement_alone() {
    let mut song = song_with_patterns(2);
    let mut live = LivePatternPerformance::default();
    live.reset_for_project(&song);
    assert_eq!(
        live.confirm_capture(&mut song, CaptureCommit::Append).unwrap_err().message(),
        "Live Pattern capture is not awaiting confirmation"
    );
    live.start_capture();
    live.request_capture_commit().unwrap();
    assert_eq!(
        live.confirm_capture(&mut song, CaptureCommit::Replace).unwrap_err().message(),
        "cannot replace Arrangement with an empty capture"
    );
    assert_eq!(song.order, [0]);
    song.order = vec![0; 4096];
    live.start_capture();
    live.activate(1, false);
    live.request_capture_commit().unwrap();
    assert_eq!(
        live.confirm_capture(&mut song, CaptureCommit::Append).unwrap_err().message(),
        "captured Arrangement would exceed 4096 steps"
    );
    assert_eq!(song.order.len(), 4096);
    song.order = vec![0];
    assert_eq!(live.confirm_capture(&mut song, CaptureCommit::Append).unwrap(), 1);
    assert_eq!(song.order, [0, 1]);
    assert_eq!(live.capture(), &CaptureState::Off);
}

#[test]
fn a_capture_of_a_deleted_pattern_is_refused() {
    let mut song = song_with_patterns(3);
    let mut live = LivePatternPerformance::default();
    live.reset_for_project(&song);
    live.start_capture();
    live.activate(2, false);
    live.request_capture_commit().unwrap();
    song.patterns.pop();
    assert_eq!(
        live.confirm_capture(&mut song, CaptureCommit::Replace).unwrap_err().message(),
        "captured Pattern is no longer available"
    );
    assert_eq!(live.capture(), &CaptureState::Confirm(vec![2]));
}

#[test]
fn muted_lanes_are_disabled_and_other_pages_are_untouched() {
    let song = song_with_patterns(1);
    let mut live = LivePatternPerformance::default();
    live.reset_for_project(&song);
    live.shape_mut(0, 0, 9).muted = true;
    let pattern = song.patterns[0].pattern.clone();
    let shaped = live.shaped_pattern(0, &pattern, song.gate_percent);
    assert!(shaped.pages[0].lanes[0].enabled);
    assert!(!shaped.pages[0].lanes[3].enabled);
    assert!(live.shapes(1, 0).iter().all(|shape| *shape == LaneShape::default()));
    assert!(live.shapes(0, 0)[3].muted);
}

#[test]
fn shaping_an_inherited_velocity_and_gate_uses_page_and_song_values() {
    let song = song_with_patterns(1);
    let mut live = LivePatternPerformance::default();
    let shape = live.shape_mut(0, 0, 1);
    shape.set_velocity(50);
    shape.set_gate(150);
    shape.set_transpose(-7);
    let mut pattern = song.patterns[0].pattern.clone();
    pattern.rows[2][1] = Cell { note: Note::On(64), ..Cell::default() };
    let shaped = live.shaped_pattern(0, &pattern, 40);
    assert_eq!(shaped.rows[2][1].note, Note::On(57));
    assert_eq!(shaped.rows[2][1].velocity, Some(50));
    assert_eq!(shaped.rows[2][1].gate, Some(60));
    assert_eq!(shaped.rows[3][1], pattern.rows[3][1]);
}

#[test]
fn bar_boundaries_follow_steps_per_beat_and_meter() {
    assert!(!is_launch_boundary(LaunchQuantization::Bar, 0, 64, 4, 4));
    assert!(is_launch_boundary(LaunchQuantization::Bar, 12, 64, 4, 3));
    assert!(!is_launch_boundary(LaunchQuantization::Bar, 12, 64, 4, 4));
    assert!(is_launch_boundary(LaunchQuantization::Bar, 5, 64, 0, 0));
    assert!(is_launch_boundary(LaunchQuantization::Pattern, 70, 64, 4, 4));
    assert_eq!(LaunchQuantization::Pattern.label(), "PATTERN");
    assert_eq!(LaunchQuantization::default().label(), "BAR");
}
