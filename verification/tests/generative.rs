use shr_daw::generative::{
    build, chord_quality_label, chord_notes, ArpeggioOrder, ChordVoicing, CollisionPolicy, HarmonyInterval,
    HarmonyVoice, OutOfScalePolicy, Recipe, RowRate, Tool,
};
use shr_daw::scale::{Scale, ScaleKind};
use shr_daw::sequencer::{Cell, Command, Note, Page, Pattern, StepCondition, SwingDivision};
use shr_daw::tempo::Bpm;

fn fixture(rows: usize, percussion: bool) -> Pattern {
    let mut pattern = Pattern::new(
        rows,
        Bpm::default_tempo(),
        4,
        vec![Page::new("GEN", if percussion { 9 } else { 0 }, percussion)],
    );
    pattern.rows[0][0] = Cell {
        note: Note::On(if percussion { 38 } else { 60 }),
        velocity: Some(80),
        gate: Some(75),
        ..Cell::default()
    };
    pattern
}

fn recipe(pattern: &Pattern, tool: Tool) -> Recipe {
    Recipe::bounded_for(pattern, tool, 0, 0, 0, 41, Scale::default()).unwrap()
}

#[test]
fn euclidean_length_pulses_rotation_bounds_and_placement_are_exact() {
    for length in [1, 2, 7, 16, 255, 256] {
        let pattern = fixture(length, false);
        for pulses in [0, 1, length / 2, length] {
            let mut settings = recipe(&pattern, Tool::Euclidean);
            settings.length = length as u16;
            settings.amount = pulses as u16;
            settings.phase = length.saturating_sub(1) as u16;
            settings.collision = CollisionPolicy::ReplaceNotes;
            let first = build(&pattern, settings).unwrap();
            let second = build(&pattern, settings).unwrap();
            assert_eq!(first, second);
            assert_eq!(first.report.candidates, pulses);
            assert_eq!(first.affected_rows.len(), first.report.affected);
            assert!(first.affected_rows.iter().all(|row| *row < length));
        }
    }
    let pattern = fixture(8, false);
    let mut unrotated = recipe(&pattern, Tool::Euclidean);
    unrotated.length = 8;
    unrotated.amount = 3;
    unrotated.collision = CollisionPolicy::ReplaceNotes;
    let mut rotated = unrotated;
    rotated.phase = 1;
    assert_eq!(build(&pattern, unrotated).unwrap().affected_rows, [3, 6]);
    assert_eq!(build(&pattern, rotated).unwrap().affected_rows, [1, 4, 7]);
}

#[test]
fn accumulator_resets_wraps_and_repeats_inside_midi_bounds() {
    let mut pattern = fixture(16, false);
    pattern.rows[0][0].note = Note::On(124);
    let mut settings = recipe(&pattern, Tool::Accumulator);
    settings.length = 8;
    settings.amount = 12;
    settings.offset = 5;
    settings.phase = 2;
    settings.collision = CollisionPolicy::ReplaceNotes;
    let first = build(&pattern, settings).unwrap();
    assert_eq!(first, build(&pattern, settings).unwrap());
    let notes = first.pattern.rows[..8]
        .iter()
        .map(|row| row[0].note)
        .collect::<Vec<_>>();
    assert_eq!(
        notes,
        [126, 127, 124, 125, 126, 127, 124, 125].map(Note::On)
    );
    let mut negative_pattern = fixture(16, false);
    negative_pattern.rows[0][0].note = Note::On(3);
    settings.offset = -5;
    let negative = build(&negative_pattern, settings).unwrap();
    assert_eq!(
        negative.pattern.rows[..8]
            .iter()
            .map(|row| row[0].note)
            .collect::<Vec<_>>(),
        [1, 0, 3, 2, 1, 0, 3, 2].map(Note::On)
    );
    settings.offset = 0;
    let reset = build(&negative_pattern, settings).unwrap();
    assert!(reset.pattern.rows[..8]
        .iter()
        .all(|row| row[0].note == Note::On(3)));
}

#[test]
fn mutation_seed_density_scope_and_protected_cells_are_stable() {
    let mut pattern = fixture(16, false);
    for row in 1..16 {
        pattern.rows[row][0] = Cell {
            note: Note::On(60 + row as u8 % 8),
            velocity: Some(70 + row as u8),
            probability: 80,
            condition: StepCondition::Previous,
            ..Cell::default()
        };
    }
    pattern.rows[4][0].command = Command::Retrigger(2);
    pattern.rows[5][0].note = Note::Off;
    pattern.rows[6][1].note = Note::On(90);
    let mut settings = recipe(&pattern, Tool::Mutation);
    settings.length = 16;
    settings.amount = 2;
    settings.density = 100;
    let first = build(&pattern, settings).unwrap();
    assert_eq!(first, build(&pattern, settings).unwrap());
    assert_eq!(first.pattern.rows[4][0], pattern.rows[4][0]);
    assert_eq!(first.pattern.rows[5][0], pattern.rows[5][0]);
    assert_eq!(first.pattern.rows[6][1], pattern.rows[6][1]);
    assert!(first.report.protected >= 2);
    for row in first.affected_rows {
        assert_eq!(
            first.pattern.rows[row][0].velocity,
            pattern.rows[row][0].velocity
        );
        assert_eq!(
            first.pattern.rows[row][0].condition,
            pattern.rows[row][0].condition
        );
    }
    settings.seed += 1;
    assert_ne!(build(&pattern, settings).unwrap().pattern, first.pattern);
    settings.seed -= 1;
    settings.density = 50;
    let intermediate = build(&pattern, settings).unwrap();
    assert_eq!(intermediate, build(&pattern, settings).unwrap());
    assert!(intermediate.report.affected > 0);
    assert!(intermediate.report.affected < first.report.affected);
    settings.density = 0;
    assert_eq!(build(&pattern, settings).unwrap().report.affected, 0);
}

#[test]
fn controlled_fill_is_exact_seeded_fill_only_and_bounded() {
    let pattern = fixture(16, true);
    let mut settings = recipe(&pattern, Tool::Fill);
    settings.length = 16;
    settings.amount = 6;
    settings.collision = CollisionPolicy::ReplaceNotes;
    let first = build(&pattern, settings).unwrap();
    assert_eq!(first.report.candidates, 6);
    assert_eq!(first, build(&pattern, settings).unwrap());
    for row in &first.affected_rows {
        assert_eq!(first.pattern.rows[*row][0].condition, StepCondition::Fill);
        assert!(first.pattern.rows[*row][0]
            .velocity
            .is_some_and(|value| value <= 127));
    }
    settings.seed += 1;
    assert_ne!(
        first.affected_rows,
        build(&pattern, settings).unwrap().affected_rows
    );
    settings.seed -= 1;
    settings.phase = 1;
    let rotated = build(&pattern, settings).unwrap();
    let mut expected = first
        .affected_rows
        .iter()
        .map(|row| (row + 1) % 16)
        .collect::<Vec<_>>();
    expected.sort_unstable();
    assert_eq!(rotated.affected_rows, expected);
    let melodic = fixture(16, false);
    assert!(build(&melodic, settings).is_err());
}

#[test]
fn reports_replacements_collisions_protection_and_noop_drafts_exactly() {
    let mut pattern = fixture(8, false);
    pattern.rows[1][0] = Cell {
        note: Note::On(64),
        ..Cell::default()
    };
    pattern.rows[2][0] = Cell {
        note: Note::Off,
        ..Cell::default()
    };
    pattern.rows[3][0] = Cell {
        command: Command::Tempo(Bpm::default_tempo()),
        ..Cell::default()
    };
    let mut settings = recipe(&pattern, Tool::Accumulator);
    settings.length = 4;
    settings.amount = 12;
    settings.offset = 2;
    settings.phase = 2;
    let empty_only = build(&pattern, settings).unwrap();
    assert_eq!(empty_only.report.collisions, 4);
    assert_eq!(empty_only.report.protected, 2);
    assert_eq!(empty_only.pattern, pattern);
    settings.collision = CollisionPolicy::ReplaceNotes;
    let replace = build(&pattern, settings).unwrap();
    assert_eq!(replace.report.replacements, 2);
    assert_eq!(replace.report.collisions, 2);
    assert_eq!(replace.report.protected, 2);
    assert_eq!(replace.report.affected, 2);
    assert_eq!(pattern.swing_division, SwingDivision::Sixteenth);
}

#[test]
fn arpeggio_extracts_explicit_chord_orders_octaves_rates_gates_and_repeats() {
    let mut pattern = fixture(48, false);
    pattern.rows[0][0] = Cell {
        note: Note::On(67),
        velocity: Some(91),
        program: Some(4),
        gate: Some(20),
        command: Command::Retrigger(2),
        nudge: 12,
        probability: 50,
        condition: StepCondition::Previous,
    };
    pattern.rows[0][1] = Cell {
        note: Note::On(60),
        velocity: Some(72),
        ..Cell::default()
    };
    pattern.rows[0][2] = Cell {
        note: Note::On(64),
        velocity: Some(83),
        ..Cell::default()
    };
    pattern.rows[0][3] = Cell {
        note: Note::On(60),
        velocity: Some(120),
        ..Cell::default()
    };
    let mut settings = recipe(&pattern, Tool::Arpeggio);
    settings.length = 2;
    settings.gate = 50;
    settings.collision = CollisionPolicy::ReplaceNotes;
    let up = build(&pattern, settings).unwrap();
    assert_eq!(up, build(&pattern, settings).unwrap());
    assert_eq!(up.report.source_cells, 3);
    assert_eq!(up.report.affected, 6);
    assert_eq!(up.affected_rows, [1, 2, 3, 4, 5, 6]);
    assert_eq!(
        up.pattern.rows[1..=6]
            .iter()
            .map(|row| row[0].note)
            .collect::<Vec<_>>(),
        [60, 64, 67, 60, 64, 67].map(Note::On)
    );
    for row in 1..=6 {
        let cell = up.pattern.rows[row][0];
        assert_eq!(cell.gate, Some(50));
        assert_eq!(cell.command, Command::Empty);
        assert_eq!(cell.nudge, 0);
        assert_eq!(cell.probability, 100);
        assert_eq!(cell.condition, StepCondition::Always);
    }

    settings.arpeggio_order = ArpeggioOrder::AsLane;
    settings.length = 1;
    let as_lane = build(&pattern, settings).unwrap();
    assert_eq!(
        as_lane.pattern.rows[1..=3]
            .iter()
            .map(|row| row[0].note)
            .collect::<Vec<_>>(),
        [67, 60, 64].map(Note::On)
    );
    settings.arpeggio_order = ArpeggioOrder::Down;
    let down = build(&pattern, settings).unwrap();
    assert_eq!(
        down.pattern.rows[1..=3]
            .iter()
            .map(|row| row[0].note)
            .collect::<Vec<_>>(),
        [67, 64, 60].map(Note::On)
    );
    settings.arpeggio_order = ArpeggioOrder::UpDown;
    settings.arpeggio_octaves = 2;
    settings.row_rate = RowRate::Two;
    let reflected = build(&pattern, settings).unwrap();
    assert_eq!(
        (1..=10)
            .map(|index| reflected.pattern.rows[index * 2][0].note)
            .collect::<Vec<_>>(),
        [60, 64, 67, 72, 76, 79, 76, 72, 67, 64].map(Note::On)
    );
}

#[test]
fn arpeggio_refuses_missing_source_midi_range_and_partial_pattern_end() {
    let mut empty = fixture(8, false);
    empty.rows[0][0] = Cell::default();
    let settings = recipe(&empty, Tool::Arpeggio);
    assert!(build(&empty, settings)
        .unwrap_err()
        .message()
        .contains("existing note or chord"));

    let mut high = fixture(16, false);
    high.rows[0][0].note = Note::On(120);
    let mut settings = recipe(&high, Tool::Arpeggio);
    settings.arpeggio_octaves = 2;
    assert_eq!(
        build(&high, settings).unwrap_err().message(),
        "arpeggio MIDI range refusal: 1 note(s)"
    );

    let short = fixture(4, false);
    let mut settings = recipe(&short, Tool::Arpeggio);
    settings.length = 2;
    settings.row_rate = RowRate::Two;
    assert!(build(&short, settings)
        .unwrap_err()
        .message()
        .contains("Pattern-end refusal"));
}

#[test]
fn chord_degrees_quality_inversions_voicing_lanes_and_placement_are_exact() {
    let pattern = fixture(32, false);
    let expected_major = [
        [60, 64, 67],
        [62, 65, 69],
        [64, 67, 71],
        [65, 69, 72],
        [67, 71, 74],
        [69, 72, 76],
        [71, 74, 77],
    ];
    let expected_minor = [
        [60, 63, 67],
        [62, 65, 68],
        [63, 67, 70],
        [65, 68, 72],
        [67, 70, 74],
        [68, 72, 75],
        [70, 74, 77],
    ];
    for (kind, expected) in [
        (ScaleKind::Major, expected_major),
        (ScaleKind::NaturalMinor, expected_minor),
    ] {
        for degree in 1..=7 {
            let mut settings = recipe(&pattern, Tool::Chord);
            settings.scale.kind = kind;
            settings.chord_degree = degree;
            settings.collision = CollisionPolicy::ReplaceNotes;
            let draft = build(&pattern, settings).unwrap();
            assert_eq!(draft, build(&pattern, settings).unwrap());
            assert_eq!(
                draft.pattern.rows[0][..3]
                    .iter()
                    .map(|cell| match cell.note {
                        Note::On(note) => note,
                        _ => 255,
                    })
                    .collect::<Vec<_>>(),
                expected[usize::from(degree - 1)]
            );
            assert_eq!(
                chord_quality_label(settings.scale, degree),
                match expected[usize::from(degree - 1)] {
                    [root, third, fifth] if third - root == 4 && fifth - root == 7 => "MAJ",
                    [root, third, fifth] if third - root == 3 && fifth - root == 7 => "MIN",
                    _ => "DIM",
                }
            );
        }
    }

    let mut settings = recipe(&pattern, Tool::Chord);
    settings.collision = CollisionPolicy::ReplaceNotes;
    settings.chord_inversion = 1;
    assert_eq!(chord_notes(&pattern, settings, 0).unwrap(), [64, 67, 72]);
    settings.chord_inversion = 2;
    assert_eq!(chord_notes(&pattern, settings, 0).unwrap(), [67, 72, 76]);
    settings.chord_inversion = 0;
    settings.chord_voicing = ChordVoicing::Open;
    assert_eq!(chord_notes(&pattern, settings, 0).unwrap(), [60, 67, 76]);
    settings.chord_voicing = ChordVoicing::Close;
    settings.length = 3;
    settings.row_rate = RowRate::Two;
    let placed = build(&pattern, settings).unwrap();
    assert_eq!(placed.affected_rows, [0, 2, 4]);
    assert_eq!(placed.report.candidates, 9);

    settings.lane = 2;
    assert!(build(&pattern, settings)
        .unwrap_err()
        .message()
        .contains("two following lanes"));
}

#[test]
fn chord_refuses_midi_and_pattern_bounds_before_returning_a_partial_draft() {
    let mut pattern = fixture(4, false);
    pattern.rows[0][0].note = Note::On(120);
    let mut settings = recipe(&pattern, Tool::Chord);
    settings.chord_inversion = 2;
    assert!(build(&pattern, settings)
        .unwrap_err()
        .message()
        .contains("MIDI range refusal"));

    settings.chord_inversion = 0;
    settings.length = 3;
    settings.row_rate = RowRate::Two;
    assert!(build(&pattern, settings)
        .unwrap_err()
        .message()
        .contains("Pattern-end refusal"));
}

#[test]
fn harmonizer_scale_interval_voice_policy_range_and_fields_are_exact() {
    let mut pattern = fixture(8, false);
    pattern.rows[0][0] = Cell {
        note: Note::On(60),
        velocity: Some(71),
        program: Some(3),
        gate: Some(62),
        command: Command::Retrigger(3),
        nudge: -17,
        probability: 63,
        condition: StepCondition::Previous,
    };
    pattern.rows[1][0] = Cell {
        note: Note::On(63),
        velocity: Some(88),
        ..Cell::default()
    };
    pattern.rows[2][0] = Cell {
        note: Note::Off,
        ..Cell::default()
    };
    pattern.rows[3][0] = Cell {
        note: Note::On(71),
        ..Cell::default()
    };
    let mut settings = recipe(&pattern, Tool::Harmonizer);
    settings.length = 4;
    assert_eq!(
        build(&pattern, settings).unwrap_err().message(),
        "harmonizer out-of-scale refusal: 1 note(s)"
    );
    settings.out_of_scale = OutOfScalePolicy::Skip;
    let above_third = build(&pattern, settings).unwrap();
    assert_eq!(above_third, build(&pattern, settings).unwrap());
    assert_eq!(above_third.report.out_of_scale, 1);
    assert_eq!(above_third.pattern.rows[0][1].note, Note::On(64));
    let mut expected = pattern.rows[0][0];
    expected.note = Note::On(64);
    assert_eq!(above_third.pattern.rows[0][1], expected);
    assert_eq!(above_third.pattern.rows[2][1].note, Note::Off);
    assert_eq!(above_third.pattern.rows[1][1], Cell::default());
    assert_eq!(pattern.rows[0][0].note, Note::On(60));

    settings.harmony_interval = HarmonyInterval::Fifth;
    assert_eq!(
        build(&pattern, settings).unwrap().pattern.rows[0][1].note,
        Note::On(67)
    );
    settings.harmony_voice = HarmonyVoice::Below;
    settings.harmony_interval = HarmonyInterval::Third;
    assert_eq!(
        build(&pattern, settings).unwrap().pattern.rows[0][1].note,
        Note::On(57)
    );
    settings.harmony_target_lane = 0;
    assert!(build(&pattern, settings)
        .unwrap_err()
        .message()
        .contains("must differ"));

    let mut low = fixture(2, false);
    low.rows[0][0].note = Note::On(0);
    let mut low_settings = recipe(&low, Tool::Harmonizer);
    low_settings.harmony_voice = HarmonyVoice::Below;
    assert_eq!(
        build(&low, low_settings).unwrap_err().message(),
        "harmonizer MIDI range refusal: 1 note(s)"
    );
}

#[test]
fn fill_velocity_ramp_rises_from_the_source_to_at_most_127() {
    let mut pattern = fixture(64, true);
    pattern.rows[0][0].velocity = Some(100);
    let mut settings = recipe(&pattern, Tool::Fill);
    settings.length = 64;
    settings.amount = 64;
    settings.collision = CollisionPolicy::ReplaceNotes;
    let draft = build(&pattern, settings).unwrap();
    let velocities: Vec<u8> = (0..64)
        .map(|row| draft.pattern.rows[row][0].velocity.unwrap())
        .collect();
    assert_eq!(velocities[0], 100);
    assert_eq!(velocities[63], 127);
    for pair in velocities.windows(2) {
        assert!(pair[0] <= pair[1]);
    }
    assert!(velocities.iter().all(|velocity| *velocity <= 127));
}

#[test]
fn every_generated_note_and_velocity_stays_in_midi_range() {
    let mut pattern = fixture(32, false);
    pattern.rows[0][0].note = Note::On(120);
    pattern.rows[0][0].velocity = Some(127);
    for tool in [Tool::Euclidean, Tool::Accumulator, Tool::Mutation, Tool::Harmonizer] {
        let mut settings = recipe(&pattern, tool);
        settings.collision = CollisionPolicy::ReplaceNotes;
        if let Ok(draft) = build(&pattern, settings) {
            for row in &draft.pattern.rows {
                for cell in row {
                    if let Note::On(note) = cell.note {
                        assert!(note <= 127);
                    }
                    assert!(cell.velocity.map_or(true, |velocity| velocity <= 127));
                }
            }
        }
    }
}

#[test]
fn euclidean_and_fill_offer_exactly_their_hits_for_every_rotation() {
    let melodic = fixture(12, false);
    let percussion = fixture(12, true);
    for pulses in 0..=12u16 {
        for phase in 0..12u16 {
            let mut euclidean = recipe(&melodic, Tool::Euclidean);
            euclidean.length = 12;
            euclidean.amount = pulses;
            euclidean.phase = phase;
            assert_eq!(build(&melodic, euclidean).unwrap().report.candidates, pulses as usize);
            let mut fill = recipe(&percussion, Tool::Fill);
            fill.length = 12;
            fill.amount = pulses;
            fill.phase = phase;
            fill.seed = u64::from(pulses) * 31 + u64::from(phase);
            assert_eq!(build(&percussion, fill).unwrap().report.candidates, pulses as usize);
        }
    }
}

#[test]
fn drafts_list_changed_rows_in_order_and_keep_every_other_row() {
    let pattern = fixture(16, false);
    for tool in [Tool::Euclidean, Tool::Accumulator, Tool::Mutation, Tool::Chord, Tool::Arpeggio, Tool::Harmonizer] {
        let mut settings = recipe(&pattern, tool);
        settings.collision = CollisionPolicy::ReplaceNotes;
        if let Ok(draft) = build(&pattern, settings) {
            assert!(draft.affected_rows.windows(2).all(|pair| pair[0] < pair[1]));
            assert!(draft.affected_rows.iter().all(|row| *row < pattern.rows.len()));
            for row in 0..pattern.rows.len() {
                if !draft.affected_rows.contains(&row) {
                    assert_eq!(draft.pattern.rows[row], pattern.rows[row]);
                }
            }
            assert_eq!(draft.pattern.pages, pattern.pages);
        }
    }
}

#[test]
fn empty_only_keeps_every_filled_cell_and_replaces_nothing() {
    let mut pattern = fixture(8, false);
    pattern.rows[3][0] = Cell { note: Note::On(64), ..Cell::default() };
    pattern.rows[5][0] = Cell { note: Note::Off, ..Cell::default() };
    let mut settings = recipe(&pattern, Tool::Accumulator);
    settings.length = 8;
    settings.collision = CollisionPolicy::EmptyOnly;
    let draft = build(&pattern, settings).unwrap();
    assert_eq!(draft.report.replacements, 0);
    assert_eq!(draft.pattern.rows[3][0], pattern.rows[3][0]);
    assert_eq!(draft.pattern.rows[5][0], pattern.rows[5][0]);
    assert_eq!(draft.pattern.rows[0][0], pattern.rows[0][0]);
    assert!(draft.report.collisions >= 2);
}
