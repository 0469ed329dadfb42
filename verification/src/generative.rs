//! Offline, deterministic Pattern generators.
//!
//! Drafting always works on a copy of the source Pattern; the source is never
//! changed. A draft records which cells changed and why others did not.

use vstd::prelude::*;

use crate::text::{push_decimal, spec_decimal};
use crate::scale::{spec_intervals, spec_scale_contains, Scale, ScaleKind};
use crate::sequencer::{
    copy_row, empty_cell, midi_cell, Cell, Command, Note, Pattern, StepCondition, LANES_PER_PAGE, MAX_ROWS,
};

verus! {

/// The generator a Recipe drives.
#[derive(Clone, Copy, Debug, PartialEq, Eq, Structural)]
pub enum Tool {
    Euclidean,
    Accumulator,
    Mutation,
    Fill,
    Arpeggio,
    Chord,
    Harmonizer,
}

impl Tool {
    pub open spec fn spec_label(self) -> Seq<char> {
        match self {
            Tool::Euclidean => "EUCLIDEAN"@,
            Tool::Accumulator => "ACCUMULATOR"@,
            Tool::Mutation => "MUTATION"@,
            Tool::Fill => "FILL"@,
            Tool::Arpeggio => "ARPEGGIO"@,
            Tool::Chord => "CHORD"@,
            Tool::Harmonizer => "HARMONIZER"@,
        }
    }

    pub fn label(self) -> (label: &'static str)
        ensures
            label@ == self.spec_label(),
    {
        match self {
            Tool::Euclidean => "EUCLIDEAN",
            Tool::Accumulator => "ACCUMULATOR",
            Tool::Mutation => "MUTATION",
            Tool::Fill => "FILL",
            Tool::Arpeggio => "ARPEGGIO",
            Tool::Chord => "CHORD",
            Tool::Harmonizer => "HARMONIZER",
        }
    }

    /// Every tool, in menu order.
    pub fn all() -> (tools: [Tool; 7])
        ensures
            tools@ == seq![
                Tool::Euclidean,
                Tool::Accumulator,
                Tool::Mutation,
                Tool::Fill,
                Tool::Arpeggio,
                Tool::Chord,
                Tool::Harmonizer,
            ],
    {
        let tools = [
            Tool::Euclidean,
            Tool::Accumulator,
            Tool::Mutation,
            Tool::Fill,
            Tool::Arpeggio,
            Tool::Chord,
            Tool::Harmonizer,
        ];
        assert(tools@ =~= seq![
            Tool::Euclidean,
            Tool::Accumulator,
            Tool::Mutation,
            Tool::Fill,
            Tool::Arpeggio,
            Tool::Chord,
            Tool::Harmonizer,
        ]);
        tools
    }
}

impl Default for Tool {
    fn default() -> (tool: Tool)
        ensures
            tool == Tool::Euclidean,
    {
        Tool::Euclidean
    }
}

/// Order in which an arpeggio walks the extracted chord.
#[derive(Clone, Copy, Debug, PartialEq, Eq, Structural)]
pub enum ArpeggioOrder {
    Up,
    Down,
    UpDown,
    AsLane,
}

impl ArpeggioOrder {
    pub open spec fn spec_label(self) -> Seq<char> {
        match self {
            ArpeggioOrder::Up => "UP"@,
            ArpeggioOrder::Down => "DOWN"@,
            ArpeggioOrder::UpDown => "UP/DOWN"@,
            ArpeggioOrder::AsLane => "AS LANE"@,
        }
    }

    pub fn label(self) -> (label: &'static str)
        ensures
            label@ == self.spec_label(),
    {
        match self {
            ArpeggioOrder::Up => "UP",
            ArpeggioOrder::Down => "DOWN",
            ArpeggioOrder::UpDown => "UP/DOWN",
            ArpeggioOrder::AsLane => "AS LANE",
        }
    }
}

/// Rows between generated steps.
#[derive(Clone, Copy, Debug, PartialEq, Eq, Structural)]
pub enum RowRate {
    One,
    Two,
    Four,
    Eight,
}

impl RowRate {
    pub open spec fn spec_rows(self) -> usize {
        match self {
            RowRate::One => 1,
            RowRate::Two => 2,
            RowRate::Four => 4,
            RowRate::Eight => 8,
        }
    }

    pub fn rows(self) -> (rows: usize)
        ensures
            rows == self.spec_rows(),
    {
        match self {
            RowRate::One => 1,
            RowRate::Two => 2,
            RowRate::Four => 4,
            RowRate::Eight => 8,
        }
    }

    pub open spec fn spec_label(self) -> Seq<char> {
        match self {
            RowRate::One => "1 ROW"@,
            RowRate::Two => "2 ROWS"@,
            RowRate::Four => "4 ROWS"@,
            RowRate::Eight => "8 ROWS"@,
        }
    }

    pub fn label(self) -> (label: &'static str)
        ensures
            label@ == self.spec_label(),
    {
        match self {
            RowRate::One => "1 ROW",
            RowRate::Two => "2 ROWS",
            RowRate::Four => "4 ROWS",
            RowRate::Eight => "8 ROWS",
        }
    }
}

/// Spacing of the three chord voices.
#[derive(Clone, Copy, Debug, PartialEq, Eq, Structural)]
pub enum ChordVoicing {
    Close,
    Open,
}

impl ChordVoicing {
    pub open spec fn spec_label(self) -> Seq<char> {
        match self {
            ChordVoicing::Close => "CLOSE"@,
            ChordVoicing::Open => "OPEN"@,
        }
    }

    pub fn label(self) -> (label: &'static str)
        ensures
            label@ == self.spec_label(),
    {
        match self {
            ChordVoicing::Close => "CLOSE",
            ChordVoicing::Open => "OPEN",
        }
    }
}

/// Quality of the diatonic triad on a scale degree (1..=7; others clamp).
pub open spec fn spec_chord_quality_label(scale: Scale, degree: u8) -> Seq<char> {
    let index: int = if degree == 0 { 0 } else if degree > 7 { 6 } else { degree - 1 };
    match scale.kind {
        ScaleKind::Major => seq!["MAJ"@, "MIN"@, "MIN"@, "MAJ"@, "MAJ"@, "MIN"@, "DIM"@][index],
        ScaleKind::NaturalMinor => seq!["MIN"@, "DIM"@, "MAJ"@, "MIN"@, "MIN"@, "MAJ"@, "MAJ"@][index],
    }
}

pub fn chord_quality_label(scale: Scale, degree: u8) -> (label: &'static str)
    ensures
        label@ == spec_chord_quality_label(scale, degree),
{
    let index: usize = if degree == 0 { 0 } else if degree > 7 { 6 } else { (degree - 1) as usize };
    match scale.kind {
        ScaleKind::Major => {
            if index == 0 || index == 3 || index == 4 {
                "MAJ"
            } else if index == 6 {
                "DIM"
            } else {
                "MIN"
            }
        },
        ScaleKind::NaturalMinor => {
            if index == 0 || index == 3 || index == 4 {
                "MIN"
            } else if index == 1 {
                "DIM"
            } else {
                "MAJ"
            }
        },
    }
}

/// Diatonic distance of a harmony voice.
#[derive(Clone, Copy, Debug, PartialEq, Eq, Structural)]
pub enum HarmonyInterval {
    Third,
    Fifth,
}

impl HarmonyInterval {
    pub open spec fn spec_steps(self) -> usize {
        match self {
            HarmonyInterval::Third => 2,
            HarmonyInterval::Fifth => 4,
        }
    }

    pub fn steps(self) -> (steps: usize)
        ensures
            steps == self.spec_steps(),
    {
        match self {
            HarmonyInterval::Third => 2,
            HarmonyInterval::Fifth => 4,
        }
    }

    pub open spec fn spec_label(self) -> Seq<char> {
        match self {
            HarmonyInterval::Third => "THIRD"@,
            HarmonyInterval::Fifth => "FIFTH"@,
        }
    }

    pub fn label(self) -> (label: &'static str)
        ensures
            label@ == self.spec_label(),
    {
        match self {
            HarmonyInterval::Third => "THIRD",
            HarmonyInterval::Fifth => "FIFTH",
        }
    }
}

/// Whether the harmony voice sits above or below its source.
#[derive(Clone, Copy, Debug, PartialEq, Eq, Structural)]
pub enum HarmonyVoice {
    Above,
    Below,
}

impl HarmonyVoice {
    pub open spec fn spec_label(self) -> Seq<char> {
        match self {
            HarmonyVoice::Above => "ABOVE"@,
            HarmonyVoice::Below => "BELOW"@,
        }
    }

    pub fn label(self) -> (label: &'static str)
        ensures
            label@ == self.spec_label(),
    {
        match self {
            HarmonyVoice::Above => "ABOVE",
            HarmonyVoice::Below => "BELOW",
        }
    }
}

/// What the harmonizer does with source notes outside the key.
#[derive(Clone, Copy, Debug, PartialEq, Eq, Structural)]
pub enum OutOfScalePolicy {
    Refuse,
    Skip,
}

impl OutOfScalePolicy {
    pub open spec fn spec_label(self) -> Seq<char> {
        match self {
            OutOfScalePolicy::Refuse => "REFUSE"@,
            OutOfScalePolicy::Skip => "SKIP"@,
        }
    }

    pub fn label(self) -> (label: &'static str)
        ensures
            label@ == self.spec_label(),
    {
        match self {
            OutOfScalePolicy::Refuse => "REFUSE",
            OutOfScalePolicy::Skip => "SKIP",
        }
    }
}

/// What a generated cell does when its target already holds something.
#[derive(Clone, Copy, Debug, PartialEq, Eq, Structural)]
pub enum CollisionPolicy {
    EmptyOnly,
    ReplaceNotes,
}

impl CollisionPolicy {
    pub open spec fn spec_label(self) -> Seq<char> {
        match self {
            CollisionPolicy::EmptyOnly => "EMPTY ONLY"@,
            CollisionPolicy::ReplaceNotes => "REPLACE NOTE"@,
        }
    }

    pub fn label(self) -> (label: &'static str)
        ensures
            label@ == self.spec_label(),
    {
        match self {
            CollisionPolicy::EmptyOnly => "EMPTY ONLY",
            CollisionPolicy::ReplaceNotes => "REPLACE NOTE",
        }
    }
}

/// Every setting of one generator run.
#[derive(Clone, Copy, Debug, PartialEq, Eq, Structural)]
pub struct Recipe {
    pub tool: Tool,
    pub page: usize,
    pub lane: usize,
    pub start_row: usize,
    pub length: u16,
    /// Euclidean/Fill hits, Accumulator wrap span, Mutation pitch range.
    pub amount: u16,
    /// Accumulator signed increment. Other tools keep this zero.
    pub offset: i8,
    /// Euclidean/Fill rotation or Accumulator initial phase.
    pub phase: u16,
    pub density: u8,
    pub seed: u64,
    pub collision: CollisionPolicy,
    pub scale: Scale,
    pub arpeggio_order: ArpeggioOrder,
    pub arpeggio_octaves: u8,
    pub row_rate: RowRate,
    pub gate: u8,
    pub chord_degree: u8,
    pub chord_inversion: u8,
    pub chord_voicing: ChordVoicing,
    pub harmony_interval: HarmonyInterval,
    pub harmony_voice: HarmonyVoice,
    pub harmony_target_lane: u8,
    pub out_of_scale: OutOfScalePolicy,
}

/// Why a generator refused to draft.
#[derive(Clone, Copy, Debug, PartialEq, Eq, Structural)]
pub enum GenerativeError {
    CursorOutside,
    LaneOutside,
    RowSpanOutside,
    SourceNeedsNote,
    FillNeedsPercussion,
    ArpeggioNeedsMelodic,
    ArpeggioNeedsSource,
    ArpeggioRange { notes: usize },
    ArpeggioPatternEnd { steps: usize, rate: RowRate, start_row: usize },
    ChordNeedsMelodic,
    ChordNeedsLanes,
    ChordRange { voices: usize },
    ChordPatternEnd { chords: usize, rate: RowRate, start_row: usize },
    HarmonizerNeedsMelodic,
    HarmonizerSameLane,
    HarmonizerOutOfScale { notes: usize },
    HarmonizerRange { notes: usize },
}


impl GenerativeError {
    /// The sentence shown to the user.
    pub open spec fn spec_message(self) -> Seq<char> {
        match self {
            GenerativeError::CursorOutside => "generator cursor is outside the Pattern"@,
            GenerativeError::LaneOutside => "generator lane is outside the Pattern"@,
            GenerativeError::RowSpanOutside => "generator row span is outside the Pattern"@,
            GenerativeError::SourceNeedsNote => "generator source cell needs a note trigger"@,
            GenerativeError::FillNeedsPercussion => "controlled Fill requires a percussion page"@,
            GenerativeError::ArpeggioNeedsMelodic => "arpeggio requires a melodic page"@,
            GenerativeError::ArpeggioNeedsSource => "arpeggio source row needs an existing note or chord"@,
            GenerativeError::ArpeggioRange { notes } => "arpeggio MIDI range refusal: "@ + spec_decimal(notes as nat)
                + " note(s)"@,
            GenerativeError::ArpeggioPatternEnd { steps, rate, start_row } => "arpeggio Pattern-end refusal: "@
                + spec_decimal(steps as nat) + " step(s) at "@ + rate.spec_label() + " from row "@ + spec_decimal(
                start_row as nat,
            ),
            GenerativeError::ChordNeedsMelodic => "chord generator requires a melodic page"@,
            GenerativeError::ChordNeedsLanes => "chord needs the selected lane plus two following lanes"@,
            GenerativeError::ChordRange { voices } => "chord MIDI range refusal: "@ + spec_decimal(voices as nat)
                + " voice(s)"@,
            GenerativeError::ChordPatternEnd { chords, rate, start_row } => "chord Pattern-end refusal: "@
                + spec_decimal(chords as nat) + " chord(s) at "@ + rate.spec_label() + " from row "@ + spec_decimal(
                start_row as nat,
            ),
            GenerativeError::HarmonizerNeedsMelodic => "harmonizer requires a melodic page"@,
            GenerativeError::HarmonizerSameLane => "harmonizer target lane must differ from the source lane"@,
            GenerativeError::HarmonizerOutOfScale { notes } => "harmonizer out-of-scale refusal: "@ + spec_decimal(
                notes as nat,
            ) + " note(s)"@,
            GenerativeError::HarmonizerRange { notes } => "harmonizer MIDI range refusal: "@ + spec_decimal(
                notes as nat,
            ) + " note(s)"@,
        }
    }

    pub fn message(&self) -> (message: String)
        ensures
            message@ == self.spec_message(),
    {
        let mut text = String::new();
        match *self {
            GenerativeError::CursorOutside => text.append("generator cursor is outside the Pattern"),
            GenerativeError::LaneOutside => text.append("generator lane is outside the Pattern"),
            GenerativeError::RowSpanOutside => text.append("generator row span is outside the Pattern"),
            GenerativeError::SourceNeedsNote => text.append("generator source cell needs a note trigger"),
            GenerativeError::FillNeedsPercussion => text.append("controlled Fill requires a percussion page"),
            GenerativeError::ArpeggioNeedsMelodic => text.append("arpeggio requires a melodic page"),
            GenerativeError::ArpeggioNeedsSource => text.append("arpeggio source row needs an existing note or chord"),
            GenerativeError::ArpeggioRange { notes } => {
                text.append("arpeggio MIDI range refusal: ");
                push_decimal(&mut text, notes);
                text.append(" note(s)");
            },
            GenerativeError::ArpeggioPatternEnd { steps, rate, start_row } => {
                text.append("arpeggio Pattern-end refusal: ");
                push_decimal(&mut text, steps);
                text.append(" step(s) at ");
                text.append(rate.label());
                text.append(" from row ");
                push_decimal(&mut text, start_row);
            },
            GenerativeError::ChordNeedsMelodic => text.append("chord generator requires a melodic page"),
            GenerativeError::ChordNeedsLanes => text.append("chord needs the selected lane plus two following lanes"),
            GenerativeError::ChordRange { voices } => {
                text.append("chord MIDI range refusal: ");
                push_decimal(&mut text, voices);
                text.append(" voice(s)");
            },
            GenerativeError::ChordPatternEnd { chords, rate, start_row } => {
                text.append("chord Pattern-end refusal: ");
                push_decimal(&mut text, chords);
                text.append(" chord(s) at ");
                text.append(rate.label());
                text.append(" from row ");
                push_decimal(&mut text, start_row);
            },
            GenerativeError::HarmonizerNeedsMelodic => text.append("harmonizer requires a melodic page"),
            GenerativeError::HarmonizerSameLane => text.append("harmonizer target lane must differ from the source lane"),
            GenerativeError::HarmonizerOutOfScale { notes } => {
                text.append("harmonizer out-of-scale refusal: ");
                push_decimal(&mut text, notes);
                text.append(" note(s)");
            },
            GenerativeError::HarmonizerRange { notes } => {
                text.append("harmonizer MIDI range refusal: ");
                push_decimal(&mut text, notes);
                text.append(" note(s)");
            },
        }
        assert(text@ =~= self.spec_message());
        text
    }
}

/// `min(max(value, low), high)` on integers.
pub open spec fn clamp(value: int, low: int, high: int) -> int {
    if value < low {
        low
    } else if value > high {
        high
    } else {
        value
    }
}

/// The default settings of a tool at the cursor, or why the cursor is outside the Pattern.
pub open spec fn spec_bounded_for(
    rows: nat,
    pages: nat,
    tool: Tool,
    page: usize,
    lane: usize,
    start_row: usize,
    retained_seed: u64,
    scale: Scale,
) -> Result<Recipe, GenerativeError> {
    if start_row >= rows {
        Err(GenerativeError::CursorOutside)
    } else if page >= pages || lane >= LANES_PER_PAGE {
        Err(GenerativeError::LaneOutside)
    } else {
        let remaining = rows - start_row;
        let length: u16 = match tool {
            Tool::Arpeggio | Tool::Chord => 1,
            _ => (if remaining < 16 { remaining } else { 16 }) as u16,
        };
        Ok(
            Recipe {
                tool,
                page,
                lane,
                start_row,
                length,
                amount: match tool {
                    Tool::Euclidean | Tool::Fill => (if length / 4 < 1 { 1 } else { length / 4 }) as u16,
                    Tool::Accumulator => 12,
                    Tool::Mutation => 2,
                    _ => 1,
                },
                offset: match tool {
                    Tool::Accumulator => 2,
                    _ => 0,
                },
                phase: 0,
                density: 50,
                seed: retained_seed,
                collision: CollisionPolicy::EmptyOnly,
                scale,
                arpeggio_order: ArpeggioOrder::Up,
                arpeggio_octaves: 1,
                row_rate: RowRate::One,
                gate: 75,
                chord_degree: 1,
                chord_inversion: 0,
                chord_voicing: ChordVoicing::Close,
                harmony_interval: HarmonyInterval::Third,
                harmony_voice: HarmonyVoice::Above,
                harmony_target_lane: (if lane + 1 < LANES_PER_PAGE { lane + 1 } else if lane == 0 { 0 } else { lane - 1 }) as u8,
                out_of_scale: OutOfScalePolicy::Refuse,
            },
        )
    }
}

/// Gate percentages snap to quarters.
pub open spec fn quantized_gate(gate: u8) -> u8 {
    if gate <= 25 {
        25
    } else if gate <= 50 {
        50
    } else if gate <= 75 {
        75
    } else {
        100
    }
}

/// The recipe with every setting brought into its tool's bounds, or why it cannot be.
pub open spec fn spec_normalize(recipe: Recipe, rows: nat, pages: nat) -> Result<Recipe, GenerativeError> {
    if recipe.page >= pages || recipe.lane >= LANES_PER_PAGE {
        Err(GenerativeError::LaneOutside)
    } else if recipe.start_row >= rows {
        Err(GenerativeError::RowSpanOutside)
    } else {
        let remaining = rows - recipe.start_row;
        let length: u16 = match recipe.tool {
            Tool::Arpeggio | Tool::Chord => clamp(recipe.length as int, 1, 8) as u16,
            _ => clamp(recipe.length as int, 1, if remaining < 256 { remaining as int } else { 256 }) as u16,
        };
        let (amount, offset, phase): (u16, i8, u16) = match recipe.tool {
            Tool::Euclidean | Tool::Fill => (
                if recipe.amount < length { recipe.amount } else { length },
                0i8,
                (recipe.phase % length) as u16,
            ),
            Tool::Accumulator => (
                clamp(recipe.amount as int, 1, 48) as u16,
                clamp(recipe.offset as int, -12, 12) as i8,
                (recipe.phase % length) as u16,
            ),
            Tool::Mutation => (clamp(recipe.amount as int, 1, 12) as u16, 0i8, 0u16),
            _ => (1u16, 0i8, 0u16),
        };
        Ok(
            Recipe {
                length,
                amount,
                offset,
                phase,
                density: if recipe.density < 100 { recipe.density } else { 100 },
                scale: Scale { root: (recipe.scale.root % 12) as u8, kind: recipe.scale.kind },
                arpeggio_octaves: clamp(recipe.arpeggio_octaves as int, 1, 3) as u8,
                gate: quantized_gate(recipe.gate),
                chord_degree: clamp(recipe.chord_degree as int, 1, 7) as u8,
                chord_inversion: if recipe.chord_inversion < 2 { recipe.chord_inversion } else { 2 },
                harmony_target_lane: if recipe.harmony_target_lane < 3 { recipe.harmony_target_lane } else { 3 },
                ..recipe
            },
        )
    }
}

/// A normalized recipe: every bound that `normalize` establishes.
pub open spec fn recipe_in_bounds(recipe: Recipe, rows: nat, pages: nat) -> bool {
    &&& recipe.page < pages
    &&& recipe.lane < LANES_PER_PAGE
    &&& recipe.start_row < rows
    &&& 1 <= recipe.length
    &&& recipe.length <= 256
    &&& (recipe.tool == Tool::Arpeggio || recipe.tool == Tool::Chord) ==> recipe.length <= 8
    &&& !(recipe.tool == Tool::Arpeggio || recipe.tool == Tool::Chord) ==> recipe.start_row + recipe.length <= rows
    &&& recipe.phase < recipe.length
    &&& recipe.amount <= 256
    &&& -12 <= recipe.offset <= 12
    &&& (recipe.tool == Tool::Euclidean || recipe.tool == Tool::Fill) ==> recipe.amount <= recipe.length
    &&& recipe.tool == Tool::Mutation ==> 1 <= recipe.amount <= 12
    &&& recipe.tool == Tool::Accumulator ==> 1 <= recipe.amount <= 48
    &&& recipe.density <= 100
    &&& recipe.scale.root < 12
    &&& 1 <= recipe.arpeggio_octaves <= 3
    &&& 1 <= recipe.chord_degree <= 7
    &&& recipe.chord_inversion <= 2
    &&& recipe.harmony_target_lane <= 3
}

impl Recipe {
    /// The default settings of `tool` at the cursor (page, lane, row).
    pub fn bounded_for(
        pattern: &Pattern,
        tool: Tool,
        page: usize,
        lane: usize,
        start_row: usize,
        retained_seed: u64,
        scale: Scale,
    ) -> (recipe: Result<Recipe, GenerativeError>)
        ensures
            recipe == spec_bounded_for(
                pattern.rows@.len(),
                pattern.pages@.len(),
                tool,
                page,
                lane,
                start_row,
                retained_seed,
                scale,
            ),
    {
        if start_row >= pattern.rows.len() {
            return Err(GenerativeError::CursorOutside);
        }
        let remaining = pattern.rows.len() - start_row;
        if page >= pattern.pages.len() || lane >= LANES_PER_PAGE {
            return Err(GenerativeError::LaneOutside);
        }
        let length: u16 = match tool {
            Tool::Arpeggio | Tool::Chord => 1,
            _ => if remaining < 16 { remaining as u16 } else { 16 },
        };
        let amount: u16 = match tool {
            Tool::Euclidean | Tool::Fill => if length / 4 < 1 { 1 } else { length / 4 },
            Tool::Accumulator => 12,
            Tool::Mutation => 2,
            Tool::Arpeggio | Tool::Chord | Tool::Harmonizer => 1,
        };
        let offset: i8 = match tool {
            Tool::Accumulator => 2,
            _ => 0,
        };
        let harmony_target_lane: u8 = if lane + 1 < LANES_PER_PAGE {
            (lane + 1) as u8
        } else if lane == 0 {
            0
        } else {
            (lane - 1) as u8
        };
        Ok(
            Recipe {
                tool,
                page,
                lane,
                start_row,
                length,
                amount,
                offset,
                phase: 0,
                density: 50,
                seed: retained_seed,
                collision: CollisionPolicy::EmptyOnly,
                scale,
                arpeggio_order: ArpeggioOrder::Up,
                arpeggio_octaves: 1,
                row_rate: RowRate::One,
                gate: 75,
                chord_degree: 1,
                chord_inversion: 0,
                chord_voicing: ChordVoicing::Close,
                harmony_interval: HarmonyInterval::Third,
                harmony_voice: HarmonyVoice::Above,
                harmony_target_lane,
                out_of_scale: OutOfScalePolicy::Refuse,
            },
        )
    }

    /// Bring every setting into the bounds of its tool and the Pattern.
    #[verifier::rlimit(40)]
    pub fn normalize(&mut self, pattern: &Pattern) -> (outcome: Result<(), GenerativeError>)
        ensures
            match spec_normalize(*old(self), pattern.rows@.len(), pattern.pages@.len()) {
                Ok(normalized) => outcome is Ok && *final(self) == normalized,
                Err(error) => outcome == Err::<(), GenerativeError>(error) && *final(self) == *old(self),
            },
            outcome is Ok ==> recipe_in_bounds(*final(self), pattern.rows@.len(), pattern.pages@.len()),
    {
        if self.page >= pattern.pages.len() || self.lane >= LANES_PER_PAGE {
            return Err(GenerativeError::LaneOutside);
        }
        if self.start_row >= pattern.rows.len() {
            return Err(GenerativeError::RowSpanOutside);
        }
        let remaining = pattern.rows.len() - self.start_row;
        let limit: u16 = if remaining < 256 { remaining as u16 } else { 256 };
        let length: u16 = match self.tool {
            Tool::Arpeggio | Tool::Chord => clamp_u16(self.length, 1, 8),
            _ => clamp_u16(self.length, 1, limit),
        };
        let (amount, offset, phase): (u16, i8, u16) = match self.tool {
            Tool::Euclidean | Tool::Fill => (
                if self.amount < length { self.amount } else { length },
                0,
                self.phase % length,
            ),
            Tool::Accumulator => (
                clamp_u16(self.amount, 1, 48),
                if self.offset < -12 { -12 } else if self.offset > 12 { 12 } else { self.offset },
                self.phase % length,
            ),
            Tool::Mutation => (clamp_u16(self.amount, 1, 12), 0, 0),
            Tool::Arpeggio | Tool::Chord | Tool::Harmonizer => (1, 0, 0),
        };
        let gate: u8 = if self.gate <= 25 {
            25
        } else if self.gate <= 50 {
            50
        } else if self.gate <= 75 {
            75
        } else {
            100
        };
        let octaves: u8 = if self.arpeggio_octaves < 1 {
            1
        } else if self.arpeggio_octaves > 3 {
            3
        } else {
            self.arpeggio_octaves
        };
        let degree: u8 = if self.chord_degree < 1 {
            1
        } else if self.chord_degree > 7 {
            7
        } else {
            self.chord_degree
        };
        *self = Recipe {
            length,
            amount,
            offset,
            phase,
            density: if self.density < 100 { self.density } else { 100 },
            scale: Scale { root: self.scale.root % 12, kind: self.scale.kind },
            arpeggio_octaves: octaves,
            gate,
            chord_degree: degree,
            chord_inversion: if self.chord_inversion < 2 { self.chord_inversion } else { 2 },
            harmony_target_lane: if self.harmony_target_lane < 3 { self.harmony_target_lane } else { 3 },
            ..*self
        };
        Ok(())
    }

    pub open spec fn spec_end_row(self) -> int {
        self.start_row + self.length
    }

    /// One past the last row of the recipe's span.
    pub fn end_row(self) -> (end: usize)
        requires
            self.start_row + self.length <= usize::MAX,
        ensures
            end == self.spec_end_row(),
    {
        self.start_row + self.length as usize
    }
}


/// Counts of what a draft proposed, changed and refused.
#[derive(Clone, Copy, Debug, PartialEq, Eq, Structural)]
pub struct Report {
    pub source_cells: usize,
    pub candidates: usize,
    pub affected: usize,
    pub replacements: usize,
    pub collisions: usize,
    pub protected: usize,
    pub out_of_scale: usize,
    pub range_refusals: usize,
}

pub open spec fn empty_report() -> Report {
    Report {
        source_cells: 0,
        candidates: 0,
        affected: 0,
        replacements: 0,
        collisions: 0,
        protected: 0,
        out_of_scale: 0,
        range_refusals: 0,
    }
}

impl Report {
    pub fn new() -> (report: Report)
        ensures
            report == empty_report(),
    {
        Report {
            source_cells: 0,
            candidates: 0,
            affected: 0,
            replacements: 0,
            collisions: 0,
            protected: 0,
            out_of_scale: 0,
            range_refusals: 0,
        }
    }

    /// No counter exceeds `bound`.
    pub open spec fn bounded_by(self, bound: int) -> bool {
        &&& self.source_cells <= bound
        &&& self.candidates <= bound
        &&& self.affected <= bound
        &&& self.replacements <= bound
        &&& self.collisions <= bound
        &&& self.protected <= bound
        &&& self.out_of_scale <= bound
        &&& self.range_refusals <= bound
    }
}

impl Default for Report {
    fn default() -> (report: Report)
        ensures
            report == empty_report(),
    {
        Report::new()
    }
}

/// A generated Pattern, kept apart from its source until it is applied.
#[derive(Debug, PartialEq, Eq)]
pub struct Draft {
    pub recipe: Recipe,
    pub pattern: Pattern,
    pub report: Report,
    pub affected_rows: Vec<usize>,
}

/// The grid, counters and touched rows while a draft is being built.
pub struct DraftState {
    pub grid: Seq<Seq<Cell>>,
    pub report: Report,
    pub affected: Seq<usize>,
}

/// One cell a generator offers to write.
pub struct Proposal {
    pub row: int,
    pub lane: int,
    pub cell: Cell,
}

pub open spec fn state_of(draft: &Pattern, report: Report, affected: Seq<usize>) -> DraftState {
    DraftState { grid: draft.grid(), report, affected }
}

pub open spec fn proposal_at(row: int, lane: int, cell: Cell) -> Proposal {
    Proposal { row, lane, cell }
}

/// Record `row` as touched unless it is already the last touched row.
pub open spec fn with_affected_row(affected: Seq<usize>, row: usize) -> Seq<usize> {
    if affected.len() > 0 && affected.last() == row {
        affected
    } else {
        affected.push(row)
    }
}

pub open spec fn set_cell(grid: Seq<Seq<Cell>>, row: int, lane: int, cell: Cell) -> Seq<Seq<Cell>> {
    grid.update(row, grid[row].update(lane, cell))
}

/// Whether a generated cell may replace what a target holds under `ReplaceNotes`.
pub open spec fn replaceable(cell: Cell) -> bool {
    cell.note is On && cell.command == Command::Empty
}

/// Offer one cell: an equal cell is left alone, an empty target is written,
/// a plain note is replaced under `ReplaceNotes`, anything else is a collision.
pub open spec fn propose_spec(state: DraftState, collision: CollisionPolicy, proposal: Proposal) -> DraftState {
    let report = Report { candidates: (state.report.candidates + 1) as usize, ..state.report };
    let existing = state.grid[proposal.row][proposal.lane];
    if existing == proposal.cell {
        DraftState { report, ..state }
    } else if existing == empty_cell() {
        DraftState {
            grid: set_cell(state.grid, proposal.row, proposal.lane, proposal.cell),
            report: Report { affected: (report.affected + 1) as usize, ..report },
            affected: with_affected_row(state.affected, proposal.row as usize),
        }
    } else if collision == CollisionPolicy::ReplaceNotes && replaceable(existing) {
        DraftState {
            grid: set_cell(state.grid, proposal.row, proposal.lane, proposal.cell),
            report: Report {
                affected: (report.affected + 1) as usize,
                replacements: (report.replacements + 1) as usize,
                ..report
            },
            affected: with_affected_row(state.affected, proposal.row as usize),
        }
    } else {
        DraftState {
            report: Report {
                collisions: (report.collisions + 1) as usize,
                protected: (report.protected + if replaceable(existing) { 0int } else { 1int }) as usize,
                ..report
            },
            ..state
        }
    }
}

/// Offer each proposal in order; `None` entries offer nothing.
pub open spec fn propose_all(
    state: DraftState,
    collision: CollisionPolicy,
    proposals: Seq<Option<Proposal>>,
) -> DraftState
    decreases proposals.len(),
{
    if proposals.len() == 0 {
        state
    } else {
        let before = propose_all(state, collision, proposals.drop_last());
        match proposals.last() {
            Some(proposal) => propose_spec(before, collision, proposal),
            None => before,
        }
    }
}

/// Offering the first `i + 1` proposals is offering the first `i`, then the next.
proof fn lemma_propose_all_step(
    state: DraftState,
    collision: CollisionPolicy,
    proposals: Seq<Option<Proposal>>,
    i: int,
)
    requires
        0 <= i < proposals.len(),
    ensures
        propose_all(state, collision, proposals.take(i + 1)) == (match proposals[i] {
            Some(proposal) => propose_spec(propose_all(state, collision, proposals.take(i)), collision, proposal),
            None => propose_all(state, collision, proposals.take(i)),
        }),
{
    assert(proposals.take(i + 1).drop_last() =~= proposals.take(i));
}

/// Whether some proposal of `proposals` targets the cell at `row`, `lane`.
pub open spec fn targets(proposals: Seq<Option<Proposal>>, row: int, lane: int) -> bool {
    exists|i: int|
        0 <= i < proposals.len() && (#[trigger] proposals[i] matches Some(p) && p.row == row && p.lane == lane)
}

/// A pass of proposals changes no cell that none of them targets, and keeps
/// the grid's shape.
pub proof fn lemma_untargeted_cells_are_kept(
    state: DraftState,
    collision: CollisionPolicy,
    proposals: Seq<Option<Proposal>>,
    row: int,
    lane: int,
)
    requires
        forall|i: int|
            0 <= i < proposals.len() ==> (#[trigger] proposals[i] matches Some(p) ==> 0 <= p.row < state.grid.len() && 0
                <= p.lane < state.grid[p.row].len()),
        !targets(proposals, row, lane),
        0 <= row < state.grid.len(),
        0 <= lane < state.grid[row].len(),
    ensures
        same_shape(propose_all(state, collision, proposals).grid, state.grid),
        propose_all(state, collision, proposals).grid[row][lane] == state.grid[row][lane],
    decreases proposals.len(),
{
    if proposals.len() > 0 {
        let earlier = proposals.drop_last();
        assert(!targets(earlier, row, lane)) by {
            if targets(earlier, row, lane) {
                let i = choose|i: int|
                    0 <= i < earlier.len() && (#[trigger] earlier[i] matches Some(p) && p.row == row && p.lane == lane);
                assert(proposals[i] == earlier[i]);
            }
        }
        assert forall|i: int| 0 <= i < earlier.len() implies (#[trigger] earlier[i] matches Some(p) ==> 0 <= p.row
            < state.grid.len() && 0 <= p.lane < state.grid[p.row].len()) by {
            assert(proposals[i] == earlier[i]);
        }
        lemma_untargeted_cells_are_kept(state, collision, earlier, row, lane);
        let before = propose_all(state, collision, earlier);
        match proposals.last() {
            Some(p) => {
                assert(proposals[proposals.len() - 1] == proposals.last());
                assert(before.grid[p.row].len() == state.grid[p.row].len());
                if row == p.row {
                    assert(lane != p.lane);
                }
                let after = propose_spec(before, collision, p);
                assert forall|r: int| 0 <= r < after.grid.len() implies #[trigger] after.grid[r].len()
                    == state.grid[r].len() by {
                    assert(before.grid[r].len() == state.grid[r].len());
                }
                let written = set_cell(before.grid, p.row, p.lane, p.cell);
                assert(before.grid[row].len() == state.grid[row].len());
                if row == p.row {
                    assert(written[row] == before.grid[row].update(p.lane, p.cell));
                    assert(written[row][lane] == before.grid[row][lane]);
                } else {
                    assert(written[row] == before.grid[row]);
                }
            },
            None => {},
        }
    }
}

/// Every proposal targets a cell of `grid`.
pub open spec fn proposals_within(proposals: Seq<Option<Proposal>>, grid: Seq<Seq<Cell>>) -> bool {
    forall|i: int|
        0 <= i < proposals.len() ==> (#[trigger] proposals[i] matches Some(p) ==> 0 <= p.row < grid.len() && 0 <= p.lane
            < grid[p.row].len())
}

/// Later proposals never target an earlier row.
pub open spec fn rows_ordered(proposals: Seq<Option<Proposal>>) -> bool {
    forall|i: int, j: int|
        0 <= i < j < proposals.len() ==> (#[trigger] proposals[i] matches Some(a) ==> (#[trigger] proposals[j] matches Some(
            b,
        ) ==> a.row <= b.row))
}

/// The touched rows are listed once each, in increasing order, inside the
/// grid, and every row not listed is the source's row unchanged.
pub open spec fn rows_accounted(grid: Seq<Seq<Cell>>, affected: Seq<usize>, source: Seq<Seq<Cell>>) -> bool {
    &&& same_shape(grid, source)
    &&& forall|i: int, j: int| 0 <= i < j < affected.len() ==> #[trigger] affected[i] < #[trigger] affected[j]
    &&& forall|i: int| 0 <= i < affected.len() ==> #[trigger] affected[i] < source.len()
    &&& forall|row: int| 0 <= row < source.len() && !affected.contains(row as usize) ==> #[trigger] grid[row] == source[row]
}

/// Every cell that `source` holds other than the empty cell is unchanged in `grid`.
pub open spec fn filled_cells_kept(grid: Seq<Seq<Cell>>, source: Seq<Seq<Cell>>) -> bool {
    forall|row: int, lane: int|
        0 <= row < source.len() && 0 <= lane < source[row].len() && source[row][lane] != empty_cell() ==> #[trigger] grid[row][lane]
            == source[row][lane]
}

/// Under `EmptyOnly` a pass of proposals writes only into empty cells and replaces nothing.
proof fn lemma_empty_only_pass(state: DraftState, proposals: Seq<Option<Proposal>>)
    requires
        proposals_within(proposals, state.grid),
    ensures
        same_shape(propose_all(state, CollisionPolicy::EmptyOnly, proposals).grid, state.grid),
        filled_cells_kept(propose_all(state, CollisionPolicy::EmptyOnly, proposals).grid, state.grid),
        propose_all(state, CollisionPolicy::EmptyOnly, proposals).report.replacements == state.report.replacements,
    decreases proposals.len(),
{
    if proposals.len() > 0 {
        let earlier = proposals.drop_last();
        assert forall|i: int| 0 <= i < earlier.len() implies (#[trigger] earlier[i] matches Some(p) ==> 0 <= p.row
            < state.grid.len() && 0 <= p.lane < state.grid[p.row].len()) by {
            assert(earlier[i] == proposals[i]);
        }
        lemma_empty_only_pass(state, earlier);
        let before = propose_all(state, CollisionPolicy::EmptyOnly, earlier);
        assert(proposals[proposals.len() - 1] == proposals.last());
        match proposals.last() {
            Some(p) => {
                let after = propose_spec(before, CollisionPolicy::EmptyOnly, p);
                assert(before.grid[p.row].len() == state.grid[p.row].len());
                assert forall|r: int| 0 <= r < after.grid.len() implies #[trigger] after.grid[r].len()
                    == state.grid[r].len() by {
                    assert(before.grid[r].len() == state.grid[r].len());
                }
                assert forall|row: int, lane: int|
                    0 <= row < state.grid.len() && 0 <= lane < state.grid[row].len() && state.grid[row][lane]
                        != empty_cell() implies #[trigger] after.grid[row][lane] == state.grid[row][lane] by {
                    assert(before.grid[row][lane] == state.grid[row][lane]);
                    let written = set_cell(before.grid, p.row, p.lane, p.cell);
                    if row == p.row {
                        assert(written[row] == before.grid[row].update(p.lane, p.cell));
                    } else {
                        assert(written[row] == before.grid[row]);
                    }
                }
            },
            None => {},
        }
    }
}

/// Every listed row is at most `bound`.
pub open spec fn rows_at_most(affected: Seq<usize>, bound: int) -> bool {
    forall|i: int| 0 <= i < affected.len() ==> #[trigger] affected[i] <= bound
}

/// Writing at `row`, at or after every listed row, keeps the rows accounted for.
proof fn lemma_write_keeps_rows_accounted(
    grid: Seq<Seq<Cell>>,
    affected: Seq<usize>,
    source: Seq<Seq<Cell>>,
    row: int,
    lane: int,
    cell: Cell,
)
    requires
        rows_accounted(grid, affected, source),
        0 <= row < source.len(),
        0 <= lane < source[row].len(),
        rows_at_most(affected, row),
        source.len() <= usize::MAX,
    ensures
        rows_accounted(set_cell(grid, row, lane, cell), with_affected_row(affected, row as usize), source),
        with_affected_row(affected, row as usize).contains(row as usize),
        forall|k: int| 0 <= k < affected.len() ==> with_affected_row(affected, row as usize).contains(#[trigger] affected[k]),
{
    let written = set_cell(grid, row, lane, cell);
    let listed = with_affected_row(affected, row as usize);
    if affected.len() > 0 && affected.last() == row {
        assert(listed.contains(row as usize)) by {
            assert(listed[affected.len() - 1] == row as usize);
        }
    } else {
        assert(listed == affected.push(row as usize));
        assert(listed[affected.len() as int] == row as usize);
        if affected.len() > 0 {
            assert(affected[affected.len() - 1] < row);
        }
        assert forall|i: int, j: int| 0 <= i < j < listed.len() implies #[trigger] listed[i] < #[trigger] listed[j] by {
            if j == affected.len() {
                assert(affected[i] <= affected[affected.len() - 1]) by {
                    if i < affected.len() - 1 {
                        assert(affected[i] < affected[affected.len() - 1]);
                    }
                }
            }
        }
        assert forall|k: int| 0 <= k < affected.len() implies listed.contains(#[trigger] affected[k]) by {
            assert(listed[k] == affected[k]);
        }
    }
    assert forall|k: int| 0 <= k < affected.len() implies listed.contains(#[trigger] affected[k]) by {
        assert(listed[k] == affected[k]);
    }
    assert forall|r: int| 0 <= r < written.len() implies #[trigger] written[r].len() == source[r].len() by {
        assert(grid[r].len() == source[r].len());
    }
    assert forall|r: int| 0 <= r < source.len() && !listed.contains(r as usize) implies #[trigger] written[r]
        == source[r] by {
        assert(r != row);
        if affected.contains(r as usize) {
            let k = choose|k: int| 0 <= k < affected.len() && affected[k] == r as usize;
            assert(listed.contains(affected[k]));
        }
    }
}

/// A pass of ordered proposals inside the grid keeps the touched rows
/// accounted for, and lists no row past the last proposal's.
proof fn lemma_rows_pass(
    state: DraftState,
    collision: CollisionPolicy,
    proposals: Seq<Option<Proposal>>,
    source: Seq<Seq<Cell>>,
    bound: int,
)
    requires
        rows_accounted(state.grid, state.affected, source),
        source.len() <= usize::MAX,
        proposals_within(proposals, source),
        rows_ordered(proposals),
        rows_at_most(state.affected, bound),
        forall|i: int| 0 <= i < proposals.len() ==> (#[trigger] proposals[i] matches Some(p) ==> p.row <= bound),
        forall|i: int| 0 <= i < proposals.len() ==> (#[trigger] proposals[i] matches Some(p) ==> rows_at_most(
            state.affected,
            p.row,
        )),
    ensures
        rows_accounted(propose_all(state, collision, proposals).grid, propose_all(state, collision, proposals).affected, source),
        rows_at_most(propose_all(state, collision, proposals).affected, bound),
    decreases proposals.len(),
{
    if proposals.len() > 0 {
        let earlier = proposals.drop_last();
        assert forall|i: int| 0 <= i < earlier.len() implies (#[trigger] earlier[i] matches Some(p) ==> 0 <= p.row
            < source.len() && 0 <= p.lane < source[p.row].len()) by {
            assert(earlier[i] == proposals[i]);
        }
        assert forall|i: int, j: int| 0 <= i < j < earlier.len() implies (#[trigger] earlier[i] matches Some(a) ==> (
        #[trigger] earlier[j] matches Some(b) ==> a.row <= b.row)) by {
            assert(earlier[i] == proposals[i] && earlier[j] == proposals[j]);
        }
        assert forall|i: int| 0 <= i < earlier.len() implies (#[trigger] earlier[i] matches Some(p) ==> rows_at_most(
            state.affected,
            p.row,
        )) by {
            assert(earlier[i] == proposals[i]);
        }
        let last_index = proposals.len() - 1;
        assert(proposals[last_index] == proposals.last());
        match proposals.last() {
            Some(q) => {
                assert forall|i: int| 0 <= i < earlier.len() implies (#[trigger] earlier[i] matches Some(p) ==> p.row
                    <= q.row) by {
                    assert(earlier[i] == proposals[i]);
                }
                lemma_rows_pass(state, collision, earlier, source, q.row);
                let before = propose_all(state, collision, earlier);
                let after = propose_spec(before, collision, q);
                if after.grid != before.grid || after.affected != before.affected {
                    lemma_write_keeps_rows_accounted(before.grid, before.affected, source, q.row, q.lane, q.cell);
                }
                assert forall|i: int| 0 <= i < after.affected.len() implies #[trigger] after.affected[i] <= bound by {
                    if i < before.affected.len() {
                        assert(after.affected[i] == before.affected[i]);
                    }
                }
            },
            None => {
                assert forall|i: int| 0 <= i < earlier.len() implies (#[trigger] earlier[i] matches Some(p) ==> p.row
                    <= bound) by {
                    assert(earlier[i] == proposals[i]);
                }
                lemma_rows_pass(state, collision, earlier, source, bound);
            },
        }
    }
}

/// The grid of `pattern` with the same shape as `grid`.
pub open spec fn same_shape(grid: Seq<Seq<Cell>>, other: Seq<Seq<Cell>>) -> bool {
    &&& grid.len() == other.len()
    &&& forall|row: int| 0 <= row < grid.len() ==> #[trigger] grid[row].len() == other[row].len()
}

fn push_affected_row(affected_rows: &mut Vec<usize>, row: usize)
    ensures
        final(affected_rows)@ == with_affected_row(old(affected_rows)@, row),
{
    let n = affected_rows.len();
    if n == 0 || affected_rows[n - 1] != row {
        affected_rows.push(row);
    }
}

fn propose(
    draft: &mut Pattern,
    collision: CollisionPolicy,
    row: usize,
    lane: usize,
    candidate: Cell,
    report: &mut Report,
    affected_rows: &mut Vec<usize>,
)
    requires
        row < old(draft).rows@.len(),
        lane < old(draft).rows@[row as int]@.len(),
        old(report).bounded_by(usize::MAX - 1),
        midi_cell(candidate),
    ensures
        midi_grid(old(draft)) ==> midi_grid(final(draft)),
        state_of(final(draft), *final(report), final(affected_rows)@) == propose_spec(
            state_of(old(draft), *old(report), old(affected_rows)@),
            collision,
            proposal_at(row as int, lane as int, candidate),
        ),
        final(draft).pages@ == old(draft).pages@,
        final(draft).tempo == old(draft).tempo,
        final(draft).steps_per_beat == old(draft).steps_per_beat,
        final(draft).swing_division == old(draft).swing_division,
        same_shape(final(draft).grid(), old(draft).grid()),
        final(draft).rows@.len() == old(draft).rows@.len(),
        forall|r: int| 0 <= r < final(draft).rows@.len() ==> #[trigger] final(draft).rows@[r]@.len() == old(draft).rows@[r]@.len(),
        forall|r: int, l: int|
            0 <= r < old(draft).rows@.len() && 0 <= l < old(draft).rows@[r]@.len() && !changeable(
                #[trigger] old(draft).rows@[r]@[l],
            ) ==> final(draft).rows@[r]@[l] == old(draft).rows@[r]@[l],
        forall|bound: int| old(report).bounded_by(bound) ==> final(report).bounded_by(bound + 1),
{
    report.candidates = report.candidates + 1;
    let existing = draft.rows[row][lane];
    let ghost before = draft.grid();
    if existing.same_as(&candidate) {
        return;
    }
    let empty = Cell::empty();
    if existing.same_as(&empty) {
        draft.rows[row][lane] = candidate;
        report.affected = report.affected + 1;
        push_affected_row(affected_rows, row);
        proof {
            assert(draft.grid() =~= set_cell(before, row as int, lane as int, candidate));
        }
        return;
    }
    let is_replaceable = match existing.note {
        Note::On(_) => match existing.command {
            Command::Empty => true,
            _ => false,
        },
        _ => false,
    };
    if collision == CollisionPolicy::ReplaceNotes && is_replaceable {
        draft.rows[row][lane] = candidate;
        report.affected = report.affected + 1;
        report.replacements = report.replacements + 1;
        push_affected_row(affected_rows, row);
        proof {
            assert(draft.grid() =~= set_cell(before, row as int, lane as int, candidate));
        }
    } else {
        report.collisions = report.collisions + 1;
        if !is_replaceable {
            report.protected = report.protected + 1;
        }
    }
}


/// Whether step `step` of a `length`-step Euclidean rhythm with `pulses`
/// onsets, rotated right by `rotation`, is a hit.
pub open spec fn spec_euclidean_hit(step: int, length: int, pulses: int, rotation: int) -> bool {
    if pulses == 0 {
        false
    } else if pulses >= length {
        true
    } else {
        let source_step = (step + length - rotation % length) % length;
        (source_step * pulses) % length < pulses
    }
}

fn euclidean_hit(step: usize, length: usize, pulses: usize, rotation: usize) -> (hit: bool)
    requires
        step < length <= 256,
        pulses <= 256,
    ensures
        hit == spec_euclidean_hit(step as int, length as int, pulses as int, rotation as int),
{
    if pulses == 0 {
        return false;
    }
    if pulses >= length {
        return true;
    }
    let source_step = (step + length - rotation % length) % length;
    proof {
        assert(source_step < 256);
        assert(source_step * pulses <= 256 * 256) by (nonlinear_arith)
            requires
                source_step < 256,
                pulses <= 256,
        ;
    }
    (source_step * pulses) % length < pulses
}

/// The note the Accumulator writes at `step`: the source note advanced by
/// `offset` semitones per step from `phase`, wrapped inside a span of `amount`
/// semitones on the side the offset points to, clipped to MIDI.
pub open spec fn spec_accumulator_note(source: u8, recipe: Recipe, step: int) -> u8 {
    let span = recipe.amount as int;
    let increment = recipe.offset as int;
    if increment == 0 {
        source
    } else {
        let lower = if increment > 0 { source as int } else { if source - span < 0 { 0 } else { source - span } };
        let upper = if increment > 0 { if source + span > 127 { 127 } else { source + span } } else { source as int };
        let width = upper - lower + 1;
        let phase = recipe.phase + step;
        (lower + (source - lower + phase * increment) % width) as u8
    }
}

/// The Accumulator walks inside its span: with a positive offset the notes
/// lie from the source note up to `amount` semitones above it (clipped to
/// 127), with a negative one from `amount` below it (clipped to 0) up to the
/// source note, and without an offset every note is the source note. The
/// walk starts on the source note, and each step moves by the offset,
/// wrapping around the span.
pub proof fn lemma_accumulator_walks_its_span(source: u8, recipe: Recipe, step: int)
    requires
        source <= 127,
        1 <= recipe.amount <= 48,
        -12 <= recipe.offset <= 12,
        step >= 0,
    ensures
        recipe.offset == 0 ==> spec_accumulator_note(source, recipe, step) == source,
        recipe.offset > 0 ==> source <= spec_accumulator_note(source, recipe, step) <= (if source + recipe.amount > 127 {
            127
        } else {
            source + recipe.amount
        }),
        recipe.offset < 0 ==> (if source - recipe.amount < 0 { 0 } else { source - recipe.amount })
            <= spec_accumulator_note(source, recipe, step) <= source,
        recipe.phase + step == 0 ==> spec_accumulator_note(source, recipe, step) == source,
        recipe.offset > 0 ==> (spec_accumulator_note(source, recipe, step + 1) - spec_accumulator_note(source, recipe, step)
            - recipe.offset) % ((if source + recipe.amount > 127 { 127 } else { source + recipe.amount }) - source + 1)
            == 0,
        recipe.offset < 0 ==> (spec_accumulator_note(source, recipe, step + 1) - spec_accumulator_note(source, recipe, step)
            - recipe.offset) % (source - (if source - recipe.amount < 0 { 0 } else { source - recipe.amount }) + 1)
            == 0,
{
    let increment = recipe.offset as int;
    if increment != 0 {
        let span = recipe.amount as int;
        let lower = if increment > 0 { source as int } else { if source - span < 0 { 0 } else { source - span } };
        let upper = if increment > 0 { if source + span > 127 { 127 } else { source + span } } else { source as int };
        let width = upper - lower + 1;
        let here = source - lower + (recipe.phase + step) * increment;
        let next = source - lower + (recipe.phase + step + 1) * increment;
        vstd::arithmetic::div_mod::lemma_mod_bound(here, width);
        vstd::arithmetic::div_mod::lemma_mod_bound(next, width);
        assert(next == here + increment) by (nonlinear_arith)
            requires
                here == source - lower + (recipe.phase + step) * increment,
                next == source - lower + (recipe.phase + step + 1) * increment,
        ;
        vstd::arithmetic::div_mod::lemma_fundamental_div_mod(here, width);
        vstd::arithmetic::div_mod::lemma_fundamental_div_mod(next, width);
        let q1 = here / width;
        let q2 = next / width;
        assert(next % width - here % width - increment == width * (q1 - q2)) by (nonlinear_arith)
            requires
                here == width * q1 + here % width,
                next == width * q2 + next % width,
                next == here + increment,
        ;
        vstd::arithmetic::div_mod::lemma_fundamental_div_mod_converse(
            next % width - here % width - increment,
            width,
            q1 - q2,
            0,
        );
        if recipe.phase + step == 0 {
            assert(here == source - lower) by (nonlinear_arith)
                requires
                    here == source - lower + (recipe.phase + step) * increment,
                    recipe.phase + step == 0,
            ;
            vstd::arithmetic::div_mod::lemma_small_mod((source - lower) as nat, width as nat);
        }
    }
}

fn accumulator_note(source: u8, recipe: Recipe, step: usize) -> (note: u8)
    requires
        source <= 127,
        recipe.amount <= 48,
        -12 <= recipe.offset <= 12,
        step <= 256,
        recipe.phase <= 256,
    ensures
        note == spec_accumulator_note(source, recipe, step as int),
        note <= 127,
{
    let span = recipe.amount as i32;
    let increment = recipe.offset as i32;
    if increment == 0 {
        return source;
    }
    let source_i = source as i32;
    let (lower, upper) = if increment > 0 {
        (source_i, if source_i + span > 127 { 127 } else { source_i + span })
    } else {
        (if source_i - span < 0 { 0 } else { source_i - span }, source_i)
    };
    let width = upper - lower + 1;
    let phase = recipe.phase as i32 + step as i32;
    proof {
        assert(-512 * 12 <= phase * increment <= 512 * 12) by (nonlinear_arith)
            requires
                0 <= phase <= 512,
                -12 <= increment <= 12,
        ;
    }
    let moved = source_i - lower + phase * increment;
    let wrapped = match moved.checked_rem_euclid(width) {
        Some(value) => value,
        None => 0,
    };
    (lower + wrapped) as u8
}

/// The SplitMix64 finalizer.
pub open spec fn spec_splitmix64(value: u64) -> u64 {
    let a = value.wrapping_add(0x9E37_79B9_7F4A_7C15u64);
    let b = (a ^ (a >> 30u64)).wrapping_mul(0xBF58_476D_1CE4_E5B9u64);
    let c = (b ^ (b >> 27u64)).wrapping_mul(0x94D0_49BB_1331_11EBu64);
    c ^ (c >> 31u64)
}

fn splitmix64(value: u64) -> (mixed: u64)
    ensures
        mixed == spec_splitmix64(value),
{
    let a = value.wrapping_add(0x9E37_79B9_7F4A_7C15u64);
    let b = (a ^ (a >> 30u64)).wrapping_mul(0xBF58_476D_1CE4_E5B9u64);
    let c = (b ^ (b >> 27u64)).wrapping_mul(0x94D0_49BB_1331_11EBu64);
    c ^ (c >> 31u64)
}

/// A deterministic pseudo-random word for one cell of one random stream.
pub open spec fn spec_mixed(seed: u64, row: usize, lane: usize, stream: u64) -> u64 {
    spec_splitmix64(
        seed ^ (row as u64).wrapping_mul(0x9E37_79B9_7F4A_7C15u64) ^ (lane as u64).wrapping_mul(
            0xBF58_476D_1CE4_E5B9u64,
        ) ^ stream.wrapping_mul(0x94D0_49BB_1331_11EBu64),
    )
}

fn mixed(seed: u64, row: usize, lane: usize, stream: u64) -> (word: u64)
    ensures
        word == spec_mixed(seed, row, lane, stream),
{
    splitmix64(
        seed ^ (row as u64).wrapping_mul(0x9E37_79B9_7F4A_7C15u64) ^ (lane as u64).wrapping_mul(
            0xBF58_476D_1CE4_E5B9u64,
        ) ^ stream.wrapping_mul(0x94D0_49BB_1331_11EBu64),
    )
}

/// Velocity of the `rank`-th of `hits` fill notes: a ramp from `base` up to 127.
pub open spec fn spec_fill_velocity(base: u8, rank: int, hits: int) -> u8 {
    if hits <= 1 {
        if base < 1 { 1 } else { base }
    } else {
        let rise = (((127 - base) * rank) / (hits - 1)) as u8;
        let raised: u8 = if base + rise > 255 { 255 } else { (base + rise) as u8 };
        if raised < 1 { 1 } else { raised }
    }
}

fn fill_velocity(base: u8, rank: usize, hits: usize) -> (velocity: u8)
    requires
        base <= 127,
        rank <= 256,
    ensures
        velocity == spec_fill_velocity(base, rank as int, hits as int),
        rank < hits ==> velocity <= 127,
{
    if hits <= 1 {
        return if base < 1 { 1 } else { base };
    }
    proof {
        assert((127 - base) * rank <= 127 * 256) by (nonlinear_arith)
            requires
                base <= 127,
                rank <= 256,
        ;
        if rank < hits {
            assert(((127 - base) * rank) / (hits - 1) <= 127 - base) by (nonlinear_arith)
                requires
                    base <= 127,
                    rank <= hits - 1,
                    hits > 1,
            ;
        }
    }
    let rise = ((127 - base) as usize * rank / (hits - 1)) as u8;
    let raised = base.saturating_add(rise);
    if raised < 1 { 1 } else { raised }
}

/// The note cell Euclidean, Accumulator and Fill repeat: the source note with
/// its velocity (or the page's), program and gate, and nothing else.
pub open spec fn template_of(source: Cell, page_velocity: u8) -> Cell {
    Cell {
        note: source.note,
        velocity: Some(
            match source.velocity {
                Some(v) => v,
                None => page_velocity,
            },
        ),
        program: source.program,
        gate: source.gate,
        command: Command::Empty,
        nudge: 0,
        probability: 100,
        condition: StepCondition::Always,
    }
}

/// The cell in the recipe's source position.
pub open spec fn source_cell(pattern: &Pattern, recipe: Recipe) -> Cell {
    pattern.grid()[recipe.start_row as int][global_lane(recipe)]
}

pub open spec fn global_lane(recipe: Recipe) -> int {
    recipe.page * LANES_PER_PAGE + recipe.lane
}

pub open spec fn spec_trigger_template(pattern: &Pattern, recipe: Recipe) -> Result<Cell, GenerativeError> {
    let source = source_cell(pattern, recipe);
    if source.note is On {
        Ok(template_of(source, pattern.pages@[recipe.page as int].velocity))
    } else {
        Err(GenerativeError::SourceNeedsNote)
    }
}

fn trigger_template(pattern: &Pattern, recipe: Recipe, global: usize) -> (template: Result<Cell, GenerativeError>)
    requires
        pattern.well_formed(),
        recipe_in_bounds(recipe, pattern.rows@.len(), pattern.pages@.len()),
        global == global_lane(recipe),
    ensures
        template == spec_trigger_template(pattern, recipe),
        template matches Ok(t) ==> midi_cell(t),
{
    proof {
        lemma_global_lane_in_row(pattern, recipe);
        assert(midi_cell(pattern.rows@[recipe.start_row as int]@[global as int]));
        assert(pattern.pages@[recipe.page as int].velocity <= 127);
    }
    let source = pattern.rows[recipe.start_row][global];
    match source.note {
        Note::On(_) => {},
        _ => {
            return Err(GenerativeError::SourceNeedsNote);
        },
    }
    let velocity = match source.velocity {
        Some(v) => v,
        None => pattern.pages[recipe.page].velocity,
    };
    Ok(
        Cell {
            note: source.note,
            velocity: Some(velocity),
            program: source.program,
            gate: source.gate,
            command: Command::Empty,
            nudge: 0,
            probability: 100,
            condition: StepCondition::Always,
        },
    )
}

/// The recipe's lane lies inside every row of a well-formed Pattern.
proof fn lemma_global_lane_in_row(pattern: &Pattern, recipe: Recipe)
    requires
        pattern.well_formed(),
        recipe_in_bounds(recipe, pattern.rows@.len(), pattern.pages@.len()),
    ensures
        0 <= global_lane(recipe) < pattern.width(),
        recipe.lane + 2 < LANES_PER_PAGE ==> global_lane(recipe) + 2 < pattern.width(),
        forall|row: int| 0 <= row < pattern.rows@.len() ==> #[trigger] pattern.rows@[row]@.len() == pattern.width(),
        pattern.width() <= 64,
{
    assert(recipe.page * 4 + recipe.lane < pattern.pages@.len() * 4) by (nonlinear_arith)
        requires
            recipe.page < pattern.pages@.len(),
            recipe.lane < 4,
    ;
}

/// The next note in the key strictly above (or below) `note`, if one exists in MIDI range.
pub open spec fn next_scale_note(note: int, up: bool, scale: Scale) -> Option<int>
    decreases (if up { 128 - note } else { note + 1 }),
{
    let candidate = if up { note + 1 } else { note - 1 };
    if candidate < 0 || candidate > 127 {
        None
    } else if spec_scale_contains(scale, candidate) {
        Some(candidate)
    } else {
        next_scale_note(candidate, up, scale)
    }
}

/// `note` moved `steps` scale degrees up or down, if it stays in MIDI range.
pub open spec fn spec_diatonic_shift(note: int, scale: Scale, steps: nat, up: bool) -> Option<int>
    decreases steps,
{
    if steps == 0 {
        Some(note)
    } else {
        match spec_diatonic_shift(note, scale, (steps - 1) as nat, up) {
            Some(moved) => next_scale_note(moved, up, scale),
            None => None,
        }
    }
}

proof fn lemma_next_scale_note_range(note: int, up: bool, scale: Scale)
    ensures
        next_scale_note(note, up, scale) matches Some(n) ==> 0 <= n <= 127,
    decreases (if up { 128 - note } else { note + 1 }),
{
    let candidate = if up { note + 1 } else { note - 1 };
    if candidate < 0 || candidate > 127 {
    } else if spec_scale_contains(scale, candidate) {
    } else {
        lemma_next_scale_note_range(candidate, up, scale);
    }
}

proof fn lemma_shift_none_stays_none(note: int, scale: Scale, from: nat, to: nat, up: bool)
    requires
        from <= to,
        spec_diatonic_shift(note, scale, from, up) is None,
    ensures
        spec_diatonic_shift(note, scale, to, up) is None,
    decreases to - from,
{
    if from < to {
        lemma_shift_none_stays_none(note, scale, from, (to - 1) as nat, up);
    }
}

/// The next note of the key in a direction is in the key, lies strictly on
/// that side, inside MIDI, and no note of the key lies between.
pub proof fn lemma_next_scale_note_is_adjacent(note: int, up: bool, scale: Scale)
    ensures
        next_scale_note(note, up, scale) matches Some(n) ==> {
            &&& spec_scale_contains(scale, n)
            &&& 0 <= n <= 127
            &&& up ==> note < n && forall|m: int| note < m < n ==> !spec_scale_contains(scale, m)
            &&& !up ==> n < note && forall|m: int| n < m < note ==> !spec_scale_contains(scale, m)
        },
    decreases (if up { 128 - note } else { note + 1 }),
{
    let candidate = if up { note + 1 } else { note - 1 };
    if candidate < 0 || candidate > 127 {
    } else if spec_scale_contains(scale, candidate) {
    } else {
        lemma_next_scale_note_is_adjacent(candidate, up, scale);
    }
}

/// Moving `steps` degrees in a direction lands on a note of the key on that
/// side (or stays put for no step): the harmony voice is above or below its
/// source as asked.
pub proof fn lemma_diatonic_shift_moves_in_the_key(note: int, scale: Scale, steps: nat, up: bool)
    ensures
        spec_diatonic_shift(note, scale, steps, up) matches Some(n) ==> (steps == 0 ==> n == note) && (steps > 0 ==> {
            &&& spec_scale_contains(scale, n)
            &&& 0 <= n <= 127
            &&& up ==> note < n
            &&& !up ==> n < note
        }),
    decreases steps,
{
    if steps > 0 {
        lemma_diatonic_shift_moves_in_the_key(note, scale, (steps - 1) as nat, up);
        if let Some(moved) = spec_diatonic_shift(note, scale, (steps - 1) as nat, up) {
            lemma_next_scale_note_is_adjacent(moved, up, scale);
        }
    }
}

/// Mutation moves a note to another note at most `range` semitones away,
/// inside MIDI, never to itself, and different choices give different notes.
pub proof fn lemma_mutation_moves_within_range(note: int, range: int, choice: int, other: int)
    requires
        0 <= note <= 127,
        1 <= range,
        0 <= choice < mutation_high(note, range) - mutation_low(note, range),
        0 <= other < mutation_high(note, range) - mutation_low(note, range),
    ensures
        mutation_candidate(note, range, choice) != note,
        0 <= mutation_candidate(note, range, choice) <= 127,
        note - range <= mutation_candidate(note, range, choice) <= note + range,
        choice != other ==> mutation_candidate(note, range, choice) != mutation_candidate(note, range, other),
{
}

/// Fill's velocities ramp: the first note keeps the source velocity (at
/// least 1), later notes never get softer, and the last reaches 127.
pub proof fn lemma_fill_velocity_ramps(base: u8, rank: int, hits: int)
    requires
        base <= 127,
        0 <= rank,
        rank + 1 < hits,
    ensures
        spec_fill_velocity(base, 0, hits) == (if base < 1 { 1 } else { base }),
        spec_fill_velocity(base, rank, hits) <= spec_fill_velocity(base, rank + 1, hits),
        spec_fill_velocity(base, hits - 1, hits) == 127,
        spec_fill_velocity(base, rank, hits) <= 127,
{
    let span = 127 - base;
    assert(0 <= (span * rank) / (hits - 1) <= (span * (rank + 1)) / (hits - 1) <= span) by (nonlinear_arith)
        requires
            0 <= span,
            0 <= rank,
            rank + 1 <= hits - 1,
            hits >= 2,
    ;
    assert((span * (hits - 1)) / (hits - 1) == span) by (nonlinear_arith)
        requires
            hits >= 2,
    ;
    assert((span * 0) / (hits - 1) == 0) by (nonlinear_arith)
        requires
            hits >= 2,
    ;
}

fn diatonic_shift(note: u8, scale: Scale, steps: usize, voice: HarmonyVoice) -> (shifted: Option<u8>)
    requires
        note <= 127,
        steps <= 4,
    ensures
        match spec_diatonic_shift(note as int, scale, steps as nat, voice == HarmonyVoice::Above) {
            Some(n) => 0 <= n <= 127 && shifted == Some(n as u8),
            None => shifted is None,
        },
{
    let up = voice == HarmonyVoice::Above;
    let direction: i16 = if up { 1 } else { -1 };
    let mut shifted: i16 = note as i16;
    let mut done: usize = 0;
    while done < steps
        invariant
            done <= steps,
            0 <= shifted <= 127,
            up == (voice == HarmonyVoice::Above),
            direction == (if up { 1i16 } else { -1i16 }),
            spec_diatonic_shift(note as int, scale, done as nat, up) == Some(shifted as int),
        decreases steps - done,
    {
        let ghost base = shifted as int;
        loop
            invariant_except_break
                0 <= shifted <= 127,
                next_scale_note(base, up, scale) == next_scale_note(shifted as int, up, scale),
            invariant
                done < steps,
                up == (voice == HarmonyVoice::Above),
                direction == (if up { 1i16 } else { -1i16 }),
                spec_diatonic_shift(note as int, scale, done as nat, up) == Some(base),
            ensures
                0 <= shifted <= 127,
                next_scale_note(base, up, scale) == Some(shifted as int),
            decreases (if up { 128 - shifted } else { shifted + 1 }),
        {
            let ghost previous = shifted as int;
            shifted = shifted + direction;
            if shifted < 0 || shifted > 127 {
                proof {
                    assert(next_scale_note(previous, up, scale) is None);
                    assert(spec_diatonic_shift(note as int, scale, (done + 1) as nat, up) is None);
                    lemma_shift_none_stays_none(note as int, scale, (done + 1) as nat, steps as nat, up);
                }
                return None;
            }
            if scale.contains(shifted as u8) {
                assert(next_scale_note(previous, up, scale) == Some(shifted as int));
                break;
            }
            assert(next_scale_note(previous, up, scale) == next_scale_note(shifted as int, up, scale));
        }
        done += 1;
        assert(spec_diatonic_shift(note as int, scale, done as nat, up) == Some(shifted as int));
    }
    Some(shifted as u8)
}


pub open spec fn min3(a: int, b: int, c: int) -> int {
    if a <= b && a <= c { a } else if b <= c { b } else { c }
}

pub open spec fn max3(a: int, b: int, c: int) -> int {
    if a >= b && a >= c { a } else if b >= c { b } else { c }
}

/// Three values in ascending order.
pub open spec fn sort3(a: int, b: int, c: int) -> (int, int, int) {
    (min3(a, b, c), a + b + c - min3(a, b, c) - max3(a, b, c), max3(a, b, c))
}

fn sort3_exec(a: u16, b: u16, c: u16) -> (sorted: [u16; 3])
    requires
        a <= 1000 && b <= 1000 && c <= 1000,
    ensures
        (sorted[0] as int, sorted[1] as int, sorted[2] as int) == sort3(a as int, b as int, c as int),
{
    let (mut x, mut y, mut z) = (a, b, c);
    if x > y {
        let t = x;
        x = y;
        y = t;
    }
    if y > z {
        let t = y;
        y = z;
        z = t;
    }
    if x > y {
        let t = x;
        x = y;
        y = t;
    }
    [x, y, z]
}

/// The octave the chord is built in: that of the source note, or middle C.
pub open spec fn chord_register(source: Cell) -> int {
    match source.note {
        Note::On(n) => (n / 12) * 12,
        _ => 60,
    }
}

/// One voice of the diatonic triad on the recipe's degree, before sorting:
/// root, third and fifth of the scale, raised an octave for inverted voices.
pub open spec fn chord_voice(recipe: Recipe, register: int, voice: int) -> int {
    let scale_degree = (recipe.chord_degree - 1) + 2 * voice;
    register + recipe.scale.root + spec_intervals(recipe.scale.kind)[scale_degree % 7] + (scale_degree / 7)
        * 12 + if voice < recipe.chord_inversion { 12int } else { 0int }
}

/// The chord's three notes in ascending order; open voicing raises the middle voice an octave.
pub open spec fn chord_voices(recipe: Recipe, source: Cell) -> (int, int, int) {
    let register = chord_register(source);
    let close = sort3(
        chord_voice(recipe, register, 0),
        chord_voice(recipe, register, 1),
        chord_voice(recipe, register, 2),
    );
    if recipe.chord_voicing == ChordVoicing::Open {
        sort3(close.0, close.1 + 12, close.2)
    } else {
        close
    }
}

pub open spec fn above_midi(note: int) -> int {
    if note > 127 { 1 } else { 0 }
}

pub open spec fn spec_chord_notes(recipe: Recipe, source: Cell) -> Result<(int, int, int), GenerativeError> {
    let (a, b, c) = chord_voices(recipe, source);
    let refused = above_midi(a) + above_midi(b) + above_midi(c);
    if refused > 0 {
        Err(GenerativeError::ChordRange { voices: refused as usize })
    } else {
        Ok((a, b, c))
    }
}

/// A note twelve semitones times `octaves` above the key's root plus one of
/// the key's intervals lies in the key.
proof fn lemma_in_key(scale: Scale, note: int, octaves: int, degree: int)
    requires
        0 <= degree < 7,
        note == scale.root + spec_intervals(scale.kind)[degree] + 12 * octaves,
    ensures
        spec_scale_contains(scale, note),
{
    let interval = spec_intervals(scale.kind)[degree];
    assert(0 <= interval < 12) by {
        assert(spec_intervals(scale.kind)[degree] <= 11);
    }
    assert(note - scale.root == octaves * 12 + interval) by (nonlinear_arith)
        requires
            note == scale.root + interval + 12 * octaves,
    ;
    vstd::arithmetic::div_mod::lemma_fundamental_div_mod_converse(note - scale.root, 12, octaves, interval as int);
    assert(spec_intervals(scale.kind)[degree] == (note - scale.root as int) % 12);
}

/// Two scale steps up from degree `k` always sound higher.
proof fn lemma_third_rises(kind: ScaleKind, k: int)
    requires
        0 <= k <= 8,
    ensures
        spec_intervals(kind)[k % 7] + (k / 7) * 12 < spec_intervals(kind)[(k + 2) % 7] + ((k + 2) / 7) * 12,
{
    if k == 0 {
    } else if k == 1 {
    } else if k == 2 {
    } else if k == 3 {
    } else if k == 4 {
    } else if k == 5 {
    } else if k == 6 {
    } else if k == 7 {
    } else {
    }
}

/// The octave the chord is built in is a whole number of octaves.
proof fn lemma_register_octaves(source: Cell)
    ensures
        chord_register(source) == 12 * (chord_register(source) / 12),
        chord_register(source) >= 0,
{
    match source.note {
        Note::On(n) => {
            let r = (n / 12) as int;
            assert((r * 12) / 12 == r) by (nonlinear_arith)
                requires
                    r >= 0,
            ;
            assert(12 * r == r * 12) by (nonlinear_arith);
        },
        _ => {},
    }
}

/// Every chord is made of the key's own notes: each voice's pitch class is
/// a degree of the recipe's scale, whatever the degree, inversion, voicing
/// and source octave. In root position and close voicing the lowest voice
/// is the chord's root, the key's degree `chord_degree`, and the voices
/// rise strictly.
pub proof fn lemma_chords_stay_in_the_key(recipe: Recipe, source: Cell)
    requires
        recipe.scale.root < 12,
        1 <= recipe.chord_degree <= 7,
        recipe.chord_inversion <= 2,
    ensures
        spec_chord_notes(recipe, source) matches Ok((low, middle, high)) ==> spec_scale_contains(recipe.scale, low)
            && spec_scale_contains(recipe.scale, middle) && spec_scale_contains(recipe.scale, high),
        spec_chord_notes(recipe, source) matches Ok((low, middle, high)) ==> (recipe.chord_inversion == 0
            && recipe.chord_voicing == ChordVoicing::Close ==> low % 12 == (recipe.scale.root + spec_intervals(
            recipe.scale.kind,
        )[recipe.chord_degree - 1]) % 12 && low < middle < high),
{
    let register = chord_register(source);
    lemma_register_octaves(source);
    let octave = register / 12;
    let scale = recipe.scale;
    let base = recipe.chord_degree - 1;
    assert forall|v: int| 0 <= v < 3 implies spec_scale_contains(scale, #[trigger] chord_voice(recipe, register, v))
        && spec_scale_contains(scale, chord_voice(recipe, register, v) + 12) by {
        let k = base + 2 * v;
        let raised = if v < recipe.chord_inversion { 1int } else { 0int };
        assert(chord_voice(recipe, register, v) == scale.root + spec_intervals(scale.kind)[k % 7] + 12 * (octave + k / 7
            + raised));
        lemma_in_key(scale, chord_voice(recipe, register, v), octave + k / 7 + raised, k % 7);
        lemma_in_key(scale, chord_voice(recipe, register, v) + 12, octave + k / 7 + raised + 1, k % 7);
    }
    let v0 = chord_voice(recipe, register, 0);
    let v1 = chord_voice(recipe, register, 1);
    let v2 = chord_voice(recipe, register, 2);
    let close = sort3(v0, v1, v2);
    assert(spec_scale_contains(scale, v0) && spec_scale_contains(scale, v1) && spec_scale_contains(scale, v2));
    assert(spec_scale_contains(scale, v1 + 12));
    assert(close.0 == v0 || close.0 == v1 || close.0 == v2);
    assert(close.1 == v0 || close.1 == v1 || close.1 == v2);
    assert(close.2 == v0 || close.2 == v1 || close.2 == v2);
    assert(spec_scale_contains(scale, close.1 + 12)) by {
        assert(spec_scale_contains(scale, v0 + 12));
        assert(spec_scale_contains(scale, v2 + 12));
    }
    let open = sort3(close.0, close.1 + 12, close.2);
    assert(open.0 == close.0 || open.0 == close.1 + 12 || open.0 == close.2);
    assert(open.1 == close.0 || open.1 == close.1 + 12 || open.1 == close.2);
    assert(open.2 == close.0 || open.2 == close.1 + 12 || open.2 == close.2);
    if recipe.chord_inversion == 0 {
        lemma_third_rises(scale.kind, base);
        lemma_third_rises(scale.kind, base + 2);
        assert(v0 < v1 < v2);
        let x = scale.root + spec_intervals(scale.kind)[base];
        vstd::arithmetic::div_mod::lemma_fundamental_div_mod(x, 12);
        assert(v0 == (octave + x / 12) * 12 + x % 12) by (nonlinear_arith)
            requires
                v0 == register + x,
                register == 12 * octave,
                x == 12 * (x / 12) + x % 12,
        ;
        vstd::arithmetic::div_mod::lemma_fundamental_div_mod_converse(v0, 12, octave + x / 12, x % 12);
    }
}

fn chord_voice_exec(recipe: Recipe, register: u16, intervals: &[u8; 7], voice: usize) -> (note: u16)
    requires
        1 <= recipe.chord_degree <= 7,
        recipe.chord_inversion <= 2,
        recipe.scale.root < 12,
        intervals@ == spec_intervals(recipe.scale.kind),
        register <= 255,
        voice < 3,
    ensures
        note as int == chord_voice(recipe, register as int, voice as int),
        note <= 400,
{
    let scale_degree = (recipe.chord_degree - 1) as usize + 2 * voice;
    let octave = (scale_degree / 7) as u16;
    let raised: u16 = if (voice as u8) < recipe.chord_inversion { 12 } else { 0 };
    assert(spec_intervals(recipe.scale.kind)[(scale_degree % 7) as int] <= 11);
    register + recipe.scale.root as u16 + intervals[scale_degree % 7] as u16 + octave * 12 + raised
}

pub fn chord_notes(pattern: &Pattern, recipe: Recipe, global: usize) -> (notes: Result<[u8; 3], GenerativeError>)
    requires
        pattern.well_formed(),
        recipe_in_bounds(recipe, pattern.rows@.len(), pattern.pages@.len()),
        global == global_lane(recipe),
    ensures
        match spec_chord_notes(recipe, source_cell(pattern, recipe)) {
            Ok((a, b, c)) => notes is Ok && notes->Ok_0[0] == a && notes->Ok_0[1] == b && notes->Ok_0[2] == c,
            Err(e) => notes == Err::<[u8; 3], GenerativeError>(e),
        },
        notes matches Ok(n) ==> n[0] <= 127 && n[1] <= 127 && n[2] <= 127,
{
    proof {
        lemma_global_lane_in_row(pattern, recipe);
    }
    let ghost source = source_cell(pattern, recipe);
    let register: u16 = match pattern.rows[recipe.start_row][global].note {
        Note::On(note) => (note / 12) as u16 * 12,
        _ => 60,
    };
    let intervals = recipe.scale.kind.intervals();
    let v0 = chord_voice_exec(recipe, register, &intervals, 0);
    let v1 = chord_voice_exec(recipe, register, &intervals, 1);
    let v2 = chord_voice_exec(recipe, register, &intervals, 2);
    let absolute: [u16; 3] = [v0, v1, v2];
    let mut sorted = sort3_exec(absolute[0], absolute[1], absolute[2]);
    if recipe.chord_voicing == ChordVoicing::Open {
        sorted = sort3_exec(sorted[0], sorted[1] + 12, sorted[2]);
    }
    let refused: usize = (if sorted[0] > 127 { 1 } else { 0 }) + (if sorted[1] > 127 { 1 } else { 0 }) + (if sorted[2] > 127 { 1 } else { 0 });
    if refused > 0 {
        return Err(GenerativeError::ChordRange { voices: refused });
    }
    Ok([sorted[0] as u8, sorted[1] as u8, sorted[2] as u8])
}


/// The draft's frame matches its source: same pages and settings, same grid shape.
pub open spec fn draft_frame(draft: &Pattern, source: &Pattern) -> bool {
    &&& draft.pages@ == source.pages@
    &&& draft.tempo == source.tempo
    &&& draft.steps_per_beat == source.steps_per_beat
    &&& draft.swing_division == source.swing_division
    &&& draft.rows@.len() == source.rows@.len()
    &&& forall|row: int| 0 <= row < draft.rows@.len() ==> #[trigger] draft.rows@[row]@.len() == source.width()
    &&& protected_kept(draft, source)
    &&& midi_grid(draft)
}

/// Every note and velocity of the Pattern is a MIDI value.
pub open spec fn midi_grid(pattern: &Pattern) -> bool {
    forall|row: int, lane: int|
        0 <= row < pattern.rows@.len() && 0 <= lane < pattern.rows@[row]@.len() ==> #[trigger] midi_cell(
            pattern.rows@[row]@[lane],
        )
}

/// Every proposed cell holds MIDI values.
pub open spec fn proposals_midi(entries: Seq<Option<(usize, usize, Cell)>>) -> bool {
    forall|i: int| 0 <= i < entries.len() ==> (#[trigger] entries[i] matches Some((_, _, cell)) ==> midi_cell(cell))
}

/// Every cell of `cells` holds MIDI values.
pub open spec fn cells_midi(cells: Seq<Cell>) -> bool {
    forall|i: int| 0 <= i < cells.len() ==> #[trigger] midi_cell(cells[i])
}

/// Whether a generator may write over `cell`: it is empty or a plain note
/// without a command.
pub open spec fn changeable(cell: Cell) -> bool {
    cell == empty_cell() || replaceable(cell)
}

/// Every cell of `source` that holds a command, a note-off or other content
/// than a plain note is unchanged in `draft`.
pub open spec fn protected_kept(draft: &Pattern, source: &Pattern) -> bool {
    forall|row: int, lane: int|
        0 <= row < source.rows@.len() && 0 <= lane < source.rows@[row]@.len() && lane < source.width() && !changeable(
            #[trigger] source.rows@[row]@[lane],
        ) ==> draft.rows@[row]@[lane] == source.rows@[row]@[lane]
}

/// Number of `i` in `0..n` for which the Fill key of step `i` orders before step `step`.
pub open spec fn fill_key(recipe: Recipe, step: int) -> u64 {
    spec_mixed(recipe.seed, (recipe.start_row + step) as usize, global_lane(recipe) as usize, 0)
}

pub open spec fn fill_orders_before(recipe: Recipe, earlier: int, step: int) -> bool {
    fill_key(recipe, earlier) < fill_key(recipe, step) || (fill_key(recipe, earlier) == fill_key(recipe, step)
        && earlier < step)
}

/// How many of the first `n` steps order before `step` by (key, step).
pub open spec fn fill_rank_upto(recipe: Recipe, step: int, n: int) -> nat
    decreases n,
{
    if n <= 0 {
        0
    } else {
        fill_rank_upto(recipe, step, n - 1) + if fill_orders_before(recipe, n - 1, step) { 1nat } else { 0nat }
    }
}

pub open spec fn fill_hits(recipe: Recipe) -> int {
    if recipe.amount < recipe.length { recipe.amount as int } else { recipe.length as int }
}

/// Fill keeps the `hits` steps with the smallest seeded keys.
pub open spec fn fill_chosen(recipe: Recipe, step: int) -> bool {
    fill_rank_upto(recipe, step, recipe.length as int) < fill_hits(recipe)
}

/// Position `position` holds a Fill note: the chosen steps, rotated by `phase`.
pub open spec fn fill_chosen_position(recipe: Recipe, position: int) -> bool {
    let length = recipe.length as int;
    fill_chosen(recipe, (position + length - recipe.phase as int % length) % length)
}

/// How many Fill notes lie before `position`.
pub open spec fn fill_position_rank(recipe: Recipe, position: int) -> nat
    decreases position,
{
    if position <= 0 {
        0
    } else {
        fill_position_rank(recipe, position - 1) + if fill_chosen_position(recipe, position - 1) { 1nat } else { 0nat }
    }
}

/// The steps that Fill keeps.
pub open spec fn fill_chosen_steps(recipe: Recipe) -> Set<int> {
    Set::new(|step: int| 0 <= step < recipe.length && fill_chosen(recipe, step))
}

/// The positions, before `limit`, that hold a Fill note.
pub open spec fn fill_positions_before(recipe: Recipe, limit: int) -> Set<int> {
    Set::new(|position: int| 0 <= position < limit && fill_chosen_position(recipe, position))
}

/// The step of an unrotated `length`-step cycle that plays at `position`
/// once the cycle is rotated right by `rotation`.
pub open spec fn rotated_step(position: int, length: int, rotation: int) -> int {
    (position + length - rotation % length) % length
}

/// The step whose choice decides `position`.
pub open spec fn fill_source_step(recipe: Recipe, position: int) -> int {
    rotated_step(position, recipe.length as int, recipe.phase as int)
}

/// Rotation sends each position of the cycle to a step of the cycle, and
/// the position `(step + rotation) % length` to `step`.
proof fn lemma_rotated_step(position: int, length: int, rotation: int)
    requires
        1 <= length,
        0 <= position < length,
        rotation >= 0,
    ensures
        0 <= rotated_step(position, length, rotation) < length,
        rotated_step(position, length, rotation) == if position + length - rotation % length < length {
            position + length - rotation % length
        } else {
            position - rotation % length
        },
        rotated_step((position + rotation % length) % length, length, rotation) == position,
        0 <= (position + rotation % length) % length < length,
{
    let shift = rotation % length;
    let moved = position + length - shift;
    if moved < length {
        vstd::arithmetic::div_mod::lemma_small_mod(moved as nat, length as nat);
    } else {
        vstd::arithmetic::div_mod::lemma_mod_add_multiples_vanish(moved - length, length);
        vstd::arithmetic::div_mod::lemma_small_mod((moved - length) as nat, length as nat);
    }
    let back = position + shift;
    if back < length {
        vstd::arithmetic::div_mod::lemma_small_mod(back as nat, length as nat);
        vstd::arithmetic::div_mod::lemma_mod_add_multiples_vanish(position, length);
        vstd::arithmetic::div_mod::lemma_small_mod(position as nat, length as nat);
    } else {
        vstd::arithmetic::div_mod::lemma_mod_add_multiples_vanish(back - length, length);
        vstd::arithmetic::div_mod::lemma_small_mod((back - length) as nat, length as nat);
        vstd::arithmetic::div_mod::lemma_small_mod(position as nat, length as nat);
    }
}

/// Rotating a cycle keeps the number of its hits: the positions whose
/// rotated step satisfies `hit` are as many as the steps that do.
proof fn lemma_rotation_keeps_count(length: int, rotation: int, hit: spec_fn(int) -> bool)
    requires
        1 <= length,
        rotation >= 0,
    ensures
        Set::new(|step: int| 0 <= step < length && hit(step)).finite(),
        Set::new(|position: int| 0 <= position < length && hit(rotated_step(position, length, rotation))).len()
            == Set::new(|step: int| 0 <= step < length && hit(step)).len(),
{
    let steps = Set::new(|step: int| 0 <= step < length && hit(step));
    let positions = Set::new(|position: int| 0 <= position < length && hit(rotated_step(position, length, rotation)));
    let rotate = |position: int| rotated_step(position, length, rotation);
    vstd::set_lib::lemma_int_range(0, length);
    vstd::set_lib::lemma_len_subset(positions, vstd::set_lib::set_int_range(0, length));
    vstd::set_lib::lemma_len_subset(steps, vstd::set_lib::set_int_range(0, length));
    assert forall|a: int, b: int|
        positions.contains(a) && positions.contains(b) && #[trigger] rotate(a) == #[trigger] rotate(b) implies a == b by {
        lemma_rotated_step(a, length, rotation);
        lemma_rotated_step(b, length, rotation);
    }
    assert(positions.map(rotate) =~= steps) by {
        assert forall|step: int| positions.map(rotate).contains(step) implies steps.contains(step) by {
            let position = choose|position: int| positions.contains(position) && step == rotate(position);
            lemma_rotated_step(position, length, rotation);
        }
        assert forall|step: int| steps.contains(step) implies positions.map(rotate).contains(step) by {
            let position = (step + rotation % length) % length;
            lemma_rotated_step(step, length, rotation);
            assert(positions.contains(position) && step == rotate(position));
        }
    }
    vstd::set_lib::lemma_map_size(positions, steps, rotate);
}

/// A step that orders before another keeps fewer steps before it.
proof fn lemma_fill_rank_monotone(recipe: Recipe, first: int, second: int, n: int)
    requires
        fill_orders_before(recipe, first, second),
    ensures
        fill_rank_upto(recipe, first, n) <= fill_rank_upto(recipe, second, n),
        0 <= first < n ==> fill_rank_upto(recipe, first, n) < fill_rank_upto(recipe, second, n),
    decreases n,
{
    if n > 0 {
        lemma_fill_rank_monotone(recipe, first, second, n - 1);
    }
}

/// Distinct steps have distinct ranks.
proof fn lemma_fill_rank_distinct(recipe: Recipe, first: int, second: int)
    requires
        0 <= first < recipe.length,
        0 <= second < recipe.length,
        first != second,
    ensures
        fill_rank_upto(recipe, first, recipe.length as int) != fill_rank_upto(recipe, second, recipe.length as int),
{
    if fill_orders_before(recipe, first, second) {
        lemma_fill_rank_monotone(recipe, first, second, recipe.length as int);
    } else {
        assert(fill_orders_before(recipe, second, first));
        lemma_fill_rank_monotone(recipe, second, first, recipe.length as int);
    }
}

/// Fill keeps at most `fill_hits` steps.
proof fn lemma_fill_chosen_count(recipe: Recipe)
    requires
        1 <= recipe.length,
        fill_hits(recipe) >= 0,
    ensures
        fill_chosen_steps(recipe).finite(),
        fill_chosen_steps(recipe).len() <= fill_hits(recipe),
{
    let chosen = fill_chosen_steps(recipe);
    let length = recipe.length as int;
    let rank = |step: int| fill_rank_upto(recipe, step, length) as int;
    vstd::set_lib::lemma_int_range(0, length);
    vstd::set_lib::lemma_len_subset(chosen, vstd::set_lib::set_int_range(0, length));
    assert forall|a: int, b: int|
        chosen.contains(a) && chosen.contains(b) && #[trigger] rank(a) == #[trigger] rank(b) implies a == b by {
        if a != b {
            lemma_fill_rank_distinct(recipe, a, b);
        }
    }
    assert(vstd::relations::injective_on(rank, chosen));
    vstd::set_lib::lemma_map_size(chosen, chosen.map(rank), rank);
    vstd::set_lib::lemma_int_range(0, fill_hits(recipe));
    assert forall|r: int| chosen.map(rank).contains(r) implies vstd::set_lib::set_int_range(0, fill_hits(recipe)).contains(r) by {
        let step = choose|step: int| chosen.contains(step) && r == rank(step);
        assert(fill_chosen(recipe, step));
    }
    vstd::set_lib::lemma_len_subset(chosen.map(rank), vstd::set_lib::set_int_range(0, fill_hits(recipe)));
}

/// The rank of a position counts the Fill positions before it.
proof fn lemma_fill_position_rank_counts(recipe: Recipe, position: int)
    requires
        position >= 0,
    ensures
        fill_positions_before(recipe, position).finite(),
        fill_position_rank(recipe, position) == fill_positions_before(recipe, position).len(),
    decreases position,
{
    if position == 0 {
        assert(fill_positions_before(recipe, 0) =~= Set::empty());
    } else {
        lemma_fill_position_rank_counts(recipe, position - 1);
        let earlier = fill_positions_before(recipe, position - 1);
        if fill_chosen_position(recipe, position - 1) {
            assert(fill_positions_before(recipe, position) =~= earlier.insert(position - 1));
        } else {
            assert(fill_positions_before(recipe, position) =~= earlier);
        }
    }
}

/// A step never counts more steps before it than there are others.
proof fn lemma_fill_rank_below_length(recipe: Recipe, step: int, n: int)
    requires
        n >= 0,
    ensures
        fill_rank_upto(recipe, step, n) <= n,
        0 <= step < n ==> fill_rank_upto(recipe, step, n) < n,
    decreases n,
{
    if n > 0 {
        lemma_fill_rank_below_length(recipe, step, n - 1);
    }
}

/// Fill keeps exactly `fill_hits` steps: the ranks of the steps are the
/// numbers below the length, each once.
proof fn lemma_fill_chosen_exact(recipe: Recipe)
    requires
        1 <= recipe.length,
    ensures
        fill_chosen_steps(recipe).finite(),
        fill_chosen_steps(recipe).len() == fill_hits(recipe),
{
    let length = recipe.length as int;
    let hits = fill_hits(recipe);
    let all = vstd::set_lib::set_int_range(0, length);
    let chosen = fill_chosen_steps(recipe);
    let rank = |step: int| fill_rank_upto(recipe, step, length) as int;
    vstd::set_lib::lemma_int_range(0, length);
    vstd::set_lib::lemma_int_range(0, hits);
    vstd::set_lib::lemma_len_subset(chosen, all);
    assert forall|a: int, b: int| all.contains(a) && all.contains(b) && #[trigger] rank(a) == #[trigger] rank(b) implies a
        == b by {
        if a != b {
            lemma_fill_rank_distinct(recipe, a, b);
        }
    }
    vstd::set_lib::lemma_map_size(all, all.map(rank), rank);
    assert forall|r: int| all.map(rank).contains(r) implies all.contains(r) by {
        let step = choose|step: int| all.contains(step) && r == rank(step);
        lemma_fill_rank_below_length(recipe, step, length);
    }
    vstd::set_lib::lemma_subset_equality(all.map(rank), all);
    assert(chosen.map(rank) =~= vstd::set_lib::set_int_range(0, hits)) by {
        assert forall|r: int| chosen.map(rank).contains(r) implies vstd::set_lib::set_int_range(0, hits).contains(r) by {
            let step = choose|step: int| chosen.contains(step) && r == rank(step);
            assert(fill_chosen(recipe, step));
        }
        assert forall|r: int| vstd::set_lib::set_int_range(0, hits).contains(r) implies chosen.map(rank).contains(r) by {
            assert(all.map(rank).contains(r));
            let step = choose|step: int| all.contains(step) && r == rank(step);
            assert(chosen.contains(step));
        }
    }
    vstd::set_lib::lemma_map_size(chosen, vstd::set_lib::set_int_range(0, hits), rank);
}

/// The positions at which a list of proposals offers a cell.
pub open spec fn offered_positions(proposals: Seq<Option<Proposal>>) -> Set<int> {
    Set::new(|i: int| 0 <= i < proposals.len() && proposals[i] is Some)
}

/// Fill offers exactly as many notes as it is asked for, up to the length
/// of the span, wherever the seed and the rotation place them.
pub proof fn lemma_fill_offers_exactly_hits(recipe: Recipe, template: Cell)
    requires
        1 <= recipe.length,
    ensures
        offered_positions(fill_proposals(recipe, template)).finite(),
        offered_positions(fill_proposals(recipe, template)).len() == fill_hits(recipe),
{
    let length = recipe.length as int;
    let hit = |step: int| fill_chosen(recipe, step);
    lemma_fill_chosen_exact(recipe);
    lemma_rotation_keeps_count(length, recipe.phase as int, hit);
    assert(Set::new(|step: int| 0 <= step < length && hit(step)) =~= fill_chosen_steps(recipe));
    assert(offered_positions(fill_proposals(recipe, template)) =~= Set::new(
        |position: int| 0 <= position < length && hit(rotated_step(position, length, recipe.phase as int)),
    ));
    vstd::set_lib::lemma_int_range(0, length);
    vstd::set_lib::lemma_len_subset(
        offered_positions(fill_proposals(recipe, template)),
        vstd::set_lib::set_int_range(0, length),
    );
}

/// Hits among the first `n` steps of the unrotated rhythm.
pub open spec fn euclid_hits_upto(length: int, pulses: int, n: int) -> nat
    decreases n,
{
    if n <= 0 {
        0
    } else {
        euclid_hits_upto(length, pulses, n - 1) + if ((n - 1) * pulses) % length < pulses { 1nat } else { 0nat }
    }
}

/// A step of the unrotated rhythm is a hit exactly when the running
/// quotient `step * pulses / length` moves on, so the hits before `n` are
/// one more than the last quotient.
proof fn lemma_euclid_hits_upto(length: int, pulses: int, n: int)
    requires
        0 < pulses < length,
        1 <= n <= length,
    ensures
        euclid_hits_upto(length, pulses, n) == ((n - 1) * pulses) / length + 1,
    decreases n,
{
    if n == 1 {
        assert(0 * pulses == 0);
        vstd::arithmetic::div_mod::lemma_fundamental_div_mod_converse(0, length, 0, 0);
        assert(euclid_hits_upto(length, pulses, 0) == 0);
    } else {
        lemma_euclid_hits_upto(length, pulses, n - 1);
        let before = (n - 2) * pulses;
        let q = before / length;
        let r = before % length;
        vstd::arithmetic::div_mod::lemma_fundamental_div_mod(before, length);
        assert(0 <= r < length);
        assert((n - 1) * pulses == before + pulses) by (nonlinear_arith)
            requires
                before == (n - 2) * pulses,
        ;
        assert(length * q == q * length) by (nonlinear_arith);
        if r + pulses >= length {
            assert(before + pulses == (q + 1) * length + (r + pulses - length)) by (nonlinear_arith)
                requires
                    before == length * q + r,
            ;
            vstd::arithmetic::div_mod::lemma_fundamental_div_mod_converse(
                before + pulses,
                length,
                q + 1,
                r + pulses - length,
            );
        } else {
            assert(before + pulses == q * length + (r + pulses)) by (nonlinear_arith)
                requires
                    before == length * q + r,
            ;
            vstd::arithmetic::div_mod::lemma_fundamental_div_mod_converse(before + pulses, length, q, r + pulses);
        }
    }
}

/// The hits before `n` of the unrotated rhythm, as a set of steps.
proof fn lemma_euclid_hits_set(length: int, pulses: int, n: int)
    requires
        n >= 0,
    ensures
        Set::new(|step: int| 0 <= step < n && (step * pulses) % length < pulses).finite(),
        Set::new(|step: int| 0 <= step < n && (step * pulses) % length < pulses).len() == euclid_hits_upto(
            length,
            pulses,
            n,
        ),
    decreases n,
{
    let hits = Set::new(|step: int| 0 <= step < n && (step * pulses) % length < pulses);
    if n == 0 {
        assert(hits =~= Set::empty());
    } else {
        lemma_euclid_hits_set(length, pulses, n - 1);
        let earlier = Set::new(|step: int| 0 <= step < n - 1 && (step * pulses) % length < pulses);
        if ((n - 1) * pulses) % length < pulses {
            assert(hits =~= earlier.insert(n - 1));
        } else {
            assert(hits =~= earlier);
        }
    }
}

/// A Euclidean rhythm offers exactly as many notes as it has pulses,
/// whatever its rotation.
pub proof fn lemma_euclidean_offers_exactly_pulses(recipe: Recipe, template: Cell)
    requires
        1 <= recipe.length,
        recipe.amount <= recipe.length,
    ensures
        offered_positions(euclidean_proposals(recipe, template)).finite(),
        offered_positions(euclidean_proposals(recipe, template)).len() == recipe.amount,
{
    let length = recipe.length as int;
    let pulses = recipe.amount as int;
    let rotation = recipe.phase as int % length;
    let offered = offered_positions(euclidean_proposals(recipe, template));
    vstd::set_lib::lemma_int_range(0, length);
    if pulses == 0 {
        assert(offered =~= Set::empty());
    } else if pulses == length {
        assert(offered =~= vstd::set_lib::set_int_range(0, length));
    } else {
        let hit = |step: int| (step * pulses) % length < pulses;
        lemma_rotation_keeps_count(length, rotation, hit);
        lemma_euclid_hits_set(length, pulses, length);
        lemma_euclid_hits_upto(length, pulses, length);
        assert(Set::new(|step: int| 0 <= step < length && hit(step)) =~= Set::new(
            |step: int| 0 <= step < length && (step * pulses) % length < pulses,
        ));
        assert(offered =~= Set::new(
            |position: int| 0 <= position < length && hit(rotated_step(position, length, rotation)),
        ));
        assert((length - 1) * pulses == (pulses - 1) * length + (length - pulses)) by (nonlinear_arith);
        vstd::arithmetic::div_mod::lemma_fundamental_div_mod_converse(
            (length - 1) * pulses,
            length,
            pulses - 1,
            length - pulses,
        );
    }
    vstd::set_lib::lemma_len_subset(offered, vstd::set_lib::set_int_range(0, length));
}

/// Each Fill note's rank lies below the number of hits, so its velocity
/// ramp stays inside MIDI range.
proof fn lemma_fill_rank_below_hits(recipe: Recipe, position: int)
    requires
        1 <= recipe.length,
        0 <= position < recipe.length,
        fill_chosen_position(recipe, position),
    ensures
        fill_position_rank(recipe, position) < fill_hits(recipe),
{
    let length = recipe.length as int;
    let all = fill_positions_before(recipe, length);
    let chosen = fill_chosen_steps(recipe);
    let rotate = |p: int| fill_source_step(recipe, p);
    lemma_fill_chosen_count(recipe);
    lemma_fill_position_rank_counts(recipe, position);
    lemma_fill_position_rank_counts(recipe, length);
    assert forall|a: int, b: int|
        all.contains(a) && all.contains(b) && #[trigger] rotate(a) == #[trigger] rotate(b) implies a == b by {
        lemma_rotated_step(a, length, recipe.phase as int);
        lemma_rotated_step(b, length, recipe.phase as int);
    }
    vstd::set_lib::lemma_map_size(all, all.map(rotate), rotate);
    assert forall|step: int| all.map(rotate).contains(step) implies chosen.contains(step) by {
        let p = choose|p: int| all.contains(p) && step == rotate(p);
        lemma_rotated_step(p, length, recipe.phase as int);
    }
    vstd::set_lib::lemma_len_subset(all.map(rotate), chosen);
    let before = fill_positions_before(recipe, position);
    assert(before.insert(position).subset_of(all));
    vstd::set_lib::lemma_len_subset(before.insert(position), all);
    assert(!before.contains(position));
}

pub open spec fn euclidean_proposals(recipe: Recipe, template: Cell) -> Seq<Option<Proposal>> {
    let length = recipe.length as int;
    Seq::new(
        recipe.length as nat,
        |step: int|
            if spec_euclidean_hit(step, length, recipe.amount as int, recipe.phase as int % length) {
                Some(proposal_at(recipe.start_row + step, global_lane(recipe), template))
            } else {
                None
            },
    )
}

pub open spec fn note_of(cell: Cell) -> u8 {
    match cell.note {
        Note::On(n) => n,
        _ => 0,
    }
}

pub open spec fn accumulator_proposals(recipe: Recipe, template: Cell) -> Seq<Option<Proposal>> {
    Seq::new(
        recipe.length as nat,
        |step: int|
            Some(
                proposal_at(
                    recipe.start_row + step,
                    global_lane(recipe),
                    Cell { note: Note::On(spec_accumulator_note(note_of(template), recipe, step)), ..template },
                ),
            ),
    )
}

pub open spec fn fill_proposals(recipe: Recipe, template: Cell) -> Seq<Option<Proposal>> {
    let base = match template.velocity {
        Some(v) => v,
        None => 0u8,
    };
    Seq::new(
        recipe.length as nat,
        |position: int|
            if fill_chosen_position(recipe, position) {
                Some(
                    proposal_at(
                        recipe.start_row + position,
                        global_lane(recipe),
                        Cell {
                            velocity: Some(
                                spec_fill_velocity(base, fill_position_rank(recipe, position) as int, fill_hits(recipe)),
                            ),
                            condition: StepCondition::Fill,
                            ..template
                        },
                    ),
                )
            } else {
                None
            },
    )
}


/// Whether some cell of `cells` plays note `note`.
pub open spec fn has_note(cells: Seq<Cell>, note: u8) -> bool {
    exists|i: int| 0 <= i < cells.len() && #[trigger] cells[i].note == Note::On(note)
}

/// The distinct notes of the first `count` lanes of a page row, in lane order
/// (the first cell of each note is kept).
pub open spec fn arpeggio_sources(row: Seq<Cell>, page_start: int, count: int) -> Seq<Cell>
    decreases count,
{
    if count <= 0 {
        Seq::empty()
    } else {
        let before = arpeggio_sources(row, page_start, count - 1);
        let cell = row[page_start + count - 1];
        match cell.note {
            Note::On(note) => if has_note(before, note) { before } else { before.push(cell) },
            _ => before,
        }
    }
}

/// The arpeggio's copy of `source` raised `octave` octaves: the recipe's gate,
/// an explicit velocity, and no command, nudge, probability or condition.
pub open spec fn arpeggio_cell(source: Cell, octave: int, recipe: Recipe, page_velocity: u8) -> Cell {
    Cell {
        note: Note::On((note_of(source) + 12 * octave) as u8),
        velocity: Some(
            match source.velocity {
                Some(v) => v,
                None => page_velocity,
            },
        ),
        gate: Some(recipe.gate),
        command: Command::Empty,
        nudge: 0,
        probability: 100,
        condition: StepCondition::Always,
        ..source
    }
}

/// How many of the first `n` (octave, source) pairs would leave MIDI range.
pub open spec fn arpeggio_refusals(sources: Seq<Cell>, n: int) -> nat
    decreases n,
{
    if n <= 0 || sources.len() == 0 {
        0
    } else {
        let index = n - 1;
        arpeggio_refusals(sources, n - 1) + if note_of(sources[index % (sources.len() as int)]) + 12 * (index
            / (sources.len() as int)) > 127 {
            1nat
        } else {
            0nat
        }
    }
}

/// Every source in each octave, octave by octave.
pub open spec fn arpeggio_expanded(sources: Seq<Cell>, recipe: Recipe, page_velocity: u8) -> Seq<Cell> {
    Seq::new(
        (sources.len() * recipe.arpeggio_octaves) as nat,
        |j: int| arpeggio_cell(sources[j % (sources.len() as int)], j / (sources.len() as int), recipe, page_velocity),
    )
}

/// The cells of `cells` that play `note`, in their order.
pub open spec fn cells_with_note(cells: Seq<Cell>, note: int) -> Seq<Cell>
    decreases cells.len(),
{
    if cells.len() == 0 {
        Seq::empty()
    } else {
        let before = cells_with_note(cells.drop_last(), note);
        if note_of(cells.last()) == note { before.push(cells.last()) } else { before }
    }
}

/// Stable ascending order by note: the cells of note 0, then of note 1, ..., up to `levels - 1`.
pub open spec fn ascending_notes(cells: Seq<Cell>, levels: int) -> Seq<Cell>
    decreases levels,
{
    if levels <= 0 {
        Seq::empty()
    } else {
        ascending_notes(cells, levels - 1) + cells_with_note(cells, levels - 1)
    }
}

/// Stable descending order by note: the cells of note 127, then 126, ..., down to `128 - levels`.
pub open spec fn descending_notes(cells: Seq<Cell>, levels: int) -> Seq<Cell>
    decreases levels,
{
    if levels <= 0 {
        Seq::empty()
    } else {
        descending_notes(cells, levels - 1) + cells_with_note(cells, 128 - levels)
    }
}

/// Up then back down, without repeating the top and bottom notes.
pub open spec fn up_down(ascending: Seq<Cell>) -> Seq<Cell> {
    if ascending.len() > 2 {
        ascending + ascending.subrange(1, ascending.len() - 1).reverse()
    } else {
        ascending
    }
}

pub open spec fn arpeggio_ordered(expanded: Seq<Cell>, order: ArpeggioOrder) -> Seq<Cell> {
    match order {
        ArpeggioOrder::AsLane => expanded,
        ArpeggioOrder::Up => ascending_notes(expanded, 128),
        ArpeggioOrder::Down => descending_notes(expanded, 128),
        ArpeggioOrder::UpDown => up_down(ascending_notes(expanded, 128)),
    }
}

/// The repeated arpeggio cells, or why none can be extracted.
#[verifier::opaque]
pub open spec fn spec_arpeggio_family(pattern: &Pattern, recipe: Recipe) -> Result<(nat, Seq<Cell>), GenerativeError> {
    let row = pattern.grid()[recipe.start_row as int];
    let sources = arpeggio_sources(row, recipe.page * LANES_PER_PAGE, LANES_PER_PAGE as int);
    let page_velocity = pattern.pages@[recipe.page as int].velocity;
    let refusals = arpeggio_refusals(sources, sources.len() * recipe.arpeggio_octaves);
    if sources.len() == 0 {
        Err(GenerativeError::ArpeggioNeedsSource)
    } else if refusals > 0 {
        Err(GenerativeError::ArpeggioRange { notes: refusals as usize })
    } else {
        Ok(
            (
                sources.len(),
                arpeggio_ordered(arpeggio_expanded(sources, recipe, page_velocity), recipe.arpeggio_order),
            ),
        )
    }
}

pub open spec fn arpeggio_proposals(recipe: Recipe, family: Seq<Cell>) -> Seq<Option<Proposal>> {
    let rate = recipe.row_rate.spec_rows() as int;
    Seq::new(
        (family.len() * recipe.length) as nat,
        |index: int|
            Some(proposal_at(recipe.start_row + (index + 1) * rate, global_lane(recipe), family[index % (family.len() as int)])),
    )
}

/// A chord voice: the note with the page velocity and nothing else.
pub open spec fn chord_cell(note: int, page_velocity: u8) -> Cell {
    Cell { note: Note::On(note as u8), velocity: Some(page_velocity), ..empty_cell() }
}

pub open spec fn chord_voice_at(notes: (int, int, int), voice: int) -> int {
    if voice == 0 { notes.0 } else if voice == 1 { notes.1 } else { notes.2 }
}

pub open spec fn chord_proposals(recipe: Recipe, notes: (int, int, int), page_velocity: u8) -> Seq<Option<Proposal>> {
    let rate = recipe.row_rate.spec_rows() as int;
    Seq::new(
        (recipe.length * 3) as nat,
        |k: int|
            Some(
                proposal_at(
                    recipe.start_row + (k / 3) * rate,
                    global_lane(recipe) + k % 3,
                    chord_cell(chord_voice_at(notes, k % 3), page_velocity),
                ),
            ),
    )
}

/// The harmonizer's reading of one source cell.
pub enum HarmonyCase {
    Nothing,
    OutOfScale,
    RangeRefused,
    Propose(Cell),
}

pub open spec fn harmony_case(recipe: Recipe, held: Cell) -> HarmonyCase {
    match held.note {
        Note::On(note) => if !spec_scale_contains(recipe.scale, note as int) {
            HarmonyCase::OutOfScale
        } else {
            match spec_diatonic_shift(
                note as int,
                recipe.scale,
                recipe.harmony_interval.spec_steps() as nat,
                recipe.harmony_voice == HarmonyVoice::Above,
            ) {
                Some(moved) => HarmonyCase::Propose(Cell { note: Note::On(moved as u8), ..held }),
                None => HarmonyCase::RangeRefused,
            }
        },
        Note::Off => HarmonyCase::Propose(held),
        Note::Empty => HarmonyCase::Nothing,
    }
}

pub open spec fn harmony_source(pattern: &Pattern, recipe: Recipe, step: int) -> Cell {
    pattern.grid()[recipe.start_row + step][global_lane(recipe)]
}

pub open spec fn harmony_target_lane(recipe: Recipe) -> int {
    recipe.page * LANES_PER_PAGE + recipe.harmony_target_lane
}

/// Counts over the first `n` source rows: (sources, out of scale, out of range).
pub open spec fn harmony_counts(pattern: &Pattern, recipe: Recipe, n: int) -> (nat, nat, nat)
    decreases n,
{
    if n <= 0 {
        (0, 0, 0)
    } else {
        let (sources, outside, refused) = harmony_counts(pattern, recipe, n - 1);
        match harmony_case(recipe, harmony_source(pattern, recipe, n - 1)) {
            HarmonyCase::Propose(_) => (sources + 1, outside, refused),
            HarmonyCase::OutOfScale => (sources, outside + 1, refused),
            HarmonyCase::RangeRefused => (sources, outside, refused + 1),
            HarmonyCase::Nothing => (sources, outside, refused),
        }
    }
}

pub open spec fn harmony_proposals(pattern: &Pattern, recipe: Recipe) -> Seq<Option<Proposal>> {
    Seq::new(
        recipe.length as nat,
        |step: int|
            match harmony_case(recipe, harmony_source(pattern, recipe, step)) {
                HarmonyCase::Propose(cell) => Some(
                    proposal_at(recipe.start_row + step, harmony_target_lane(recipe), cell),
                ),
                _ => None,
            },
    )
}

/// Bounds of the mutation range around `note`, clipped to MIDI.
pub open spec fn mutation_low(note: int, range: int) -> int {
    if note - range < 0 { 0 } else { note - range }
}

pub open spec fn mutation_high(note: int, range: int) -> int {
    if note + range > 127 { 127 } else { note + range }
}

/// The `choice`-th note of the mutation range, skipping `note` itself.
pub open spec fn mutation_candidate(note: int, range: int, choice: int) -> int {
    let low = mutation_low(note, range);
    if low + choice < note { low + choice } else { low + choice + 1 }
}

/// Mutation at one row: a seeded chance to move a plain note within `amount` semitones.
pub open spec fn mutation_step(state: DraftState, recipe: Recipe, row: int, held: Cell) -> DraftState {
    let lane = global_lane(recipe);
    let report = state.report;
    match held.note {
        Note::On(note) => if held.command != Command::Empty {
            DraftState { report: Report { protected: (report.protected + 1) as usize, ..report }, ..state }
        } else if spec_mixed(recipe.seed, row as usize, lane as usize, 0) % 100 >= recipe.density as u64 {
            state
        } else {
            let count = mutation_high(note as int, recipe.amount as int) - mutation_low(note as int, recipe.amount as int);
            if count <= 0 {
                DraftState { report: Report { protected: (report.protected + 1) as usize, ..report }, ..state }
            } else {
                let choice = (spec_mixed(recipe.seed, row as usize, lane as usize, 1) as usize) as int % count;
                let moved = mutation_candidate(note as int, recipe.amount as int, choice);
                DraftState {
                    grid: set_cell(state.grid, row, lane, Cell { note: Note::On(moved as u8), ..held }),
                    report: Report {
                        candidates: (report.candidates + 1) as usize,
                        affected: (report.affected + 1) as usize,
                        replacements: (report.replacements + 1) as usize,
                        ..report
                    },
                    affected: with_affected_row(state.affected, row as usize),
                }
            }
        },
        _ => if held == empty_cell() {
            state
        } else {
            DraftState { report: Report { protected: (report.protected + 1) as usize, ..report }, ..state }
        },
    }
}

/// Mutation over the first `n` rows of the recipe's span, reading the source Pattern.
pub open spec fn mutate_rows(pattern: &Pattern, state: DraftState, recipe: Recipe, n: int) -> DraftState
    decreases n,
{
    if n <= 0 {
        state
    } else {
        let row = recipe.start_row + n - 1;
        mutation_step(
            mutate_rows(pattern, state, recipe, n - 1),
            recipe,
            row,
            pattern.grid()[row][global_lane(recipe)],
        )
    }
}

/// The normalized recipe and the finished draft state.
pub struct DraftOutcome {
    pub recipe: Recipe,
    pub state: DraftState,
}

pub open spec fn initial_state(pattern: &Pattern) -> DraftState {
    DraftState { grid: pattern.grid(), report: empty_report(), affected: Seq::empty() }
}

pub open spec fn outcome(recipe: Recipe, state: DraftState) -> Result<DraftOutcome, GenerativeError> {
    Ok(DraftOutcome { recipe, state })
}

pub open spec fn template_draft(
    pattern: &Pattern,
    recipe: Recipe,
    proposals: spec_fn(Cell) -> Seq<Option<Proposal>>,
) -> Result<DraftOutcome, GenerativeError> {
    match spec_trigger_template(pattern, recipe) {
        Err(e) => Err(e),
        Ok(template) => outcome(recipe, propose_all(initial_state(pattern), recipe.collision, proposals(template))),
    }
}

pub open spec fn spec_euclidean_draft(pattern: &Pattern, recipe: Recipe) -> Result<DraftOutcome, GenerativeError> {
    template_draft(pattern, recipe, |template: Cell| euclidean_proposals(recipe, template))
}

pub open spec fn spec_accumulator_draft(pattern: &Pattern, recipe: Recipe) -> Result<DraftOutcome, GenerativeError> {
    template_draft(pattern, recipe, |template: Cell| accumulator_proposals(recipe, template))
}

pub open spec fn spec_fill_draft(pattern: &Pattern, recipe: Recipe) -> Result<DraftOutcome, GenerativeError> {
    if !pattern.pages@[recipe.page as int].percussion {
        Err(GenerativeError::FillNeedsPercussion)
    } else {
        template_draft(pattern, recipe, |template: Cell| fill_proposals(recipe, template))
    }
}

/// The arpeggio draft once its family is known: refused at the Pattern end, else proposed.
pub open spec fn arpeggio_after_family(
    pattern: &Pattern,
    recipe: Recipe,
    sources: nat,
    family: Seq<Cell>,
) -> Result<DraftOutcome, GenerativeError> {
    let rate = recipe.row_rate.spec_rows() as int;
    let total = family.len() * recipe.length;
    if recipe.start_row + total * rate >= pattern.rows@.len() {
        Err(GenerativeError::ArpeggioPatternEnd { steps: total as usize, rate: recipe.row_rate, start_row: recipe.start_row })
    } else {
        outcome(
            recipe,
            propose_all(
                DraftState { report: Report { source_cells: sources as usize, ..empty_report() }, ..initial_state(pattern) },
                recipe.collision,
                arpeggio_proposals(recipe, family),
            ),
        )
    }
}

pub open spec fn spec_arpeggio_draft(pattern: &Pattern, recipe: Recipe) -> Result<DraftOutcome, GenerativeError> {
    if pattern.pages@[recipe.page as int].percussion {
        Err(GenerativeError::ArpeggioNeedsMelodic)
    } else {
        match spec_arpeggio_family(pattern, recipe) {
            Err(e) => Err(e),
            Ok((sources, family)) => arpeggio_after_family(pattern, recipe, sources, family),
        }
    }
}

pub open spec fn spec_chord_draft(pattern: &Pattern, recipe: Recipe) -> Result<DraftOutcome, GenerativeError> {
    let rate = recipe.row_rate.spec_rows() as int;
    let page = pattern.pages@[recipe.page as int];
    if page.percussion {
        Err(GenerativeError::ChordNeedsMelodic)
    } else if recipe.lane + 2 >= LANES_PER_PAGE {
        Err(GenerativeError::ChordNeedsLanes)
    } else {
        match spec_chord_notes(recipe, source_cell(pattern, recipe)) {
            Err(e) => Err(e),
            Ok(notes) => if recipe.start_row + (recipe.length - 1) * rate >= pattern.rows@.len() {
                Err(
                    GenerativeError::ChordPatternEnd {
                        chords: recipe.length as usize,
                        rate: recipe.row_rate,
                        start_row: recipe.start_row,
                    },
                )
            } else {
                outcome(
                    recipe,
                    propose_all(initial_state(pattern), recipe.collision, chord_proposals(recipe, notes, page.velocity)),
                )
            },
        }
    }
}

pub open spec fn spec_harmonizer_draft(pattern: &Pattern, recipe: Recipe) -> Result<DraftOutcome, GenerativeError> {
    if pattern.pages@[recipe.page as int].percussion {
        Err(GenerativeError::HarmonizerNeedsMelodic)
    } else if harmony_target_lane(recipe) == global_lane(recipe) {
        Err(GenerativeError::HarmonizerSameLane)
    } else {
        let (sources, outside, refused) = harmony_counts(pattern, recipe, recipe.length as int);
        if outside > 0 && recipe.out_of_scale == OutOfScalePolicy::Refuse {
            Err(GenerativeError::HarmonizerOutOfScale { notes: outside as usize })
        } else if refused > 0 {
            Err(GenerativeError::HarmonizerRange { notes: refused as usize })
        } else {
            outcome(
                recipe,
                propose_all(
                    DraftState {
                        report: Report { source_cells: sources as usize, out_of_scale: outside as usize, ..empty_report() },
                        ..initial_state(pattern)
                    },
                    recipe.collision,
                    harmony_proposals(pattern, recipe),
                ),
            )
        }
    }
}

/// What each tool drafts from a normalized recipe, or why it refuses.
pub open spec fn spec_build_normalized(pattern: &Pattern, recipe: Recipe) -> Result<DraftOutcome, GenerativeError> {
    match recipe.tool {
        Tool::Euclidean => spec_euclidean_draft(pattern, recipe),
        Tool::Accumulator => spec_accumulator_draft(pattern, recipe),
        Tool::Mutation => outcome(recipe, mutate_rows(pattern, initial_state(pattern), recipe, recipe.length as int)),
        Tool::Fill => spec_fill_draft(pattern, recipe),
        Tool::Arpeggio => spec_arpeggio_draft(pattern, recipe),
        Tool::Chord => spec_chord_draft(pattern, recipe),
        Tool::Harmonizer => spec_harmonizer_draft(pattern, recipe),
    }
}

/// What `build` drafts, or why it refuses: the recipe is normalized first.
pub open spec fn spec_build(pattern: &Pattern, raw: Recipe) -> Result<DraftOutcome, GenerativeError> {
    match spec_normalize(raw, pattern.rows@.len(), pattern.pages@.len()) {
        Err(e) => Err(e),
        Ok(recipe) => spec_build_normalized(pattern, recipe),
    }
}

/// The executable draft matches the spec outcome.
pub open spec fn draft_matches(
    draft: Result<Draft, GenerativeError>,
    expected: Result<DraftOutcome, GenerativeError>,
    pattern: &Pattern,
) -> bool {
    match expected {
        Ok(o) => draft matches Ok(d) && d.recipe == o.recipe && state_of(&d.pattern, d.report, d.affected_rows@)
            == o.state && draft_frame(&d.pattern, pattern),
        Err(e) => draft matches Err(x) && x == e,
    }
}

/// The spec reading of an executable proposal.
pub open spec fn proposal_view(entry: Option<(usize, usize, Cell)>) -> Option<Proposal> {
    match entry {
        Some((row, lane, cell)) => Some(proposal_at(row as int, lane as int, cell)),
        None => None,
    }
}

pub open spec fn proposals_view(entries: Seq<Option<(usize, usize, Cell)>>) -> Seq<Option<Proposal>> {
    entries.map_values(|entry: Option<(usize, usize, Cell)>| proposal_view(entry))
}

/// Every proposal targets a cell inside a grid of `rows` rows of `width` cells.
pub open spec fn proposals_inside(entries: Seq<Option<(usize, usize, Cell)>>, rows: int, width: int) -> bool {
    forall|i: int|
        0 <= i < entries.len() ==> (#[trigger] entries[i] matches Some((row, lane, _)) ==> row < rows && lane < width)
}

fn propose_each(
    draft: &mut Pattern,
    source: &Pattern,
    collision: CollisionPolicy,
    proposals: &Vec<Option<(usize, usize, Cell)>>,
    report: &mut Report,
    affected_rows: &mut Vec<usize>,
    bound: usize,
)
    requires
        draft_frame(old(draft), source),
        proposals_inside(proposals@, source.rows@.len() as int, source.width() as int),
        proposals_midi(proposals@),
        old(report).bounded_by(bound as int),
        bound + proposals@.len() < usize::MAX,
    ensures
        state_of(final(draft), *final(report), final(affected_rows)@) == propose_all(
            state_of(old(draft), *old(report), old(affected_rows)@),
            collision,
            proposals_view(proposals@),
        ),
        draft_frame(final(draft), source),
        final(report).bounded_by(bound + proposals@.len()),
{
    let ghost initial = state_of(draft, *report, affected_rows@);
    let mut i: usize = 0;
    while i < proposals.len()
        invariant
            i <= proposals@.len(),
            draft_frame(draft, source),
            proposals_inside(proposals@, source.rows@.len() as int, source.width() as int),
            proposals_midi(proposals@),
            report.bounded_by(bound + i),
            bound + proposals@.len() < usize::MAX,
            state_of(draft, *report, affected_rows@) == propose_all(
                initial,
                collision,
                proposals_view(proposals@).take(i as int),
            ),
        decreases proposals@.len() - i,
    {
        proof {
            lemma_propose_all_step(initial, collision, proposals_view(proposals@), i as int);
        }
        let ghost before = *draft;
        match proposals[i] {
            Some((row, lane, cell)) => {
                propose(draft, collision, row, lane, cell, report, affected_rows);
            },
            None => {},
        }
        proof {
            assert forall|row: int, lane: int|
                0 <= row < source.rows@.len() && 0 <= lane < source.rows@[row]@.len() && lane < source.width()
                    && !changeable(#[trigger] source.rows@[row]@[lane]) implies draft.rows@[row]@[lane]
                == source.rows@[row]@[lane] by {
                assert(before.rows@[row]@[lane] == source.rows@[row]@[lane]);
            }
        }
        i += 1;
    }
    proof {
        assert(proposals_view(proposals@).take(proposals@.len() as int) =~= proposals_view(proposals@));
    }
}


/// Facts about a normalized span tool (not Arpeggio or Chord) that the builders share.
pub open spec fn span_ready(pattern: &Pattern, recipe: Recipe, global: usize) -> bool {
    &&& pattern.well_formed()
    &&& recipe_in_bounds(recipe, pattern.rows@.len(), pattern.pages@.len())
    &&& recipe.tool != Tool::Arpeggio
    &&& recipe.tool != Tool::Chord
    &&& global == global_lane(recipe)
    &&& global < pattern.width()
}

fn euclidean_entries(pattern: &Pattern, recipe: Recipe, global: usize, template: Cell) -> (entries: Vec<Option<(usize, usize, Cell)>>)
    requires
        span_ready(pattern, recipe, global),
        midi_cell(template),
    ensures
        proposals_view(entries@) == euclidean_proposals(recipe, template),
        proposals_inside(entries@, pattern.rows@.len() as int, pattern.width() as int),
        proposals_midi(entries@),
        entries@.len() == recipe.length,
{
    let length = recipe.length as usize;
    let rotation = recipe.phase as usize % length;
    let mut entries: Vec<Option<(usize, usize, Cell)>> = Vec::new();
    let mut step: usize = 0;
    while step < length
        invariant
            span_ready(pattern, recipe, global),
            length == recipe.length,
            rotation == recipe.phase as int % length as int,
            step <= length,
            entries@.len() == step,
            midi_cell(template),
            proposals_inside(entries@, pattern.rows@.len() as int, pattern.width() as int),
            proposals_midi(entries@),
            forall|k: int| 0 <= k < step ==> #[trigger] proposal_view(entries@[k]) == euclidean_proposals(recipe, template)[k],
        decreases length - step,
    {
        if euclidean_hit(step, length, recipe.amount as usize, rotation) {
            entries.push(Some((recipe.start_row + step, global, template)));
        } else {
            entries.push(None);
        }
        step += 1;
    }
    assert(proposals_view(entries@) =~= euclidean_proposals(recipe, template));
    entries
}

fn accumulator_entries(pattern: &Pattern, recipe: Recipe, global: usize, template: Cell) -> (entries: Vec<Option<(usize, usize, Cell)>>)
    requires
        span_ready(pattern, recipe, global),
        recipe.tool == Tool::Accumulator,
        midi_cell(template),
    ensures
        proposals_view(entries@) == accumulator_proposals(recipe, template),
        proposals_inside(entries@, pattern.rows@.len() as int, pattern.width() as int),
        proposals_midi(entries@),
        entries@.len() == recipe.length,
{
    let length = recipe.length as usize;
    let source: u8 = match template.note {
        Note::On(n) => n,
        _ => 0,
    };
    let mut entries: Vec<Option<(usize, usize, Cell)>> = Vec::new();
    let mut step: usize = 0;
    while step < length
        invariant
            span_ready(pattern, recipe, global),
            recipe.tool == Tool::Accumulator,
            length == recipe.length,
            source == note_of(template),
            source <= 127,
            midi_cell(template),
            step <= length,
            entries@.len() == step,
            proposals_inside(entries@, pattern.rows@.len() as int, pattern.width() as int),
            proposals_midi(entries@),
            forall|k: int| 0 <= k < step ==> #[trigger] proposal_view(entries@[k]) == accumulator_proposals(recipe, template)[k],
        decreases length - step,
    {
        let note = accumulator_note(source, recipe, step);
        entries.push(Some((recipe.start_row + step, global, Cell { note: Note::On(note), ..template })));
        step += 1;
    }
    assert(proposals_view(entries@) =~= accumulator_proposals(recipe, template));
    entries
}

fn chord_entries(
    pattern: &Pattern,
    recipe: Recipe,
    global: usize,
    notes: [u8; 3],
    page_velocity: u8,
) -> (entries: Vec<Option<(usize, usize, Cell)>>)
    requires
        pattern.well_formed(),
        recipe_in_bounds(recipe, pattern.rows@.len(), pattern.pages@.len()),
        recipe.tool == Tool::Chord,
        recipe.lane + 2 < LANES_PER_PAGE,
        global == global_lane(recipe),
        recipe.start_row + (recipe.length - 1) * recipe.row_rate.spec_rows() < pattern.rows@.len(),
        notes[0] <= 127 && notes[1] <= 127 && notes[2] <= 127,
        page_velocity <= 127,
    ensures
        proposals_midi(entries@),
        proposals_view(entries@) == chord_proposals(
            recipe,
            (notes[0] as int, notes[1] as int, notes[2] as int),
            page_velocity,
        ),
        proposals_inside(entries@, pattern.rows@.len() as int, pattern.width() as int),
        entries@.len() == recipe.length * 3,
{
    proof {
        lemma_global_lane_in_row(pattern, recipe);
    }
    let ghost spec_notes = (notes[0] as int, notes[1] as int, notes[2] as int);
    let rate = recipe.row_rate.rows();
    let repetitions = recipe.length as usize;
    let mut entries: Vec<Option<(usize, usize, Cell)>> = Vec::new();
    let mut repetition: usize = 0;
    while repetition < repetitions
        invariant
            pattern.well_formed(),
            recipe_in_bounds(recipe, pattern.rows@.len(), pattern.pages@.len()),
            recipe.lane + 2 < LANES_PER_PAGE,
            global == global_lane(recipe),
            global + 2 < pattern.width(),
            rate == recipe.row_rate.spec_rows(),
            repetitions == recipe.length,
            recipe.start_row + (recipe.length - 1) * rate < pattern.rows@.len(),
            spec_notes == (notes[0] as int, notes[1] as int, notes[2] as int),
            repetition <= repetitions,
            entries@.len() == repetition * 3,
            notes[0] <= 127 && notes[1] <= 127 && notes[2] <= 127,
            page_velocity <= 127,
            proposals_midi(entries@),
            proposals_inside(entries@, pattern.rows@.len() as int, pattern.width() as int),
            forall|k: int| 0 <= k < repetition * 3 ==> #[trigger] proposal_view(entries@[k]) == chord_proposals(recipe, spec_notes, page_velocity)[k],
        decreases repetitions - repetition,
    {
        proof {
            assert(repetition * rate <= (recipe.length - 1) * rate) by (nonlinear_arith)
                requires
                    repetition <= recipe.length - 1,
                    rate <= 8,
            ;
        }
        let row = recipe.start_row + repetition * rate;
        let mut voice: usize = 0;
        while voice < 3
            invariant
                global + 2 < pattern.width(),
                pattern.width() <= 64,
                row < pattern.rows@.len(),
                row == recipe.start_row + repetition * rate,
                rate == recipe.row_rate.spec_rows(),
                global == global_lane(recipe),
                spec_notes == (notes[0] as int, notes[1] as int, notes[2] as int),
                repetition < repetitions,
                repetitions == recipe.length,
                voice <= 3,
                entries@.len() == repetition * 3 + voice,
                notes[0] <= 127 && notes[1] <= 127 && notes[2] <= 127,
                page_velocity <= 127,
                proposals_midi(entries@),
                proposals_inside(entries@, pattern.rows@.len() as int, pattern.width() as int),
                forall|k: int| 0 <= k < repetition * 3 + voice ==> #[trigger] proposal_view(entries@[k]) == chord_proposals(recipe, spec_notes, page_velocity)[k],
            decreases 3 - voice,
        {
            let cell = Cell {
                note: Note::On(notes[voice]),
                velocity: Some(page_velocity),
                program: None,
                gate: None,
                command: Command::Empty,
                nudge: 0,
                probability: 100,
                condition: StepCondition::Always,
            };
            entries.push(Some((row, global + voice, cell)));
            proof {
                let k = repetition * 3 + voice;
                assert(k / 3 == repetition && k % 3 == voice) by (nonlinear_arith)
                    requires
                        k == repetition * 3 + voice,
                        voice < 3,
                ;
                assert(chord_voice_at(spec_notes, voice as int) == notes[voice as int] as int);
            }
            voice += 1;
        }
        repetition += 1;
    }
    assert(proposals_view(entries@) =~= chord_proposals(recipe, spec_notes, page_velocity));
    entries
}


fn fill_entries(pattern: &Pattern, recipe: Recipe, global: usize, template: Cell) -> (entries: Vec<Option<(usize, usize, Cell)>>)
    requires
        span_ready(pattern, recipe, global),
        recipe.tool == Tool::Fill,
        template.velocity is Some,
        midi_cell(template),
    ensures
        proposals_view(entries@) == fill_proposals(recipe, template),
        proposals_inside(entries@, pattern.rows@.len() as int, pattern.width() as int),
        proposals_midi(entries@),
        entries@.len() == recipe.length,
{
    let length = recipe.length as usize;
    let base: u8 = match template.velocity {
        Some(v) => v,
        None => 0,
    };
    let mut keys: Vec<u64> = Vec::new();
    let mut step: usize = 0;
    while step < length
        invariant
            span_ready(pattern, recipe, global),
            length == recipe.length,
            step <= length,
            keys@.len() == step,
            forall|k: int| 0 <= k < step ==> #[trigger] keys@[k] == fill_key(recipe, k),
        decreases length - step,
    {
        keys.push(mixed(recipe.seed, recipe.start_row + step, global, 0));
        step += 1;
    }
    let hits: usize = if (recipe.amount as usize) < length { recipe.amount as usize } else { length };
    let mut chosen: Vec<bool> = Vec::new();
    let mut step: usize = 0;
    while step < length
        invariant
            span_ready(pattern, recipe, global),
            length == recipe.length,
            hits == fill_hits(recipe),
            step <= length,
            keys@.len() == length,
            forall|k: int| 0 <= k < length ==> #[trigger] keys@[k] == fill_key(recipe, k),
            chosen@.len() == step,
            forall|k: int| 0 <= k < step ==> #[trigger] chosen@[k] == fill_chosen(recipe, k),
        decreases length - step,
    {
        let mut rank: usize = 0;
        let mut other: usize = 0;
        while other < length
            invariant
                length == recipe.length,
                step < length,
                other <= length,
                keys@.len() == length,
                forall|k: int| 0 <= k < length ==> #[trigger] keys@[k] == fill_key(recipe, k),
                rank <= other,
                rank == fill_rank_upto(recipe, step as int, other as int),
            decreases length - other,
        {
            if keys[other] < keys[step] || (keys[other] == keys[step] && other < step) {
                rank += 1;
            }
            other += 1;
        }
        chosen.push(rank < hits);
        step += 1;
    }
    let rotation = recipe.phase as usize % length;
    let mut entries: Vec<Option<(usize, usize, Cell)>> = Vec::new();
    let mut rank: usize = 0;
    let mut position: usize = 0;
    while position < length
        invariant
            span_ready(pattern, recipe, global),
            recipe.tool == Tool::Fill,
            length == recipe.length,
            hits == fill_hits(recipe),
            base <= 127,
            template.velocity == Some(base),
            rotation == recipe.phase as int % length as int,
            chosen@.len() == length,
            forall|k: int| 0 <= k < length ==> #[trigger] chosen@[k] == fill_chosen(recipe, k),
            position <= length,
            rank <= position,
            rank == fill_position_rank(recipe, position as int),
            entries@.len() == position,
            midi_cell(template),
            proposals_midi(entries@),
            proposals_inside(entries@, pattern.rows@.len() as int, pattern.width() as int),
            forall|k: int| 0 <= k < position ==> #[trigger] proposal_view(entries@[k]) == fill_proposals(recipe, template)[k],
        decreases length - position,
    {
        let source_step = (position + length - rotation) % length;
        if chosen[source_step] {
            proof {
                lemma_fill_rank_below_hits(recipe, position as int);
            }
            let velocity = fill_velocity(base, rank, hits);
            entries.push(
                Some(
                    (
                        recipe.start_row + position,
                        global,
                        Cell { velocity: Some(velocity), condition: StepCondition::Fill, ..template },
                    ),
                ),
            );
            rank += 1;
        } else {
            entries.push(None);
        }
        position += 1;
    }
    assert(proposals_view(entries@) =~= fill_proposals(recipe, template));
    entries
}


fn harmony_entries(pattern: &Pattern, recipe: Recipe, global: usize, target: usize) -> (result: (
    Vec<Option<(usize, usize, Cell)>>,
    usize,
    usize,
    usize,
))
    requires
        span_ready(pattern, recipe, global),
        recipe.tool == Tool::Harmonizer,
        target == harmony_target_lane(recipe),
        target < pattern.width(),
    ensures
        proposals_view(result.0@) == harmony_proposals(pattern, recipe),
        proposals_inside(result.0@, pattern.rows@.len() as int, pattern.width() as int),
        proposals_midi(result.0@),
        result.0@.len() == recipe.length,
        (result.1 as nat, result.2 as nat, result.3 as nat) == harmony_counts(pattern, recipe, recipe.length as int),
        result.1 <= recipe.length && result.2 <= recipe.length && result.3 <= recipe.length,
{
    let length = recipe.length as usize;
    let steps = recipe.harmony_interval.steps();
    let mut entries: Vec<Option<(usize, usize, Cell)>> = Vec::new();
    let mut sources: usize = 0;
    let mut outside: usize = 0;
    let mut refused: usize = 0;
    let mut step: usize = 0;
    while step < length
        invariant
            span_ready(pattern, recipe, global),
            recipe.tool == Tool::Harmonizer,
            target == harmony_target_lane(recipe),
            target < pattern.width(),
            steps == recipe.harmony_interval.spec_steps(),
            length == recipe.length,
            step <= length,
            sources <= step && outside <= step && refused <= step,
            (sources as nat, outside as nat, refused as nat) == harmony_counts(pattern, recipe, step as int),
            entries@.len() == step,
            proposals_inside(entries@, pattern.rows@.len() as int, pattern.width() as int),
            proposals_midi(entries@),
            forall|k: int| 0 <= k < step ==> #[trigger] proposal_view(entries@[k]) == harmony_proposals(pattern, recipe)[k],
        decreases length - step,
    {
        let row = recipe.start_row + step;
        let held = pattern.rows[row][global];
        assert(held == harmony_source(pattern, recipe, step as int));
        assert(crate::sequencer::midi_cell(pattern.rows@[row as int]@[global as int]));
        match held.note {
            Note::On(note) => {
                if !recipe.scale.contains(note) {
                    outside += 1;
                    entries.push(None);
                } else {
                    match diatonic_shift(note, recipe.scale, steps, recipe.harmony_voice) {
                        Some(moved) => {
                            sources += 1;
                            entries.push(Some((row, target, Cell { note: Note::On(moved), ..held })));
                        },
                        None => {
                            refused += 1;
                            entries.push(None);
                        },
                    }
                }
            },
            Note::Off => {
                sources += 1;
                entries.push(Some((row, target, held)));
            },
            Note::Empty => {
                entries.push(None);
            },
        }
        step += 1;
    }
    assert(proposals_view(entries@) =~= harmony_proposals(pattern, recipe));
    (entries, sources, outside, refused)
}

fn mutate(
    source: &Pattern,
    draft: &mut Pattern,
    recipe: Recipe,
    global: usize,
    report: &mut Report,
    affected_rows: &mut Vec<usize>,
)
    requires
        span_ready(source, recipe, global),
        recipe.tool == Tool::Mutation,
        draft_frame(old(draft), source),
        old(report).bounded_by(0),
    ensures
        state_of(final(draft), *final(report), final(affected_rows)@) == mutate_rows(
            source,
            state_of(old(draft), *old(report), old(affected_rows)@),
            recipe,
            recipe.length as int,
        ),
        draft_frame(final(draft), source),
        final(report).bounded_by(recipe.length as int),
{
    let ghost initial = state_of(draft, *report, affected_rows@);
    let length = recipe.length as usize;
    let mut step: usize = 0;
    while step < length
        invariant
            span_ready(source, recipe, global),
            recipe.tool == Tool::Mutation,
            draft_frame(draft, source),
            length == recipe.length,
            step <= length,
            report.bounded_by(step as int),
            state_of(draft, *report, affected_rows@) == mutate_rows(source, initial, recipe, step as int),
        decreases length - step,
    {
        let row = recipe.start_row + step;
        let held = source.rows[row][global];
        let ghost before = draft.grid();
        let ghost old_rows = draft.rows@;
        match held.note {
            Note::On(note) => {
                let plain = match held.command {
                    Command::Empty => true,
                    _ => false,
                };
                if !plain {
                    report.protected = report.protected + 1;
                } else if mixed(recipe.seed, row, global, 0) % 100 < recipe.density as u64 {
                    let range = recipe.amount as i16;
                    let low: i16 = if note as i16 - range < 0 { 0 } else { note as i16 - range };
                    let high: i16 = if note as i16 + range > 127 { 127 } else { note as i16 + range };
                    let count = high - low;
                    if count <= 0 {
                        report.protected = report.protected + 1;
                    } else {
                        let choice = (mixed(recipe.seed, row, global, 1) as usize) % (count as usize);
                        let moved: i16 = if low + (choice as i16) < note as i16 {
                            low + choice as i16
                        } else {
                            low + choice as i16 + 1
                        };
                        report.candidates = report.candidates + 1;
                        draft.rows[row][global] = Cell { note: Note::On(moved as u8), ..held };
                        report.affected = report.affected + 1;
                        report.replacements = report.replacements + 1;
                        push_affected_row(affected_rows, row);
                        proof {
                            let written = Cell { note: Note::On(moved as u8), ..held };
                            assert(draft.grid() =~= set_cell(before, row as int, global as int, written));
                            assert(midi_cell(source.rows@[row as int]@[global as int]));
                            assert(midi_cell(written));
                            assert forall|r: int, l: int|
                                0 <= r < draft.rows@.len() && 0 <= l < draft.rows@[r]@.len() implies #[trigger] midi_cell(
                                draft.rows@[r]@[l],
                            ) by {
                                assert(draft.grid()[r] == draft.rows@[r]@);
                                assert(before[r] == old_rows[r]@);
                                if r != row || l != global {
                                    assert(draft.rows@[r]@[l] == old_rows[r]@[l]);
                                }
                            }
                        }
                    }
                }
            },
            _ => {
                if !held.same_as(&Cell::empty()) {
                    report.protected = report.protected + 1;
                }
            },
        }
        step += 1;
    }
}


fn contains_note(cells: &Vec<Cell>, note: u8) -> (found: bool)
    ensures
        found == has_note(cells@, note),
{
    let mut i: usize = 0;
    while i < cells.len()
        invariant
            i <= cells@.len(),
            forall|k: int| 0 <= k < i ==> #[trigger] cells@[k].note != Note::On(note),
        decreases cells@.len() - i,
    {
        if cells[i].note == Note::On(note) {
            assert(cells@[i as int].note == Note::On(note));
            return true;
        }
        i += 1;
    }
    false
}

proof fn lemma_sources_bounded(row: Seq<Cell>, page_start: int, count: int)
    ensures
        arpeggio_sources(row, page_start, count).len() <= (if count < 0 { 0 } else { count }),
        forall|i: int|
            0 <= i < arpeggio_sources(row, page_start, count).len() ==> #[trigger] arpeggio_sources(
                row,
                page_start,
                count,
            )[i].note is On,
    decreases count,
{
    if count > 0 {
        lemma_sources_bounded(row, page_start, count - 1);
    }
}

/// Append the cells of `cells` that play `note`.
fn append_cells_with_note(out: &mut Vec<Cell>, cells: &Vec<Cell>, note: u8)
    requires
        old(out)@.len() + cells@.len() <= 4096,
    ensures
        final(out)@ == old(out)@ + cells_with_note(cells@, note as int),
        final(out)@.len() <= old(out)@.len() + cells@.len(),
{
    let ghost start = out@;
    let mut i: usize = 0;
    while i < cells.len()
        invariant
            i <= cells@.len(),
            start.len() + cells@.len() <= 4096,
            out@ == start + cells_with_note(cells@.take(i as int), note as int),
            out@.len() <= start.len() + i,
        decreases cells@.len() - i,
    {
        proof {
            assert(cells@.take(i + 1).drop_last() =~= cells@.take(i as int));
            lemma_cells_with_note_len(cells@.take(i as int), note as int);
        }
        let cell = cells[i];
        let key: u8 = match cell.note {
            Note::On(n) => n,
            _ => 0,
        };
        if key == note {
            out.push(cell);
        }
        i += 1;
        proof {
            assert(out@ =~= start + cells_with_note(cells@.take(i as int), note as int));
        }
    }
    assert(cells@.take(cells@.len() as int) =~= cells@);
}

proof fn lemma_cells_with_note_len(cells: Seq<Cell>, note: int)
    ensures
        cells_with_note(cells, note).len() <= cells.len(),
    decreases cells.len(),
{
    if cells.len() > 0 {
        lemma_cells_with_note_len(cells.drop_last(), note);
    }
}

/// Notes above 127 take no part in the ordering.
proof fn lemma_levels_len(cells: Seq<Cell>, levels: int)
    ensures
        ascending_notes(cells, levels).len() <= cells.len() * (if levels < 0 { 0 } else { levels }),
        descending_notes(cells, levels).len() <= cells.len() * (if levels < 0 { 0 } else { levels }),
    decreases levels,
{
    if levels > 0 {
        lemma_levels_len(cells, levels - 1);
        lemma_cells_with_note_len(cells, levels - 1);
        lemma_cells_with_note_len(cells, 128 - levels);
        assert(cells.len() * (levels - 1) + cells.len() == cells.len() * levels) by (nonlinear_arith);
    }
}

fn ordered_family(expanded: &Vec<Cell>, order: ArpeggioOrder) -> (family: Vec<Cell>)
    requires
        expanded@.len() <= 12,
    ensures
        family@ == arpeggio_ordered(expanded@, order),
{
    match order {
        ArpeggioOrder::AsLane => {
            copy_row(expanded)
        },
        ArpeggioOrder::Down => {
            let mut out: Vec<Cell> = Vec::new();
            let mut level: usize = 0;
            while level < 128
                invariant
                    expanded@.len() <= 12,
                    level <= 128,
                    out@ == descending_notes(expanded@, level as int),
                    out@.len() <= expanded@.len() * level,
                decreases 128 - level,
            {
                proof {
                    lemma_levels_len(expanded@, level as int);
                    assert(expanded@.len() * level <= 12 * 128) by (nonlinear_arith)
                        requires
                            expanded@.len() <= 12,
                            level <= 128,
                    ;
                }
                append_cells_with_note(&mut out, expanded, (127 - level) as u8);
                level += 1;
                proof {
                    assert(expanded@.len() * (level - 1) + expanded@.len() == expanded@.len() * level) by (nonlinear_arith);
                }
            }
            out
        },
        _ => {
            let mut out: Vec<Cell> = Vec::new();
            let mut level: usize = 0;
            while level < 128
                invariant
                    expanded@.len() <= 12,
                    level <= 128,
                    out@ == ascending_notes(expanded@, level as int),
                    out@.len() <= expanded@.len() * level,
                decreases 128 - level,
            {
                proof {
                    assert(expanded@.len() * level <= 12 * 128) by (nonlinear_arith)
                        requires
                            expanded@.len() <= 12,
                            level <= 128,
                    ;
                }
                append_cells_with_note(&mut out, expanded, level as u8);
                level += 1;
                proof {
                    assert(expanded@.len() * (level - 1) + expanded@.len() == expanded@.len() * level) by (nonlinear_arith);
                }
            }
            match order {
                ArpeggioOrder::UpDown => {
                    let length = out.len();
                    if length > 2 {
                        let ascending_cells = copy_row(&out);
                        let ghost ascending = out@;
                        let mut j: usize = 0;
                        while j < length - 2
                            invariant
                                length == ascending.len(),
                                ascending_cells@ == ascending,
                                length > 2,
                                j <= length - 2,
                                out@ == ascending + ascending.subrange(1, length - 1).reverse().take(j as int),
                            decreases length - 2 - j,
                        {
                            out.push(ascending_cells[length - 2 - j]);
                            j += 1;
                            proof {
                                assert(out@ =~= ascending + ascending.subrange(1, length - 1).reverse().take(j as int));
                            }
                        }
                        proof {
                            assert(ascending.subrange(1, length - 1).reverse().take((length - 2) as int)
                                =~= ascending.subrange(1, length - 1).reverse());
                        }
                    }
                    out
                },
                _ => out,
            }
        },
    }
}



proof fn lemma_no_refusals(sources: Seq<Cell>, n: int, i: int)
    requires
        arpeggio_refusals(sources, n) == 0,
        0 <= i < n,
        sources.len() > 0,
    ensures
        note_of(sources[i % (sources.len() as int)]) + 12 * (i / (sources.len() as int)) <= 127,
    decreases n,
{
    if i < n - 1 {
        lemma_no_refusals(sources, n - 1, i);
    }
}

proof fn lemma_cells_with_note_midi(cells: Seq<Cell>, note: int)
    requires
        cells_midi(cells),
    ensures
        cells_midi(cells_with_note(cells, note)),
    decreases cells.len(),
{
    if cells.len() > 0 {
        assert(cells_midi(cells.drop_last()) && midi_cell(cells[cells.len() - 1]));
        lemma_cells_with_note_midi(cells.drop_last(), note);
    }
}

proof fn lemma_levels_midi(cells: Seq<Cell>, levels: int)
    requires
        cells_midi(cells),
    ensures
        cells_midi(ascending_notes(cells, levels)),
        cells_midi(descending_notes(cells, levels)),
    decreases levels,
{
    if levels > 0 {
        lemma_levels_midi(cells, levels - 1);
        lemma_cells_with_note_midi(cells, levels - 1);
        lemma_cells_with_note_midi(cells, 128 - levels);
        let up = ascending_notes(cells, levels - 1);
        let down = descending_notes(cells, levels - 1);
        let up_next = cells_with_note(cells, levels - 1);
        let down_next = cells_with_note(cells, 128 - levels);
        assert forall|i: int| 0 <= i < (up + up_next).len() implies #[trigger] midi_cell((up + up_next)[i]) by {
            if i < up.len() {
                assert(midi_cell(up[i]));
            } else {
                assert(midi_cell(up_next[i - up.len()]));
            }
        }
        assert forall|i: int| 0 <= i < (down + down_next).len() implies #[trigger] midi_cell((down + down_next)[i]) by {
            if i < down.len() {
                assert(midi_cell(down[i]));
            } else {
                assert(midi_cell(down_next[i - down.len()]));
            }
        }
    }
}

/// An arpeggio family holds only cells of its expansion, so it keeps their MIDI range.
proof fn lemma_ordered_midi(expanded: Seq<Cell>, order: ArpeggioOrder)
    requires
        cells_midi(expanded),
    ensures
        cells_midi(arpeggio_ordered(expanded, order)),
{
    lemma_levels_midi(expanded, 128);
    let up = ascending_notes(expanded, 128);
    if order == ArpeggioOrder::UpDown && up.len() > 2 {
        let back = up.subrange(1, up.len() - 1).reverse();
        assert forall|i: int| 0 <= i < (up + back).len() implies #[trigger] midi_cell((up + back)[i]) by {
            if i < up.len() {
                assert(midi_cell(up[i]));
            } else {
                let k = i - up.len();
                assert(back[k] == up[up.len() - 2 - k]);
                assert(midi_cell(up[up.len() - 2 - k]));
            }
        }
    }
}

proof fn lemma_cells_with_note_play_it(cells: Seq<Cell>, note: int)
    ensures
        forall|i: int| 0 <= i < cells_with_note(cells, note).len() ==> note_of(#[trigger] cells_with_note(cells, note)[i])
            == note,
    decreases cells.len(),
{
    if cells.len() > 0 {
        lemma_cells_with_note_play_it(cells.drop_last(), note);
        let before = cells_with_note(cells.drop_last(), note);
        if note_of(cells.last()) == note {
            assert forall|i: int| 0 <= i < before.push(cells.last()).len() implies note_of(
                #[trigger] before.push(cells.last())[i],
            ) == note by {
                if i < before.len() {
                    assert(before.push(cells.last())[i] == before[i]);
                }
            }
        }
    }
}

proof fn lemma_levels_sorted(cells: Seq<Cell>, levels: int)
    requires
        0 <= levels <= 128,
    ensures
        forall|i: int| 0 <= i < ascending_notes(cells, levels).len() ==> note_of(#[trigger] ascending_notes(cells, levels)[i])
            < levels,
        forall|i: int, j: int|
            0 <= i < j < ascending_notes(cells, levels).len() ==> note_of(#[trigger] ascending_notes(cells, levels)[i])
                <= note_of(#[trigger] ascending_notes(cells, levels)[j]),
        forall|i: int| 0 <= i < descending_notes(cells, levels).len() ==> note_of(#[trigger] descending_notes(cells, levels)[i])
            >= 128 - levels,
        forall|i: int, j: int|
            0 <= i < j < descending_notes(cells, levels).len() ==> note_of(#[trigger] descending_notes(cells, levels)[i])
                >= note_of(#[trigger] descending_notes(cells, levels)[j]),
    decreases levels,
{
    if levels > 0 {
        lemma_levels_sorted(cells, levels - 1);
        lemma_cells_with_note_play_it(cells, levels - 1);
        lemma_cells_with_note_play_it(cells, 128 - levels);
        let up = ascending_notes(cells, levels - 1);
        let up_next = cells_with_note(cells, levels - 1);
        let down = descending_notes(cells, levels - 1);
        let down_next = cells_with_note(cells, 128 - levels);
        assert(ascending_notes(cells, levels) == up + up_next);
        assert(descending_notes(cells, levels) == down + down_next);
        assert forall|i: int| 0 <= i < (up + up_next).len() implies note_of(#[trigger] (up + up_next)[i]) < levels by {
            if i < up.len() {
                assert(note_of(up[i]) < levels - 1);
            } else {
                assert(note_of(up_next[i - up.len()]) == levels - 1);
            }
        }
        assert forall|i: int, j: int| 0 <= i < j < (up + up_next).len() implies note_of(#[trigger] (up + up_next)[i])
            <= note_of(#[trigger] (up + up_next)[j]) by {
            if j < up.len() {
                assert(note_of(up[i]) <= note_of(up[j]));
            } else if i < up.len() {
                assert(note_of(up[i]) < levels - 1);
                assert(note_of(up_next[j - up.len()]) == levels - 1);
            } else {
                assert(note_of(up_next[i - up.len()]) == levels - 1);
                assert(note_of(up_next[j - up.len()]) == levels - 1);
            }
        }
        assert forall|i: int| 0 <= i < (down + down_next).len() implies note_of(#[trigger] (down + down_next)[i]) >= 128
            - levels by {
            if i < down.len() {
                assert(note_of(down[i]) >= 128 - (levels - 1));
            } else {
                assert(note_of(down_next[i - down.len()]) == 128 - levels);
            }
        }
        assert forall|i: int, j: int| 0 <= i < j < (down + down_next).len() implies note_of(#[trigger] (down + down_next)[i])
            >= note_of(#[trigger] (down + down_next)[j]) by {
            if j < down.len() {
                assert(note_of(down[i]) >= note_of(down[j]));
            } else if i < down.len() {
                assert(note_of(down[i]) >= 128 - (levels - 1));
                assert(note_of(down_next[j - down.len()]) == 128 - levels);
            } else {
                assert(note_of(down_next[i - down.len()]) == 128 - levels);
                assert(note_of(down_next[j - down.len()]) == 128 - levels);
            }
        }
    }
}

/// An Up arpeggio plays its notes from low to high, a Down arpeggio from
/// high to low, and Up-Down rises first, then falls.
pub proof fn lemma_arpeggio_orders_by_note(expanded: Seq<Cell>, order: ArpeggioOrder)
    ensures
        order == ArpeggioOrder::Up ==> forall|i: int, j: int|
            0 <= i < j < arpeggio_ordered(expanded, order).len() ==> note_of(#[trigger] arpeggio_ordered(expanded, order)[i])
                <= note_of(#[trigger] arpeggio_ordered(expanded, order)[j]),
        order == ArpeggioOrder::Down ==> forall|i: int, j: int|
            0 <= i < j < arpeggio_ordered(expanded, order).len() ==> note_of(#[trigger] arpeggio_ordered(expanded, order)[i])
                >= note_of(#[trigger] arpeggio_ordered(expanded, order)[j]),
        order == ArpeggioOrder::UpDown ==> forall|i: int, j: int|
            0 <= i < j < ascending_notes(expanded, 128).len() ==> note_of(#[trigger] arpeggio_ordered(expanded, order)[i])
                <= note_of(#[trigger] arpeggio_ordered(expanded, order)[j]),
        order == ArpeggioOrder::UpDown ==> forall|i: int, j: int|
            ascending_notes(expanded, 128).len() - 1 <= i < j < arpeggio_ordered(expanded, order).len() ==> note_of(
                #[trigger] arpeggio_ordered(expanded, order)[i],
            ) >= note_of(#[trigger] arpeggio_ordered(expanded, order)[j]),
{
    lemma_levels_sorted(expanded, 128);
    let up = ascending_notes(expanded, 128);
    if order == ArpeggioOrder::UpDown && up.len() > 2 {
        let back = up.subrange(1, up.len() - 1).reverse();
        let whole = up + back;
        assert forall|i: int, j: int| 0 <= i < j < up.len() implies note_of(#[trigger] whole[i]) <= note_of(
            #[trigger] whole[j],
        ) by {
            assert(whole[i] == up[i] && whole[j] == up[j]);
        }
        assert forall|i: int, j: int| up.len() - 1 <= i < j < whole.len() implies note_of(#[trigger] whole[i]) >= note_of(
            #[trigger] whole[j],
        ) by {
            let b = j - up.len();
            assert(whole[j] == up[up.len() - 2 - b]);
            if i == up.len() - 1 {
                assert(whole[i] == up[up.len() - 1]);
                assert(note_of(up[up.len() - 2 - b]) <= note_of(up[up.len() - 1]));
            } else {
                let a = i - up.len();
                assert(whole[i] == up[up.len() - 2 - a]);
                assert(note_of(up[up.len() - 2 - b]) <= note_of(up[up.len() - 2 - a]));
            }
        }
    }
}

proof fn lemma_ascending_contains_level(cells: Seq<Cell>, levels: int, note: int)
    requires
        0 <= note < levels,
    ensures
        ascending_notes(cells, levels).len() >= cells_with_note(cells, note).len(),
    decreases levels,
{
    if note < levels - 1 {
        lemma_ascending_contains_level(cells, levels - 1, note);
    }
}

proof fn lemma_descending_contains_level(cells: Seq<Cell>, levels: int, note: int)
    requires
        128 - levels <= note <= 127,
        levels <= 128,
    ensures
        descending_notes(cells, levels).len() >= cells_with_note(cells, note).len(),
    decreases levels,
{
    if note > 128 - levels {
        lemma_descending_contains_level(cells, levels - 1, note);
    }
}

/// The ordered family is never empty and stays small.
proof fn lemma_family_len(expanded: Seq<Cell>, order: ArpeggioOrder)
    requires
        1 <= expanded.len() <= 12,
        forall|i: int| 0 <= i < expanded.len() ==> note_of(#[trigger] expanded[i]) <= 127,
    ensures
        1 <= arpeggio_ordered(expanded, order).len() <= 4096,
{
    let last = note_of(expanded.last()) as int;
    assert(expanded.drop_last().push(expanded.last()) =~= expanded);
    assert(cells_with_note(expanded, last).len() >= 1);
    lemma_levels_len(expanded, 128);
    assert(expanded.len() * 128 <= 12 * 128) by (nonlinear_arith)
        requires
            expanded.len() <= 12,
    ;
    lemma_ascending_contains_level(expanded, 128, last);
    lemma_descending_contains_level(expanded, 128, last);
}

fn arpeggio_family(pattern: &Pattern, recipe: Recipe, global: usize) -> (family: Result<(usize, Vec<Cell>), GenerativeError>)
    requires
        pattern.well_formed(),
        recipe_in_bounds(recipe, pattern.rows@.len(), pattern.pages@.len()),
        recipe.tool == Tool::Arpeggio,
        global == global_lane(recipe),
    ensures
        family matches Ok((n, v)) ==> spec_arpeggio_family(pattern, recipe) == Ok::<(nat, Seq<Cell>), GenerativeError>((n as nat, v@))
            && 1 <= v@.len() <= 4096 && n <= 4 && cells_midi(v@),
        family matches Err(e) ==> spec_arpeggio_family(pattern, recipe) == Err::<(nat, Seq<Cell>), GenerativeError>(e),
{
    proof {
        lemma_global_lane_in_row(pattern, recipe);
        reveal(spec_arpeggio_family);
    }
    let page_start = recipe.page * LANES_PER_PAGE;
    let row = &pattern.rows[recipe.start_row];
    let ghost row_cells = pattern.grid()[recipe.start_row as int];
    assert(row@ == row_cells);
    let mut sources: Vec<Cell> = Vec::new();
    let mut lane: usize = 0;
    while lane < LANES_PER_PAGE
        invariant
            pattern.well_formed(),
            recipe_in_bounds(recipe, pattern.rows@.len(), pattern.pages@.len()),
            row@ == row_cells,
            row@ == pattern.rows@[recipe.start_row as int]@,
            page_start == recipe.page * LANES_PER_PAGE,
            page_start + LANES_PER_PAGE <= row@.len(),
            lane <= LANES_PER_PAGE,
            sources@ == arpeggio_sources(row_cells, page_start as int, lane as int),
            cells_midi(sources@),
        decreases LANES_PER_PAGE - lane,
    {
        let cell = row[page_start + lane];
        assert(midi_cell(pattern.rows@[recipe.start_row as int]@[page_start + lane]));
        match cell.note {
            Note::On(note) => {
                if !contains_note(&sources, note) {
                    sources.push(cell);
                }
            },
            _ => {},
        }
        lane += 1;
    }
    proof {
        lemma_sources_bounded(row_cells, page_start as int, LANES_PER_PAGE as int);
    }
    let count = sources.len();
    if count == 0 {
        return Err(GenerativeError::ArpeggioNeedsSource);
    }
    let octaves = recipe.arpeggio_octaves as usize;
    assert(count * octaves <= 12) by (nonlinear_arith)
        requires
            count <= 4,
            octaves <= 3,
    ;
    let expanded_len = count * octaves;
    let page_velocity = pattern.pages[recipe.page].velocity;
    let mut refusals: usize = 0;
    let mut j: usize = 0;
    while j < expanded_len
        invariant
            1 <= count <= 4,
            1 <= octaves <= 3,
            sources@.len() == count,
            expanded_len == count * octaves,
            forall|i: int| 0 <= i < count ==> (#[trigger] sources@[i]).note is On,
            j <= expanded_len,
            refusals <= j,
            refusals == arpeggio_refusals(sources@, j as int),
        decreases expanded_len - j,
    {
        let source = sources[j % count];
        let note: u8 = match source.note {
            Note::On(n) => n,
            _ => 0,
        };
        proof {
            assert(j / count <= 2) by (nonlinear_arith)
                requires
                    j < count * octaves,
                    octaves <= 3,
                    count >= 1,
            ;
        }
        if note as usize + 12 * (j / count) > 127 {
            refusals += 1;
        }
        j += 1;
    }
    if refusals > 0 {
        return Err(GenerativeError::ArpeggioRange { notes: refusals });
    }
    let mut expanded: Vec<Cell> = Vec::new();
    let mut j: usize = 0;
    while j < expanded_len
        invariant
            1 <= count <= 4,
            1 <= octaves <= 3,
            octaves == recipe.arpeggio_octaves,
            sources@.len() == count,
            expanded_len == count * octaves,
            page_velocity == pattern.pages@[recipe.page as int].velocity,
            j <= expanded_len,
            expanded@.len() == j,
            forall|k: int| 0 <= k < j ==> #[trigger] expanded@[k] == arpeggio_expanded(sources@, recipe, page_velocity)[k],
        decreases expanded_len - j,
    {
        let source = sources[j % count];
        let note: u8 = match source.note {
            Note::On(n) => n,
            _ => 0,
        };
        let octave = j / count;
        let velocity = match source.velocity {
            Some(v) => v,
            None => page_velocity,
        };
        proof {
            assert(octave <= 2) by (nonlinear_arith)
                requires
                    octave == j / count,
                    j < count * octaves,
                    octaves <= 3,
                    count >= 1,
            ;
        }
        expanded.push(
            Cell {
                note: Note::On(((note as usize + 12 * octave) % 256) as u8),
                velocity: Some(velocity),
                gate: Some(recipe.gate),
                command: Command::Empty,
                nudge: 0,
                probability: 100,
                condition: StepCondition::Always,
                ..source
            },
        );
        proof {
            assert(((note as int + 12 * octave) % 256) as u8 == (note as int + 12 * octave) as u8) by (bit_vector)
                requires
                    note as int + 12 * octave < 1000,
            ;
        }
        j += 1;
    }
    assert(expanded@ =~= arpeggio_expanded(sources@, recipe, page_velocity));
    assert(expanded@.len() == count * octaves);
    proof {
        assert forall|i: int| 0 <= i < expanded@.len() implies note_of(#[trigger] expanded@[i]) <= 127 by {
            lemma_no_refusals(sources@, expanded_len as int, i);
        }
        assert forall|i: int| 0 <= i < expanded@.len() implies #[trigger] midi_cell(expanded@[i]) by {
            lemma_no_refusals(sources@, expanded_len as int, i);
            assert(note_of(expanded@[i]) <= 127);
            assert(midi_cell(sources@[i % (count as int)]));
        }
    }
    assert(count * octaves <= 12) by (nonlinear_arith)
        requires
            count <= 4,
            octaves <= 3,
    ;
    assert(count * octaves >= 1) by (nonlinear_arith)
        requires
            count >= 1,
            octaves >= 1,
    ;
    let family = ordered_family(&expanded, recipe.arpeggio_order);
    proof {
        lemma_family_len(expanded@, recipe.arpeggio_order);
        lemma_ordered_midi(expanded@, recipe.arpeggio_order);
    }
    Ok((count, family))
}


fn arpeggio_entries(pattern: &Pattern, recipe: Recipe, global: usize, family: &Vec<Cell>) -> (entries: Vec<
    Option<(usize, usize, Cell)>,
>)
    requires
        pattern.well_formed(),
        recipe_in_bounds(recipe, pattern.rows@.len(), pattern.pages@.len()),
        recipe.tool == Tool::Arpeggio,
        global == global_lane(recipe),
        1 <= family@.len() <= 4096,
        cells_midi(family@),
        recipe.start_row + (family@.len() * recipe.length) * recipe.row_rate.spec_rows() < pattern.rows@.len(),
    ensures
        proposals_midi(entries@),
        proposals_view(entries@) == arpeggio_proposals(recipe, family@),
        proposals_inside(entries@, pattern.rows@.len() as int, pattern.width() as int),
        entries@.len() == family@.len() * recipe.length,
{
    proof {
        lemma_global_lane_in_row(pattern, recipe);
        assert(family@.len() * recipe.length <= 4096 * 8) by (nonlinear_arith)
            requires
                family@.len() <= 4096,
                recipe.length <= 8,
        ;
    }
    let rate = recipe.row_rate.rows();
    let total = family.len() * recipe.length as usize;
    let length = family.len();
    let mut entries: Vec<Option<(usize, usize, Cell)>> = Vec::new();
    let mut index: usize = 0;
    while index < total
        invariant
            pattern.well_formed(),
            recipe_in_bounds(recipe, pattern.rows@.len(), pattern.pages@.len()),
            global == global_lane(recipe),
            global < pattern.width(),
            rate == recipe.row_rate.spec_rows(),
            length == family@.len(),
            1 <= length <= 4096,
            total == length * recipe.length,
            total <= 4096 * 8,
            recipe.start_row + total * rate < pattern.rows@.len(),
            index <= total,
            entries@.len() == index,
            cells_midi(family@),
            proposals_midi(entries@),
            proposals_inside(entries@, pattern.rows@.len() as int, pattern.width() as int),
            forall|k: int| 0 <= k < index ==> #[trigger] proposal_view(entries@[k]) == arpeggio_proposals(recipe, family@)[k],
        decreases total - index,
    {
        proof {
            assert((index + 1) * rate <= total * rate) by (nonlinear_arith)
                requires
                    index + 1 <= total,
                    rate <= 8,
            ;
        }
        let row = recipe.start_row + (index + 1) * rate;
        entries.push(Some((row, global, family[index % length])));
        index += 1;
    }
    assert(proposals_view(entries@) =~= arpeggio_proposals(recipe, family@));
    entries
}

/// The common start of every draft: a copy of the source, no counts, no rows.
fn draft_start(pattern: &Pattern, recipe: Recipe) -> (start: (Pattern, Report, Vec<usize>))
    requires
        pattern.well_formed(),
    ensures
        state_of(&start.0, start.1, start.2@) == initial_state(pattern),
        draft_frame(&start.0, pattern),
        start.1.bounded_by(0),
{
    let draft = pattern.clone();
    let report = Report::new();
    let affected_rows: Vec<usize> = Vec::new();
    assert forall|row: int| 0 <= row < draft.rows@.len() implies #[trigger] draft.rows@[row]@.len() == pattern.width() by {
        assert(draft.grid()[row] == draft.rows@[row]@);
        assert(pattern.grid()[row] == pattern.rows@[row]@);
    }
    assert forall|row: int, lane: int|
        0 <= row < pattern.rows@.len() && 0 <= lane < pattern.rows@[row]@.len() && lane < pattern.width() && !changeable(
            #[trigger] pattern.rows@[row]@[lane],
        ) implies draft.rows@[row]@[lane] == pattern.rows@[row]@[lane] by {
        assert(draft.grid()[row] == draft.rows@[row]@);
        assert(pattern.grid()[row] == pattern.rows@[row]@);
    }
    assert forall|row: int, lane: int|
        0 <= row < draft.rows@.len() && 0 <= lane < draft.rows@[row]@.len() implies #[trigger] midi_cell(
        draft.rows@[row]@[lane],
    ) by {
        assert(draft.grid()[row] == draft.rows@[row]@);
        assert(pattern.grid()[row] == pattern.rows@[row]@);
        assert(midi_cell(pattern.rows@[row]@[lane]));
    }
    (draft, report, affected_rows)
}

fn draft_with_template(pattern: &Pattern, recipe: Recipe) -> (draft: Result<Draft, GenerativeError>)
    requires
        pattern.well_formed(),
        recipe_in_bounds(recipe, pattern.rows@.len(), pattern.pages@.len()),
        recipe.tool == Tool::Euclidean || recipe.tool == Tool::Accumulator || recipe.tool == Tool::Fill,
        recipe.tool == Tool::Fill ==> pattern.pages@[recipe.page as int].percussion,
    ensures
        draft_matches(draft, spec_build_normalized(pattern, recipe), pattern),
{
    proof {
        lemma_global_lane_in_row(pattern, recipe);
    }
    let global = recipe.page * LANES_PER_PAGE + recipe.lane;
    assert(crate::sequencer::midi_cell(pattern.rows@[recipe.start_row as int]@[global as int]));
    assert(pattern.pages@[recipe.page as int].velocity <= 127);
    let template = match trigger_template(pattern, recipe, global) {
        Ok(t) => t,
        Err(e) => {
            return Err(e);
        },
    };
    let (mut draft, mut report, mut affected_rows) = draft_start(pattern, recipe);
    let entries = match recipe.tool {
        Tool::Euclidean => euclidean_entries(pattern, recipe, global, template),
        Tool::Accumulator => accumulator_entries(pattern, recipe, global, template),
        _ => fill_entries(pattern, recipe, global, template),
    };
    propose_each(&mut draft, pattern, recipe.collision, &entries, &mut report, &mut affected_rows, 0);
    Ok(Draft { recipe, pattern: draft, report, affected_rows })
}

fn draft_mutation(pattern: &Pattern, recipe: Recipe) -> (draft: Result<Draft, GenerativeError>)
    requires
        pattern.well_formed(),
        recipe_in_bounds(recipe, pattern.rows@.len(), pattern.pages@.len()),
        recipe.tool == Tool::Mutation,
    ensures
        draft_matches(draft, spec_build_normalized(pattern, recipe), pattern),
{
    proof {
        lemma_global_lane_in_row(pattern, recipe);
    }
    let global = recipe.page * LANES_PER_PAGE + recipe.lane;
    let (mut draft, mut report, mut affected_rows) = draft_start(pattern, recipe);
    mutate(pattern, &mut draft, recipe, global, &mut report, &mut affected_rows);
    Ok(Draft { recipe, pattern: draft, report, affected_rows })
}

#[verifier::rlimit(40)]
fn draft_arpeggio(pattern: &Pattern, recipe: Recipe) -> (draft: Result<Draft, GenerativeError>)
    requires
        pattern.well_formed(),
        recipe_in_bounds(recipe, pattern.rows@.len(), pattern.pages@.len()),
        recipe.tool == Tool::Arpeggio,
    ensures
        draft_matches(draft, spec_build_normalized(pattern, recipe), pattern),
{
    let global = recipe.page * LANES_PER_PAGE + recipe.lane;
    if pattern.pages[recipe.page].percussion {
        return Err(GenerativeError::ArpeggioNeedsMelodic);
    }
    let found = arpeggio_family(pattern, recipe, global);
    match found {
        Ok((sources, family)) => {
            let result = arpeggio_finish(pattern, recipe, global, sources, &family);
            assert(spec_build_normalized(pattern, recipe) == arpeggio_after_family(pattern, recipe, sources as nat, family@));
            assert(draft_matches(result, spec_build_normalized(pattern, recipe), pattern));
            result
        },
        Err(e) => {
            assert(spec_build_normalized(pattern, recipe) == Err::<DraftOutcome, GenerativeError>(e));
            Err(e)
        },
    }
}

fn arpeggio_finish(pattern: &Pattern, recipe: Recipe, global: usize, sources: usize, family: &Vec<Cell>) -> (draft: Result<
    Draft,
    GenerativeError,
>)
    requires
        pattern.well_formed(),
        recipe_in_bounds(recipe, pattern.rows@.len(), pattern.pages@.len()),
        recipe.tool == Tool::Arpeggio,
        global == global_lane(recipe),
        sources <= 4,
        1 <= family@.len() <= 4096,
        cells_midi(family@),
    ensures
        draft_matches(draft, arpeggio_after_family(pattern, recipe, sources as nat, family@), pattern),
{
    let rate = recipe.row_rate.rows();
    proof {
        assert(family@.len() * recipe.length <= 4096 * 8) by (nonlinear_arith)
            requires
                family@.len() <= 4096,
                recipe.length <= 8,
        ;
        assert(family@.len() * recipe.length * rate <= 4096 * 8 * 8) by (nonlinear_arith)
            requires
                family@.len() * recipe.length <= 4096 * 8,
                rate <= 8,
        ;
    }
    let total = family.len() * recipe.length as usize;
    if recipe.start_row + total * rate >= pattern.rows.len() {
        return Err(GenerativeError::ArpeggioPatternEnd { steps: total, rate: recipe.row_rate, start_row: recipe.start_row });
    }
    let (mut draft, mut report, mut affected_rows) = draft_start(pattern, recipe);
    report.source_cells = sources;
    let entries = arpeggio_entries(pattern, recipe, global, family);
    propose_each(&mut draft, pattern, recipe.collision, &entries, &mut report, &mut affected_rows, 4);
    Ok(Draft { recipe, pattern: draft, report, affected_rows })
}

fn draft_chord(pattern: &Pattern, recipe: Recipe) -> (draft: Result<Draft, GenerativeError>)
    requires
        pattern.well_formed(),
        recipe_in_bounds(recipe, pattern.rows@.len(), pattern.pages@.len()),
        recipe.tool == Tool::Chord,
    ensures
        draft_matches(draft, spec_build_normalized(pattern, recipe), pattern),
{
    proof {
        lemma_global_lane_in_row(pattern, recipe);
    }
    let global = recipe.page * LANES_PER_PAGE + recipe.lane;
    if pattern.pages[recipe.page].percussion {
        return Err(GenerativeError::ChordNeedsMelodic);
    }
    if recipe.lane + 2 >= LANES_PER_PAGE {
        return Err(GenerativeError::ChordNeedsLanes);
    }
    let notes = match chord_notes(pattern, recipe, global) {
        Ok(notes) => notes,
        Err(e) => {
            return Err(e);
        },
    };
    let rate = recipe.row_rate.rows();
    if recipe.start_row + (recipe.length as usize - 1) * rate >= pattern.rows.len() {
        return Err(
            GenerativeError::ChordPatternEnd { chords: recipe.length as usize, rate: recipe.row_rate, start_row: recipe.start_row },
        );
    }
    let page_velocity = pattern.pages[recipe.page].velocity;
    assert(pattern.pages@[recipe.page as int].velocity <= 127);
    let (mut draft, mut report, mut affected_rows) = draft_start(pattern, recipe);
    let entries = chord_entries(pattern, recipe, global, notes, page_velocity);
    propose_each(&mut draft, pattern, recipe.collision, &entries, &mut report, &mut affected_rows, 0);
    Ok(Draft { recipe, pattern: draft, report, affected_rows })
}

fn draft_harmonizer(pattern: &Pattern, recipe: Recipe) -> (draft: Result<Draft, GenerativeError>)
    requires
        pattern.well_formed(),
        recipe_in_bounds(recipe, pattern.rows@.len(), pattern.pages@.len()),
        recipe.tool == Tool::Harmonizer,
    ensures
        draft_matches(draft, spec_build_normalized(pattern, recipe), pattern),
{
    proof {
        lemma_global_lane_in_row(pattern, recipe);
    }
    let global = recipe.page * LANES_PER_PAGE + recipe.lane;
    if pattern.pages[recipe.page].percussion {
        return Err(GenerativeError::HarmonizerNeedsMelodic);
    }
    let target = recipe.page * LANES_PER_PAGE + recipe.harmony_target_lane as usize;
    if target == global {
        return Err(GenerativeError::HarmonizerSameLane);
    }
    proof {
        assert(target < pattern.width()) by (nonlinear_arith)
            requires
                target == recipe.page * 4 + recipe.harmony_target_lane,
                recipe.page < pattern.pages@.len(),
                recipe.harmony_target_lane <= 3,
                pattern.width() == pattern.pages@.len() * 4,
        ;
    }
    let (entries, sources, outside, refused) = harmony_entries(pattern, recipe, global, target);
    if outside > 0 && recipe.out_of_scale == OutOfScalePolicy::Refuse {
        return Err(GenerativeError::HarmonizerOutOfScale { notes: outside });
    }
    if refused > 0 {
        return Err(GenerativeError::HarmonizerRange { notes: refused });
    }
    let (mut draft, mut report, mut affected_rows) = draft_start(pattern, recipe);
    report.source_cells = sources;
    report.out_of_scale = outside;
    propose_each(&mut draft, pattern, recipe.collision, &entries, &mut report, &mut affected_rows, 256);
    Ok(Draft { recipe, pattern: draft, report, affected_rows })
}

/// Each proposal at position `i` targets row `start + i` of `lane`.
pub open spec fn span_placed(proposals: Seq<Option<Proposal>>, start: int, lane: int) -> bool {
    forall|i: int| 0 <= i < proposals.len() ==> (#[trigger] proposals[i] matches Some(p) ==> p.row == start + i && p.lane == lane)
}

proof fn lemma_span_placed(pattern: &Pattern, proposals: Seq<Option<Proposal>>, start: int, lane: int)
    requires
        pattern.well_formed(),
        span_placed(proposals, start, lane),
        0 <= start,
        start + proposals.len() <= pattern.rows@.len(),
        0 <= lane < pattern.width(),
    ensures
        proposals_within(proposals, pattern.grid()),
        rows_ordered(proposals),
{
    assert forall|i: int| 0 <= i < proposals.len() implies (#[trigger] proposals[i] matches Some(p) ==> 0 <= p.row
        < pattern.grid().len() && 0 <= p.lane < pattern.grid()[p.row].len()) by {
        if proposals[i] is Some {
            assert(pattern.grid()[start + i] == pattern.rows@[start + i]@);
        }
    }
}

/// The pass of proposals a tool other than Mutation makes: the state it
/// starts from and the proposals it offers.
proof fn lemma_draft_pass(pattern: &Pattern, recipe: Recipe) -> (pass: (DraftState, Seq<Option<Proposal>>))
    requires
        pattern.well_formed(),
        recipe_in_bounds(recipe, pattern.rows@.len(), pattern.pages@.len()),
        recipe.tool != Tool::Mutation,
        spec_build_normalized(pattern, recipe) is Ok,
    ensures
        spec_build_normalized(pattern, recipe) == outcome(recipe, propose_all(pass.0, recipe.collision, pass.1)),
        pass.0.grid == pattern.grid(),
        pass.0.affected == Seq::<usize>::empty(),
        pass.0.report.replacements == 0,
        proposals_within(pass.1, pattern.grid()),
        rows_ordered(pass.1),
{
    lemma_global_lane_in_row(pattern, recipe);
    let start = recipe.start_row as int;
    let lane = global_lane(recipe);
    let rate = recipe.row_rate.spec_rows() as int;
    let grid = pattern.grid();
    match recipe.tool {
        Tool::Euclidean | Tool::Accumulator | Tool::Fill => {
            let template = spec_trigger_template(pattern, recipe)->Ok_0;
            let proposals = match recipe.tool {
                Tool::Euclidean => euclidean_proposals(recipe, template),
                Tool::Accumulator => accumulator_proposals(recipe, template),
                _ => fill_proposals(recipe, template),
            };
            lemma_span_placed(pattern, proposals, start, lane);
            (initial_state(pattern), proposals)
        },
        Tool::Harmonizer => {
            let (sources, outside, refused) = harmony_counts(pattern, recipe, recipe.length as int);
            let proposals = harmony_proposals(pattern, recipe);
            assert(harmony_target_lane(recipe) < pattern.width()) by (nonlinear_arith)
                requires
                    harmony_target_lane(recipe) == recipe.page * 4 + recipe.harmony_target_lane,
                    recipe.page < pattern.pages@.len(),
                    recipe.harmony_target_lane <= 3,
                    pattern.width() == pattern.pages@.len() * 4,
            ;
            lemma_span_placed(pattern, proposals, start, harmony_target_lane(recipe));
            (
                DraftState {
                    report: Report { source_cells: sources as usize, out_of_scale: outside as usize, ..empty_report() },
                    ..initial_state(pattern)
                },
                proposals,
            )
        },
        Tool::Chord => {
            let notes = spec_chord_notes(recipe, source_cell(pattern, recipe))->Ok_0;
            let page = pattern.pages@[recipe.page as int];
            let proposals = chord_proposals(recipe, notes, page.velocity);
            assert forall|i: int| 0 <= i < proposals.len() implies (#[trigger] proposals[i] matches Some(p) ==> 0 <= p.row
                < grid.len() && 0 <= p.lane < grid[p.row].len()) by {
                let row = start + (i / 3) * rate;
                assert((i / 3) * rate <= (recipe.length - 1) * rate) by (nonlinear_arith)
                    requires
                        0 <= i < recipe.length * 3,
                        0 <= rate,
                ;
                assert(0 <= (i / 3) * rate) by (nonlinear_arith)
                    requires
                        0 <= i,
                        0 <= rate,
                ;
                assert(grid[row] == pattern.rows@[row]@);
            }
            assert forall|i: int, j: int| 0 <= i < j < proposals.len() implies (#[trigger] proposals[i] matches Some(a) ==> (
            #[trigger] proposals[j] matches Some(b) ==> a.row <= b.row)) by {
                assert((i / 3) * rate <= (j / 3) * rate) by (nonlinear_arith)
                    requires
                        0 <= i < j,
                        0 <= rate,
                ;
            }
            (initial_state(pattern), proposals)
        },
        Tool::Arpeggio => {
            reveal(spec_arpeggio_family);
            let (sources, family) = spec_arpeggio_family(pattern, recipe)->Ok_0;
            let proposals = arpeggio_proposals(recipe, family);
            let total = family.len() * recipe.length;
            assert forall|i: int| 0 <= i < proposals.len() implies (#[trigger] proposals[i] matches Some(p) ==> 0 <= p.row
                < grid.len() && 0 <= p.lane < grid[p.row].len()) by {
                let row = start + (i + 1) * rate;
                assert((i + 1) * rate <= total * rate) by (nonlinear_arith)
                    requires
                        0 <= i < total,
                        0 <= rate,
                ;
                assert(0 <= (i + 1) * rate) by (nonlinear_arith)
                    requires
                        0 <= i,
                        0 <= rate,
                ;
                assert(grid[row] == pattern.rows@[row]@);
            }
            assert forall|i: int, j: int| 0 <= i < j < proposals.len() implies (#[trigger] proposals[i] matches Some(a) ==> (
            #[trigger] proposals[j] matches Some(b) ==> a.row <= b.row)) by {
                assert((i + 1) * rate <= (j + 1) * rate) by (nonlinear_arith)
                    requires
                        0 <= i < j,
                        0 <= rate,
                ;
            }
            (DraftState { report: Report { source_cells: sources as usize, ..empty_report() }, ..initial_state(pattern) }, proposals)
        },
        Tool::Mutation => {
            (initial_state(pattern), Seq::empty())
        },
    }
}

/// Mutation keeps the touched rows accounted for, listing none past its span.
proof fn lemma_mutation_rows(pattern: &Pattern, recipe: Recipe, n: int)
    requires
        pattern.well_formed(),
        recipe_in_bounds(recipe, pattern.rows@.len(), pattern.pages@.len()),
        recipe.tool == Tool::Mutation,
        0 <= n <= recipe.length,
    ensures
        rows_accounted(
            mutate_rows(pattern, initial_state(pattern), recipe, n).grid,
            mutate_rows(pattern, initial_state(pattern), recipe, n).affected,
            pattern.grid(),
        ),
        rows_at_most(mutate_rows(pattern, initial_state(pattern), recipe, n).affected, recipe.start_row + n - 1),
    decreases n,
{
    lemma_global_lane_in_row(pattern, recipe);
    if n > 0 {
        lemma_mutation_rows(pattern, recipe, n - 1);
        let before = mutate_rows(pattern, initial_state(pattern), recipe, n - 1);
        let row = recipe.start_row + n - 1;
        let lane = global_lane(recipe);
        let held = pattern.grid()[row][lane];
        assert(pattern.grid()[row] == pattern.rows@[row]@);
        match held.note {
            Note::On(note) => if held.command == Command::Empty && !(spec_mixed(recipe.seed, row as usize, lane as usize, 0)
                % 100 >= recipe.density as u64) {
                let count = mutation_high(note as int, recipe.amount as int) - mutation_low(note as int, recipe.amount as int);
                if count > 0 {
                    let choice = (spec_mixed(recipe.seed, row as usize, lane as usize, 1) as usize) as int % count;
                    let moved = mutation_candidate(note as int, recipe.amount as int, choice);
                    lemma_write_keeps_rows_accounted(
                        before.grid,
                        before.affected,
                        pattern.grid(),
                        row,
                        lane,
                        Cell { note: Note::On(moved as u8), ..held },
                    );
                }
            },
            _ => {},
        }
    } else {
        assert(pattern.grid().len() == pattern.rows@.len());
    }
}

/// A draft lists the rows it touches, once each, in increasing order and
/// inside the Pattern, and every row it does not list is the source's row
/// unchanged.
pub proof fn lemma_draft_lists_its_rows(pattern: &Pattern, recipe: Recipe)
    requires
        pattern.well_formed(),
        recipe_in_bounds(recipe, pattern.rows@.len(), pattern.pages@.len()),
        spec_build_normalized(pattern, recipe) is Ok,
    ensures
        spec_build_normalized(pattern, recipe)->Ok_0.recipe == recipe,
        rows_accounted(
            spec_build_normalized(pattern, recipe)->Ok_0.state.grid,
            spec_build_normalized(pattern, recipe)->Ok_0.state.affected,
            pattern.grid(),
        ),
{
    assert(pattern.grid().len() == pattern.rows@.len());
    if recipe.tool == Tool::Mutation {
        lemma_mutation_rows(pattern, recipe, recipe.length as int);
    } else {
        let (start, proposals) = lemma_draft_pass(pattern, recipe);
        lemma_rows_pass(start, recipe.collision, proposals, pattern.grid(), pattern.rows@.len() as int);
    }
}

/// Under `EmptyOnly`, every tool but Mutation writes only into empty cells:
/// every other cell of the source is kept, and nothing is replaced.
pub proof fn lemma_empty_only_fills_only_empty_cells(pattern: &Pattern, recipe: Recipe)
    requires
        pattern.well_formed(),
        recipe_in_bounds(recipe, pattern.rows@.len(), pattern.pages@.len()),
        recipe.collision == CollisionPolicy::EmptyOnly,
        recipe.tool != Tool::Mutation,
        spec_build_normalized(pattern, recipe) is Ok,
    ensures
        filled_cells_kept(spec_build_normalized(pattern, recipe)->Ok_0.state.grid, pattern.grid()),
        spec_build_normalized(pattern, recipe)->Ok_0.state.report.replacements == 0,
{
    let (start, proposals) = lemma_draft_pass(pattern, recipe);
    lemma_empty_only_pass(start, proposals);
}

/// Draft the recipe's generator over a copy of `pattern`.
///
/// The recipe is normalized first; the draft is what `spec_build` describes:
/// each tool proposes cells, and each proposal is written only into an empty
/// cell, or over a plain note under `ReplaceNotes`. The source is not changed,
/// the draft is a well-formed Pattern again, and every cell of the source that
/// holds more than a plain note is kept in it. The draft lists the rows it
/// changed, once each and in increasing order; every other row is the
/// source's. Under `EmptyOnly`, every tool but Mutation fills empty cells only.
pub fn build(pattern: &Pattern, recipe: Recipe) -> (draft: Result<Draft, GenerativeError>)
    requires
        pattern.well_formed(),
    ensures
        draft_matches(draft, spec_build(pattern, recipe), pattern),
        draft matches Ok(d) ==> protected_kept(&d.pattern, pattern),
        draft matches Ok(d) ==> d.pattern.well_formed(),
        draft matches Ok(d) ==> spec_normalize(recipe, pattern.rows@.len(), pattern.pages@.len()) == Ok::<
            Recipe,
            GenerativeError,
        >(d.recipe),
        draft matches Ok(d) ==> rows_accounted(d.pattern.grid(), d.affected_rows@, pattern.grid()),
        draft matches Ok(d) ==> (recipe.collision == CollisionPolicy::EmptyOnly && recipe.tool != Tool::Mutation
            ==> filled_cells_kept(d.pattern.grid(), pattern.grid()) && d.report.replacements == 0),
{
    let mut recipe = recipe;
    match recipe.normalize(pattern) {
        Ok(()) => {},
        Err(e) => {
            return Err(e);
        },
    }
    let draft = match recipe.tool {
        Tool::Euclidean | Tool::Accumulator => draft_with_template(pattern, recipe),
        Tool::Fill => {
            if !pattern.pages[recipe.page].percussion {
                return Err(GenerativeError::FillNeedsPercussion);
            }
            draft_with_template(pattern, recipe)
        },
        Tool::Mutation => draft_mutation(pattern, recipe),
        Tool::Arpeggio => draft_arpeggio(pattern, recipe),
        Tool::Chord => draft_chord(pattern, recipe),
        Tool::Harmonizer => draft_harmonizer(pattern, recipe),
    };
    proof {
        if draft is Ok {
            lemma_draft_lists_its_rows(pattern, recipe);
            if recipe.collision == CollisionPolicy::EmptyOnly && recipe.tool != Tool::Mutation {
                lemma_empty_only_fills_only_empty_cells(pattern, recipe);
            }
        }
    }
    draft
}

fn clamp_u16(value: u16, low: u16, high: u16) -> (clamped: u16)
    requires
        low <= high,
    ensures
        clamped == clamp(value as int, low as int, high as int),
{
    if value < low {
        low
    } else if value > high {
        high
    } else {
        value
    }
}

} // verus!
