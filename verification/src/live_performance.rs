//! Transient Live Patterns and tracker-lane performance state.
//!
//! This module deliberately owns no MIDI or JACK endpoint. The sequencer owns
//! activation and note cleanup; the UI owns selection and confirmation.

use vstd::prelude::*;

use crate::sequencer::{midi_cell, Cell, Lane, Note, Page, Pattern, Song, LANES_PER_PAGE};
use crate::text::{push_decimal, spec_decimal};

verus! {

/// Where a queued launch takes effect.
#[derive(Clone, Copy, Debug, PartialEq, Eq, Structural)]
pub enum LaunchQuantization {
    /// At the end of the playing Pattern.
    Pattern,
    /// At the next bar line, or the end of the Pattern if that comes first.
    Bar,
}

impl LaunchQuantization {
    pub open spec fn spec_label(self) -> Seq<char> {
        match self {
            LaunchQuantization::Pattern => "PATTERN"@,
            LaunchQuantization::Bar => "BAR"@,
        }
    }

    pub fn label(self) -> (label: &'static str)
        ensures
            label@ == self.spec_label(),
    {
        match self {
            LaunchQuantization::Pattern => "PATTERN",
            LaunchQuantization::Bar => "BAR",
        }
    }
}

impl Default for LaunchQuantization {
    fn default() -> (quantization: LaunchQuantization)
        ensures
            quantization == LaunchQuantization::Bar,
    {
        LaunchQuantization::Bar
    }
}

/// Live shaping of one tracker lane.
#[derive(Clone, Copy, Debug, PartialEq, Eq, Structural)]
pub struct LaneShape {
    pub muted: bool,
    /// Percentage of the stored/inherited velocity.
    pub velocity_percent: u16,
    /// Percentage of the stored/inherited gate.
    pub gate_percent: u16,
    /// Signed semitone offset.
    pub transpose: i8,
}

/// The shape that changes nothing.
pub open spec fn neutral_shape() -> LaneShape {
    LaneShape { muted: false, velocity_percent: 100, gate_percent: 100, transpose: 0 }
}

impl Default for LaneShape {
    fn default() -> (shape: LaneShape)
        ensures
            shape == neutral_shape(),
    {
        LaneShape { muted: false, velocity_percent: 100, gate_percent: 100, transpose: 0 }
    }
}

/// `value` held within `low..=high`.
pub open spec fn clamp(value: int, low: int, high: int) -> int {
    if value < low {
        low
    } else if value > high {
        high
    } else {
        value
    }
}

/// The stored velocity scaled by `percent`, rounded, within MIDI velocities 1..=127.
pub open spec fn scaled_velocity(stored: u8, percent: u16) -> int {
    clamp((stored * percent + 50) / 100, 1, 127)
}

/// The stored gate scaled by `percent`, rounded, within 1..=100 percent.
pub open spec fn scaled_gate(stored: u8, percent: u16) -> int {
    clamp((stored * percent + 50) / 100, 1, 100)
}

/// The stored note moved by `transpose`, within MIDI notes 0..=127.
pub open spec fn transposed_note(stored: u8, transpose: i8) -> int {
    clamp(stored + transpose, 0, 127)
}

impl LaneShape {
    pub const MIN_SCALE: u16 = 10;

    pub const MAX_SCALE: u16 = 200;

    pub const MIN_TRANSPOSE: i8 = -48;

    pub const MAX_TRANSPOSE: i8 = 48;

    /// Set the velocity scale, held within `MIN_SCALE..=MAX_SCALE`.
    pub fn set_velocity(&mut self, percent: i32)
        ensures
            final(self).velocity_percent == clamp(percent as int, 10, 200),
            final(self).muted == old(self).muted,
            final(self).gate_percent == old(self).gate_percent,
            final(self).transpose == old(self).transpose,
    {
        self.velocity_percent = clamp_scale(percent);
    }

    /// Set the scale of note lengths, held within `MIN_SCALE..=MAX_SCALE`.
    pub fn set_gate(&mut self, percent: i32)
        ensures
            final(self).gate_percent == clamp(percent as int, 10, 200),
            final(self).muted == old(self).muted,
            final(self).velocity_percent == old(self).velocity_percent,
            final(self).transpose == old(self).transpose,
    {
        self.gate_percent = clamp_scale(percent);
    }

    /// Set the transposition, held within `MIN_TRANSPOSE..=MAX_TRANSPOSE`.
    pub fn set_transpose(&mut self, semitones: i16)
        ensures
            final(self).transpose == clamp(semitones as int, -48, 48),
            final(self).muted == old(self).muted,
            final(self).velocity_percent == old(self).velocity_percent,
            final(self).gate_percent == old(self).gate_percent,
    {
        let held: i16 = if semitones < Self::MIN_TRANSPOSE as i16 {
            Self::MIN_TRANSPOSE as i16
        } else if semitones > Self::MAX_TRANSPOSE as i16 {
            Self::MAX_TRANSPOSE as i16
        } else {
            semitones
        };
        self.transpose = held as i8;
    }

    /// The velocity that plays for a stored or inherited velocity.
    pub fn velocity(self, stored: u8) -> (velocity: u8)
        ensures
            velocity == scaled_velocity(stored, self.velocity_percent),
            1 <= velocity <= 127,
    {
        assert(stored as u32 * self.velocity_percent as u32 <= 255 * 65535) by (nonlinear_arith)
            requires
                stored <= 255,
                self.velocity_percent <= 65535,
        ;
        let product: u32 = stored as u32 * self.velocity_percent as u32;
        let scaled: u32 = (product + 50) / 100;
        (if scaled < 1 {
            1
        } else if scaled > 127 {
            127
        } else {
            scaled
        }) as u8
    }

    /// How long a note plays: its stored or inherited length, scaled.
    pub fn gate(self, stored: u8) -> (gate: u8)
        ensures
            gate == scaled_gate(stored, self.gate_percent),
            1 <= gate <= 100,
    {
        assert(stored as u32 * self.gate_percent as u32 <= 255 * 65535) by (nonlinear_arith)
            requires
                stored <= 255,
                self.gate_percent <= 65535,
        ;
        let product: u32 = stored as u32 * self.gate_percent as u32;
        let scaled: u32 = (product + 50) / 100;
        (if scaled < 1 {
            1
        } else if scaled > 100 {
            100
        } else {
            scaled
        }) as u8
    }

    /// The note that plays for a stored note.
    pub fn note(self, stored: u8) -> (note: u8)
        ensures
            note == transposed_note(stored, self.transpose),
            note <= 127,
    {
        let moved: i16 = stored as i16 + self.transpose as i16;
        (if moved < 0 {
            0
        } else if moved > 127 {
            127
        } else {
            moved
        }) as u8
    }
}

fn clamp_scale(percent: i32) -> (scale: u16)
    ensures
        scale == clamp(percent as int, 10, 200),
{
    if percent < LaneShape::MIN_SCALE as i32 {
        LaneShape::MIN_SCALE
    } else if percent > LaneShape::MAX_SCALE as i32 {
        LaneShape::MAX_SCALE
    } else {
        percent as u16
    }
}

/// Whether a launch quantized to `quantization` may take effect before
/// `next_row` of a Pattern with `pattern_rows` rows.
pub open spec fn spec_is_launch_boundary(
    quantization: LaunchQuantization,
    next_row: usize,
    pattern_rows: usize,
    steps_per_beat: u8,
    meter: u8,
) -> bool {
    if next_row >= pattern_rows {
        true
    } else {
        match quantization {
            LaunchQuantization::Pattern => false,
            LaunchQuantization::Bar => {
                let bar_rows = (if steps_per_beat < 1 {
                    1
                } else {
                    steps_per_beat as int
                }) * (if meter < 1 {
                    1
                } else {
                    meter as int
                });
                next_row > 0 && (next_row as int) % bar_rows == 0
            },
        }
    }
}

pub fn is_launch_boundary(
    quantization: LaunchQuantization,
    next_row: usize,
    pattern_rows: usize,
    steps_per_beat: u8,
    meter: u8,
) -> (boundary: bool)
    ensures
        boundary == spec_is_launch_boundary(quantization, next_row, pattern_rows, steps_per_beat, meter),
{
    if next_row >= pattern_rows {
        return true;
    }
    match quantization {
        LaunchQuantization::Pattern => false,
        LaunchQuantization::Bar => {
            let beat: usize = if steps_per_beat < 1 {
                1
            } else {
                steps_per_beat as usize
            };
            let bar: usize = if meter < 1 {
                1
            } else {
                meter as usize
            };
            assert(1 <= beat * bar <= 255 * 255) by (nonlinear_arith)
                requires
                    1 <= beat <= 255,
                    1 <= bar <= 255,
            ;
            let bar_rows = beat * bar;
            next_row > 0 && next_row % bar_rows == 0
        },
    }
}

/// Rows in one bar: steps per beat times beats per bar, each at least one.
pub open spec fn rows_per_bar(steps_per_beat: u8, meter: u8) -> int {
    (if steps_per_beat < 1 { 1 } else { steps_per_beat as int }) * (if meter < 1 { 1 } else { meter as int })
}

/// A launch takes effect at the end of the Pattern, and, quantized to the
/// bar, also before every row that starts a bar after the first one: row
/// `next_row` is a boundary exactly when a whole, positive number of bars
/// lies before it. Quantized to the Pattern, only its end is a boundary.
pub proof fn lemma_launch_boundaries_are_whole_bars(
    next_row: usize,
    pattern_rows: usize,
    steps_per_beat: u8,
    meter: u8,
)
    ensures
        spec_is_launch_boundary(LaunchQuantization::Pattern, next_row, pattern_rows, steps_per_beat, meter)
            <==> next_row >= pattern_rows,
        spec_is_launch_boundary(LaunchQuantization::Bar, next_row, pattern_rows, steps_per_beat, meter) <==> (
        next_row >= pattern_rows || exists|bars: int|
            bars >= 1 && #[trigger] (bars * rows_per_bar(steps_per_beat, meter)) == next_row),
{
    let bar = rows_per_bar(steps_per_beat, meter);
    assert(bar >= 1) by (nonlinear_arith)
        requires
            bar == (if steps_per_beat < 1 { 1 } else { steps_per_beat as int }) * (if meter < 1 {
                1
            } else {
                meter as int
            }),
    ;
    if next_row < pattern_rows {
        if next_row > 0 && (next_row as int) % bar == 0 {
            let bars = (next_row as int) / bar;
            vstd::arithmetic::div_mod::lemma_fundamental_div_mod(next_row as int, bar);
            assert(bars * bar == next_row) by (nonlinear_arith)
                requires
                    next_row == bar * bars + 0,
            ;
            assert(bars >= 1) by (nonlinear_arith)
                requires
                    bars * bar == next_row,
                    next_row > 0,
                    bar >= 1,
            ;
        }
        if exists|bars: int| bars >= 1 && #[trigger] (bars * bar) == next_row {
            let bars = choose|bars: int| bars >= 1 && #[trigger] (bars * bar) == next_row;
            vstd::arithmetic::div_mod::lemma_fundamental_div_mod_converse(next_row as int, bar, bars, 0);
            assert(next_row > 0) by (nonlinear_arith)
                requires
                    bars >= 1,
                    bar >= 1,
                    bars * bar == next_row,
            ;
        }
    }
}

/// A launch waiting for its boundary.
#[derive(Clone, Copy, Debug, PartialEq, Eq, Structural)]
pub struct QueuedPattern {
    pub pattern: u16,
    pub quantization: LaunchQuantization,
    pub retrigger: bool,
}

/// A launch that took effect; `serial` counts activations.
#[derive(Clone, Copy, Debug, PartialEq, Eq, Structural)]
pub struct ActivatedPattern {
    pub serial: u64,
    pub pattern: u16,
    pub retrigger: bool,
}

/// Capture of successful launches into an Arrangement.
#[derive(Clone, Debug, PartialEq, Eq)]
pub enum CaptureState {
    Off,
    Recording(Vec<u16>),
    Confirm(Vec<u16>),
}

/// What a capture state holds, as sequences.
pub enum CaptureModel {
    Off,
    Recording(Seq<u16>),
    Confirm(Seq<u16>),
}

impl View for CaptureState {
    type V = CaptureModel;

    open spec fn view(&self) -> CaptureModel {
        match self {
            CaptureState::Off => CaptureModel::Off,
            CaptureState::Recording(launches) => CaptureModel::Recording(launches@),
            CaptureState::Confirm(launches) => CaptureModel::Confirm(launches@),
        }
    }
}

impl Default for CaptureState {
    fn default() -> (state: CaptureState)
        ensures
            state@ == CaptureModel::Off,
    {
        CaptureState::Off
    }
}

/// How a confirmed capture enters the Arrangement.
#[derive(Clone, Copy, Debug, PartialEq, Eq, Structural)]
pub enum CaptureCommit {
    Append,
    Replace,
}

/// Why a Live Pattern request was refused.
#[derive(Clone, Copy, Debug, PartialEq, Eq, Structural)]
pub enum LiveError {
    PatternMissing { pattern: u16 },
    NoSelection,
    NotPlaying,
    NotRecording,
    NotConfirming,
    CapturedPatternGone,
    ArrangementTooLong,
    EmptyReplace,
}

/// A Pattern number with at least two digits.
pub open spec fn two_digits(n: u16) -> Seq<char> {
    if n < 10 {
        "0"@ + spec_decimal(n as nat)
    } else {
        spec_decimal(n as nat)
    }
}

impl LiveError {
    pub open spec fn spec_message(self) -> Seq<char> {
        match self {
            LiveError::PatternMissing { pattern } => "Pattern "@ + two_digits(pattern) + " is missing"@,
            LiveError::NoSelection => "no Pattern selected"@,
            LiveError::NotPlaying => "no Pattern is playing"@,
            LiveError::NotRecording => "Live Pattern capture is not recording"@,
            LiveError::NotConfirming => "Live Pattern capture is not awaiting confirmation"@,
            LiveError::CapturedPatternGone => "captured Pattern is no longer available"@,
            LiveError::ArrangementTooLong => "captured Arrangement would exceed 4096 steps"@,
            LiveError::EmptyReplace => "cannot replace Arrangement with an empty capture"@,
        }
    }

    pub fn message(&self) -> (message: String)
        ensures
            message@ == self.spec_message(),
    {
        let mut text = String::new();
        match *self {
            LiveError::PatternMissing { pattern } => {
                text.append("Pattern ");
                if pattern < 10 {
                    text.append("0");
                }
                push_decimal(&mut text, pattern as usize);
                text.append(" is missing");
            },
            LiveError::NoSelection => text.append("no Pattern selected"),
            LiveError::NotPlaying => text.append("no Pattern is playing"),
            LiveError::NotRecording => text.append("Live Pattern capture is not recording"),
            LiveError::NotConfirming => text.append("Live Pattern capture is not awaiting confirmation"),
            LiveError::CapturedPatternGone => text.append("captured Pattern is no longer available"),
            LiveError::ArrangementTooLong => text.append("captured Arrangement would exceed 4096 steps"),
            LiveError::EmptyReplace => text.append("cannot replace Arrangement with an empty capture"),
        }
        proof {
            assert(text@ =~= self.spec_message());
        }
        text
    }
}

/// Longest Arrangement a capture may produce.
pub const MAX_ARRANGEMENT_STEPS: usize = 4096;

/// Lane shapes of one page of one Pattern.
#[derive(Clone, Copy, Debug)]
struct ShapeEntry {
    pattern: u16,
    page: usize,
    shapes: [LaneShape; LANES_PER_PAGE],
}

/// The shapes of a page nobody has shaped.
pub open spec fn neutral_shapes() -> Seq<LaneShape> {
    Seq::new(LANES_PER_PAGE as nat, |i: int| neutral_shape())
}

/// The first of the first `n` entries that belongs to `pattern` and `page`.
spec fn entry_index(entries: Seq<ShapeEntry>, pattern: u16, page: usize, n: int) -> Option<int>
    decreases n,
{
    if n <= 0 {
        None
    } else {
        match entry_index(entries, pattern, page, n - 1) {
            Some(i) => Some(i),
            None => if entries[n - 1].pattern == pattern && entries[n - 1].page == page {
                Some(n - 1)
            } else {
                None
            },
        }
    }
}

proof fn lemma_entry_index_bounds(entries: Seq<ShapeEntry>, pattern: u16, page: usize, n: int)
    ensures
        entry_index(entries, pattern, page, n) matches Some(i) ==> 0 <= i < n && entries[i].pattern == pattern
            && entries[i].page == page,
    decreases n,
{
    if n > 0 {
        lemma_entry_index_bounds(entries, pattern, page, n - 1);
    }
}

/// Entries with the same keys are found at the same places.
proof fn lemma_entry_index_same_keys(
    a: Seq<ShapeEntry>,
    b: Seq<ShapeEntry>,
    pattern: u16,
    page: usize,
    n: int,
)
    requires
        n <= a.len(),
        n <= b.len(),
        forall|k: int| 0 <= k < n ==> #[trigger] a[k].pattern == b[k].pattern && a[k].page == b[k].page,
    ensures
        entry_index(a, pattern, page, n) == entry_index(b, pattern, page, n),
    decreases n,
{
    if n > 0 {
        lemma_entry_index_same_keys(a, b, pattern, page, n - 1);
    }
}

/// Once found, an entry stays the first found as more entries are searched.
proof fn lemma_entry_index_stable(entries: Seq<ShapeEntry>, pattern: u16, page: usize, m: int, n: int)
    requires
        m <= n,
        entry_index(entries, pattern, page, m) is Some,
    ensures
        entry_index(entries, pattern, page, n) == entry_index(entries, pattern, page, m),
    decreases n - m,
{
    if m < n {
        lemma_entry_index_stable(entries, pattern, page, m, n - 1);
    }
}

/// The shapes that `entries` hold for `pattern` and `page`.
spec fn shapes_in(entries: Seq<ShapeEntry>, pattern: u16, page: usize) -> Seq<LaneShape> {
    match entry_index(entries, pattern, page, entries.len() as int) {
        Some(i) => entries[i].shapes@,
        None => neutral_shapes(),
    }
}

/// Adding a neutral entry for a page without one changes no page's shapes.
proof fn lemma_push_neutral(before: Seq<ShapeEntry>, entry: ShapeEntry)
    requires
        entry.shapes@ == neutral_shapes(),
        entry_index(before, entry.pattern, entry.page, before.len() as int) is None,
    ensures
        forall|pattern: u16, page: usize|
            #![trigger shapes_in(before.push(entry), pattern, page)]
            shapes_in(before.push(entry), pattern, page) == shapes_in(before, pattern, page),
        entry_index(before.push(entry), entry.pattern, entry.page, before.len() + 1int) == Some(before.len() as int),
{
    let after = before.push(entry);
    assert forall|pattern: u16, page: usize|
        #![trigger shapes_in(before.push(entry), pattern, page)]
        shapes_in(before.push(entry), pattern, page) == shapes_in(before, pattern, page) by {
        lemma_entry_index_same_keys(after, before, pattern, page, before.len() as int);
        lemma_entry_index_bounds(before, pattern, page, before.len() as int);
    }
    lemma_entry_index_same_keys(after, before, entry.pattern, entry.page, before.len() as int);
}

/// Changing the shapes of the entry at `index`, keeping its key, changes
/// only the shapes of that entry's page.
proof fn lemma_update_shapes(entries: Seq<ShapeEntry>, index: int)
    requires
        0 <= index < entries.len(),
        entry_index(entries, entries[index].pattern, entries[index].page, entries.len() as int) == Some(index),
    ensures
        forall|other: Seq<ShapeEntry>, pattern: u16, page: usize|
            #![trigger shapes_in(other, pattern, page), other[index]]
            other.len() == entries.len() && other[index].pattern == entries[index].pattern && other[index].page
                == entries[index].page && (forall|k: int|
                0 <= k < entries.len() && k != index ==> #[trigger] other[k] == entries[k]) ==> shapes_in(
                other,
                pattern,
                page,
            ) == if pattern == entries[index].pattern && page == entries[index].page {
                other[index].shapes@
            } else {
                shapes_in(entries, pattern, page)
            },
{
    assert forall|other: Seq<ShapeEntry>, pattern: u16, page: usize|
        other.len() == entries.len() && other[index].pattern == entries[index].pattern && other[index].page
            == entries[index].page && (forall|k: int|
            0 <= k < entries.len() && k != index ==> #[trigger] other[k] == entries[k]) implies shapes_in(
        other,
        pattern,
        page,
    ) == if pattern == entries[index].pattern && page == entries[index].page {
        other[index].shapes@
    } else {
        shapes_in(entries, pattern, page)
    } by {
        assert forall|k: int| 0 <= k < entries.len() implies #[trigger] other[k].pattern == entries[k].pattern
            && other[k].page == entries[k].page by {
            if k != index {
                assert(other[k] == entries[k]);
            }
        }
        lemma_entry_index_same_keys(other, entries, pattern, page, entries.len() as int);
        lemma_entry_index_bounds(entries, pattern, page, entries.len() as int);
    }
}

/// What the Live Pattern screen holds.
#[verifier::ext_equal]
pub struct LiveState {
    pub selected: Option<u16>,
    pub current: Option<u16>,
    pub queued: Option<QueuedPattern>,
    pub quantization: LaunchQuantization,
    pub activation_serial: u64,
    pub capture: CaptureModel,
    /// Lane shapes of each (Pattern, page); unshaped pages map to `neutral_shapes()`.
    pub shapes: Map<(u16, usize), Seq<LaneShape>>,
}

/// The state of a fresh Live Pattern screen, with `selected` chosen.
pub open spec fn fresh_state(selected: Option<u16>) -> LiveState {
    LiveState {
        selected,
        current: None,
        queued: None,
        quantization: LaunchQuantization::Bar,
        activation_serial: 0,
        capture: CaptureModel::Off,
        shapes: Map::new(|key: (u16, usize)| true, |key: (u16, usize)| neutral_shapes()),
    }
}

/// Live Pattern selection, queueing, capture and lane shaping. Nothing here
/// changes the Song until a capture is confirmed.
#[derive(Debug)]
pub struct LivePatternPerformance {
    selected: Option<u16>,
    current: Option<u16>,
    queued: Option<QueuedPattern>,
    quantization: LaunchQuantization,
    activation_serial: u64,
    capture: CaptureState,
    lane_shapes: Vec<ShapeEntry>,
}

impl LivePatternPerformance {
    closed spec fn shapes_of(&self, pattern: u16, page: usize) -> Seq<LaneShape> {
        shapes_in(self.lane_shapes@, pattern, page)
    }
}

impl View for LivePatternPerformance {
    type V = LiveState;

    closed spec fn view(&self) -> LiveState {
        LiveState {
            selected: self.selected,
            current: self.current,
            queued: self.queued,
            quantization: self.quantization,
            activation_serial: self.activation_serial,
            capture: self.capture@,
            shapes: Map::new(|key: (u16, usize)| true, |key: (u16, usize)| self.shapes_of(key.0, key.1)),
        }
    }
}

impl Default for LivePatternPerformance {
    fn default() -> (live: LivePatternPerformance)
        ensures
            live@ == fresh_state(None),
    {
        let live = LivePatternPerformance {
            selected: None,
            current: None,
            queued: None,
            quantization: LaunchQuantization::Bar,
            activation_serial: 0,
            capture: CaptureState::Off,
            lane_shapes: Vec::new(),
        };
        assert(live@ =~= fresh_state(None));
        live
    }
}

/// The first place of `x` among the first `n` of `keys`.
pub open spec fn first_position(keys: Seq<u16>, x: u16, n: int) -> Option<int>
    decreases n,
{
    if n <= 0 {
        None
    } else {
        match first_position(keys, x, n - 1) {
            Some(i) => Some(i),
            None => if keys[n - 1] == x {
                Some(n - 1)
            } else {
                None
            },
        }
    }
}

/// The place of the selected Pattern among `keys`, or the first place.
pub open spec fn selected_position(keys: Seq<u16>, selected: Option<u16>) -> int {
    match selected {
        Some(s) => match first_position(keys, s, keys.len() as int) {
            Some(i) => i,
            None => 0,
        },
        None => 0,
    }
}

/// The Pattern `browse` selects among `keys`.
pub open spec fn browsed(keys: Seq<u16>, selected: Option<u16>, direction: i8) -> Option<u16> {
    if keys.len() == 0 {
        None
    } else {
        let current = selected_position(keys, selected);
        let next = if direction < 0 {
            (current + keys.len() - 1) % (keys.len() as int)
        } else {
            (current + 1) % (keys.len() as int)
        };
        Some(keys[next])
    }
}

/// The group of four Patterns that holds the selected one (or Pattern 0).
pub open spec fn spec_group(keys: Seq<u16>, selected: Option<u16>) -> Seq<u16> {
    let wanted = match selected {
        Some(s) => s,
        None => 0u16,
    };
    let index = match first_position(keys, wanted, keys.len() as int) {
        Some(i) => i,
        None => 0,
    };
    let start = index / 4 * 4;
    if start >= keys.len() {
        Seq::empty()
    } else if start + 4 <= keys.len() {
        keys.subrange(start, start + 4)
    } else {
        keys.subrange(start, keys.len() as int)
    }
}

proof fn lemma_first_position_bounds(keys: Seq<u16>, x: u16, n: int)
    ensures
        first_position(keys, x, n) matches Some(i) ==> 0 <= i < n && keys[i] == x,
    decreases n,
{
    if n > 0 {
        lemma_first_position_bounds(keys, x, n - 1);
    }
}

proof fn lemma_first_position_of_unique(keys: Seq<u16>, i: int, n: int)
    requires
        0 <= i < n <= keys.len(),
        forall|a: int, b: int| 0 <= a < b < keys.len() ==> #[trigger] keys[a] != #[trigger] keys[b],
    ensures
        first_position(keys, keys[i], n) == Some(i),
    decreases n,
{
    if n - 1 > i {
        lemma_first_position_of_unique(keys, i, n - 1);
    } else {
        assert(first_position(keys, keys[i], i) is None) by {
            lemma_first_position_bounds(keys, keys[i], i);
        }
    }
}

/// Browsing moves one Pattern along the Song's numbers, wrapping at the
/// ends: forward from a Pattern selects the next number (the first after the
/// last), backward the previous one (the last before the first), and a step
/// forward followed by a step back returns to the Pattern browsed from.
pub proof fn lemma_browsing_steps_one_pattern(keys: Seq<u16>, i: int)
    requires
        0 <= i < keys.len(),
        forall|a: int, b: int| 0 <= a < b < keys.len() ==> #[trigger] keys[a] != #[trigger] keys[b],
    ensures
        browsed(keys, Some(keys[i]), 1) == Some(keys[if i + 1 == keys.len() { 0 } else { i + 1 }]),
        browsed(keys, Some(keys[i]), -1i8) == Some(keys[if i == 0 { keys.len() - 1 } else { i - 1 }]),
        browsed(keys, browsed(keys, Some(keys[i]), 1i8), -1i8) == Some(keys[i]),
        browsed(keys, browsed(keys, Some(keys[i]), -1i8), 1i8) == Some(keys[i]),
{
    let n = keys.len() as int;
    let up = if i + 1 == n { 0 } else { i + 1 };
    let down = if i == 0 { n - 1 } else { i - 1 };
    lemma_first_position_of_unique(keys, i, n);
    lemma_first_position_of_unique(keys, up, n);
    lemma_first_position_of_unique(keys, down, n);
    assert((i + 1) % n == up) by (nonlinear_arith)
        requires
            0 <= i < n,
            up == if i + 1 == n { 0 } else { i + 1 },
    ;
    assert((i + n - 1) % n == down) by (nonlinear_arith)
        requires
            0 <= i < n,
            down == if i == 0 { n - 1 } else { i - 1 },
    ;
    assert((up + n - 1) % n == i) by (nonlinear_arith)
        requires
            0 <= i < n,
            up == if i + 1 == n { 0 } else { i + 1 },
    ;
    assert((down + 1) % n == i) by (nonlinear_arith)
        requires
            0 <= i < n,
            down == if i == 0 { n - 1 } else { i - 1 },
    ;
}

proof fn lemma_first_position_stable(keys: Seq<u16>, x: u16, m: int, n: int)
    requires
        m <= n,
        first_position(keys, x, m) is Some,
    ensures
        first_position(keys, x, n) == first_position(keys, x, m),
    decreases n - m,
{
    if m < n {
        lemma_first_position_stable(keys, x, m, n - 1);
    }
}

/// The first place of `x` in `keys`.
fn position(keys: &Vec<u16>, x: u16) -> (found: Option<usize>)
    ensures
        match found {
            Some(i) => first_position(keys@, x, keys@.len() as int) == Some(i as int),
            None => first_position(keys@, x, keys@.len() as int) is None,
        },
{
    let mut i: usize = 0;
    while i < keys.len()
        invariant
            i <= keys@.len(),
            first_position(keys@, x, i as int) is None,
        decreases keys@.len() - i,
    {
        if keys[i] == x {
            proof {
                lemma_first_position_stable(keys@, x, i + 1, keys@.len() as int);
            }
            return Some(i);
        }
        i += 1;
    }
    None
}

impl LivePatternPerformance {
    /// Forget everything of the previous project; select its first Pattern.
    pub fn reset_for_project(&mut self, song: &Song)
        ensures
            final(self)@ == fresh_state(
                if song.patterns@.len() == 0 {
                    None
                } else {
                    Some(song.patterns@[0].number)
                },
            ),
    {
        let first = if song.patterns.len() == 0 {
            None
        } else {
            Some(song.patterns[0].number)
        };
        *self = LivePatternPerformance::default();
        self.selected = first;
        proof {
            assert(self@ =~= fresh_state(first));
        }
    }

    pub fn selected(&self) -> (selected: Option<u16>)
        ensures
            selected == self@.selected,
    {
        self.selected
    }

    pub fn current(&self) -> (current: Option<u16>)
        ensures
            current == self@.current,
    {
        self.current
    }

    pub fn queued(&self) -> (queued: Option<QueuedPattern>)
        ensures
            queued == self@.queued,
    {
        self.queued
    }

    pub fn quantization(&self) -> (quantization: LaunchQuantization)
        ensures
            quantization == self@.quantization,
    {
        self.quantization
    }

    pub fn set_quantization(&mut self, quantization: LaunchQuantization)
        ensures
            final(self)@ == (LiveState { quantization, ..old(self)@ }),
    {
        self.quantization = quantization;
        proof {
            assert(self@ =~= (LiveState { quantization, ..old(self)@ }));
        }
    }

    /// Select a Pattern of the Song without launching it.
    pub fn select(&mut self, song: &Song, pattern: u16) -> (result: Result<(), LiveError>)
        ensures
            song.has_pattern(pattern) ==> result is Ok && final(self)@ == (LiveState {
                selected: Some(pattern),
                ..old(self)@
            }),
            !song.has_pattern(pattern) ==> result == Err::<(), LiveError>(LiveError::PatternMissing { pattern })
                && final(self)@ == old(self)@,
    {
        if !song.contains_pattern(pattern) {
            return Err(LiveError::PatternMissing { pattern });
        }
        self.selected = Some(pattern);
        proof {
            assert(self@ =~= (LiveState { selected: Some(pattern), ..old(self)@ }));
        }
        Ok(())
    }

    /// Move the selection to the next (or, for a negative direction, the
    /// previous) Pattern, wrapping around; nothing is launched.
    pub fn browse(&mut self, song: &Song, direction: i8)
        ensures
            final(self)@ == (LiveState { selected: browsed(song.numbers(), old(self)@.selected, direction), ..old(self)@ }),
    {
        let patterns = song.pattern_numbers();
        if patterns.len() == 0 {
            self.selected = None;
            proof {
                assert(self@ =~= (LiveState {
                    selected: browsed(song.numbers(), old(self)@.selected, direction),
                    ..old(self)@
                }));
            }
            return;
        }
        let current: usize = match self.selected {
            Some(selected) => match position(&patterns, selected) {
                Some(i) => i,
                None => 0,
            },
            None => 0,
        };
        proof {
            if let Some(s) = self.selected {
                lemma_first_position_bounds(patterns@, s, patterns@.len() as int);
            }
        }
        let count = patterns.len();
        let next = if direction < 0 {
            if current == 0 {
                count - 1
            } else {
                current - 1
            }
        } else if current + 1 == count {
            0
        } else {
            current + 1
        };
        proof {
            let c = current as int;
            let n = count as int;
            if direction < 0 {
                if c == 0 {
                    assert((c + n - 1) % n == n - 1) by (nonlinear_arith)
                        requires
                            c == 0,
                            n >= 1,
                    ;
                } else {
                    assert((c + n - 1) % n == c - 1) by (nonlinear_arith)
                        requires
                            1 <= c < n,
                    ;
                }
            } else {
                if c + 1 == n {
                    assert((c + 1) % n == 0) by (nonlinear_arith)
                        requires
                            0 <= c,
                            c + 1 == n,
                    ;
                } else {
                    assert((c + 1) % n == c + 1) by (nonlinear_arith)
                        requires
                            0 <= c,
                            c + 1 < n,
                    ;
                }
            }
        }
        self.selected = Some(patterns[next]);
        proof {
            assert(self@ =~= (LiveState {
                selected: browsed(song.numbers(), old(self)@.selected, direction),
                ..old(self)@
            }));
        }
    }

    /// The group of up to four Patterns that holds the selection.
    pub fn group(&self, song: &Song) -> (group: Vec<u16>)
        ensures
            group@ == spec_group(song.numbers(), self@.selected),
    {
        let patterns = song.pattern_numbers();
        let selected = match self.selected {
            Some(s) => s,
            None => 0,
        };
        let index = match position(&patterns, selected) {
            Some(i) => i,
            None => 0,
        };
        proof {
            lemma_first_position_bounds(patterns@, selected, patterns@.len() as int);
        }
        let start = index / 4 * 4;
        let mut group: Vec<u16> = Vec::new();
        let mut i = start;
        while i < patterns.len() && i - start < 4
            invariant
                start <= i,
                start <= patterns@.len() ==> i <= patterns@.len(),
                i <= start + 4,
                start >= patterns@.len() ==> i == start,
                start < patterns@.len() ==> group@ == patterns@.subrange(start as int, i as int),
                start >= patterns@.len() ==> group@.len() == 0,
            decreases start + 4 - i,
        {
            group.push(patterns[i]);
            i += 1;
            assert(group@ =~= patterns@.subrange(start as int, i as int));
        }
        proof {
            assert(group@ =~= spec_group(song.numbers(), self@.selected));
        }
        group
    }
}

/// The Arrangement after committing `launches` to `order`, or the refusal.
pub open spec fn committed_order(order: Seq<u16>, launches: Seq<u16>, commit: CaptureCommit) -> Result<
    Seq<u16>,
    LiveError,
> {
    match commit {
        CaptureCommit::Append => if order.len() + launches.len() > MAX_ARRANGEMENT_STEPS {
            Err(LiveError::ArrangementTooLong)
        } else {
            Ok(order + launches)
        },
        CaptureCommit::Replace => if launches.len() == 0 {
            Err(LiveError::EmptyReplace)
        } else {
            Ok(launches)
        },
    }
}

impl LivePatternPerformance {
    /// Queue the selected Pattern at the current quantization.
    pub fn queue_selected(&mut self) -> (result: Result<QueuedPattern, LiveError>)
        ensures
            match old(self)@.selected {
                Some(pattern) => {
                    let queued = QueuedPattern {
                        pattern,
                        quantization: old(self)@.quantization,
                        retrigger: false,
                    };
                    &&& result == Ok::<QueuedPattern, LiveError>(queued)
                    &&& final(self)@ == (LiveState { queued: Some(queued), ..old(self)@ })
                },
                None => result == Err::<QueuedPattern, LiveError>(LiveError::NoSelection) && final(self)@
                    == old(self)@,
            },
    {
        let pattern = match self.selected {
            Some(pattern) => pattern,
            None => return Err(LiveError::NoSelection),
        };
        let queued = QueuedPattern { pattern, quantization: self.quantization, retrigger: false };
        self.queued = Some(queued);
        proof {
            assert(self@ =~= (LiveState { queued: Some(queued), ..old(self)@ }));
        }
        Ok(queued)
    }

    /// Queue a restart of the playing Pattern at the current quantization.
    pub fn queue_retrigger(&mut self) -> (result: Result<QueuedPattern, LiveError>)
        ensures
            match old(self)@.current {
                Some(pattern) => {
                    let queued = QueuedPattern {
                        pattern,
                        quantization: old(self)@.quantization,
                        retrigger: true,
                    };
                    &&& result == Ok::<QueuedPattern, LiveError>(queued)
                    &&& final(self)@ == (LiveState { queued: Some(queued), ..old(self)@ })
                },
                None => result == Err::<QueuedPattern, LiveError>(LiveError::NotPlaying) && final(self)@
                    == old(self)@,
            },
    {
        let pattern = match self.current {
            Some(pattern) => pattern,
            None => return Err(LiveError::NotPlaying),
        };
        let queued = QueuedPattern { pattern, quantization: self.quantization, retrigger: true };
        self.queued = Some(queued);
        proof {
            assert(self@ =~= (LiveState { queued: Some(queued), ..old(self)@ }));
        }
        Ok(queued)
    }

    /// Drop the queued launch; says whether there was one.
    pub fn cancel_queue(&mut self) -> (cancelled: bool)
        ensures
            cancelled == old(self)@.queued is Some,
            final(self)@ == (LiveState { queued: None, ..old(self)@ }),
    {
        let cancelled = self.queued.is_some();
        self.queued = None;
        proof {
            assert(self@ =~= (LiveState { queued: None, ..old(self)@ }));
        }
        cancelled
    }

    /// Commit only after the sequencer has validated the target and reached
    /// the requested boundary. A recording capture records the launch.
    pub fn activate(&mut self, pattern: u16, retrigger: bool) -> (activated: ActivatedPattern)
        ensures
            ({
                let serial = if old(self)@.activation_serial == u64::MAX {
                    0
                } else {
                    (old(self)@.activation_serial + 1) as u64
                };
                &&& activated == ActivatedPattern { serial, pattern, retrigger }
                &&& final(self)@ == (LiveState {
                    current: Some(pattern),
                    queued: None,
                    activation_serial: serial,
                    capture: match old(self)@.capture {
                        CaptureModel::Recording(launches) => CaptureModel::Recording(launches.push(pattern)),
                        other => other,
                    },
                    ..old(self)@
                })
            }),
    {
        self.current = Some(pattern);
        self.queued = None;
        self.activation_serial = self.activation_serial.wrapping_add(1);
        let mut capture = CaptureState::Off;
        std::mem::swap(&mut capture, &mut self.capture);
        if let CaptureState::Recording(mut launches) = capture {
            launches.push(pattern);
            self.capture = CaptureState::Recording(launches);
        } else {
            self.capture = capture;
        }
        let activated = ActivatedPattern { serial: self.activation_serial, pattern, retrigger };
        proof {
            assert(self@.shapes =~= old(self)@.shapes);
        }
        activated
    }

    /// The queued launch could not take effect.
    pub fn fail_queued(&mut self)
        ensures
            final(self)@ == (LiveState { queued: None, ..old(self)@ }),
    {
        self.queued = None;
        proof {
            assert(self@ =~= (LiveState { queued: None, ..old(self)@ }));
        }
    }

    /// Start recording launches, forgetting an earlier capture.
    pub fn start_capture(&mut self)
        ensures
            final(self)@ == (LiveState { capture: CaptureModel::Recording(Seq::empty()), ..old(self)@ }),
    {
        self.capture = CaptureState::Recording(Vec::new());
        proof {
            assert(self@ =~= (LiveState { capture: CaptureModel::Recording(Seq::empty()), ..old(self)@ }));
        }
    }

    /// Stop recording and wait for the capture to be confirmed.
    pub fn request_capture_commit(&mut self) -> (result: Result<(), LiveError>)
        ensures
            match old(self)@.capture {
                CaptureModel::Recording(launches) => result is Ok && final(self)@ == (LiveState {
                    capture: CaptureModel::Confirm(launches),
                    ..old(self)@
                }),
                _ => result == Err::<(), LiveError>(LiveError::NotRecording) && final(self)@ == old(self)@,
            },
    {
        let launches = match &self.capture {
            CaptureState::Recording(launches) => copy_numbers(launches),
            _ => return Err(LiveError::NotRecording),
        };
        self.capture = CaptureState::Confirm(launches);
        proof {
            assert(self@.shapes =~= old(self)@.shapes);
        }
        Ok(())
    }

    /// Abandon the capture.
    pub fn cancel_capture(&mut self)
        ensures
            final(self)@ == (LiveState { capture: CaptureModel::Off, ..old(self)@ }),
    {
        self.capture = CaptureState::Off;
        proof {
            assert(self@ =~= (LiveState { capture: CaptureModel::Off, ..old(self)@ }));
        }
    }

    pub fn capture(&self) -> (capture: &CaptureState)
        ensures
            capture@ == self@.capture,
    {
        &self.capture
    }

    /// Write the confirmed capture into the Song's Arrangement and return
    /// the number of launches; the Song's Patterns are never copied.
    pub fn confirm_capture(&mut self, song: &mut Song, commit: CaptureCommit) -> (result: Result<
        usize,
        LiveError,
    >)
        ensures
            final(song).patterns@ == old(song).patterns@,
            final(song).gate_percent == old(song).gate_percent,
            match old(self)@.capture {
                CaptureModel::Confirm(launches) => if exists|i: int|
                    0 <= i < launches.len() && !old(song).has_pattern(#[trigger] launches[i]) {
                    &&& result == Err::<usize, LiveError>(LiveError::CapturedPatternGone)
                    &&& final(self)@ == old(self)@
                    &&& final(song).order@ == old(song).order@
                } else {
                    match committed_order(old(song).order@, launches, commit) {
                        Ok(order) => {
                            &&& result matches Ok(count) && count == launches.len()
                            &&& final(song).order@ == order
                            &&& final(self)@ == (LiveState { capture: CaptureModel::Off, ..old(self)@ })
                        },
                        Err(error) => {
                            &&& result == Err::<usize, LiveError>(error)
                            &&& final(self)@ == old(self)@
                            &&& final(song).order@ == old(song).order@
                        },
                    }
                },
                _ => {
                    &&& result == Err::<usize, LiveError>(LiveError::NotConfirming)
                    &&& final(self)@ == old(self)@
                    &&& final(song).order@ == old(song).order@
                },
            },
    {
        let launches = match &self.capture {
            CaptureState::Confirm(launches) => launches,
            _ => return Err(LiveError::NotConfirming),
        };
        let mut i: usize = 0;
        while i < launches.len()
            invariant
                i <= launches@.len(),
                forall|k: int| 0 <= k < i ==> song.has_pattern(#[trigger] launches@[k]),
                old(self)@.capture == CaptureModel::Confirm(launches@),
                *self == *old(self),
                *song == *old(song),
            decreases launches@.len() - i,
        {
            if !song.contains_pattern(launches[i]) {
                assert(!song.has_pattern(launches@[i as int]));
                return Err(LiveError::CapturedPatternGone);
            }
            i += 1;
        }
        let count = launches.len();
        match commit {
            CaptureCommit::Append => {
                if song.order.len() > MAX_ARRANGEMENT_STEPS || count > MAX_ARRANGEMENT_STEPS - song.order.len() {
                    return Err(LiveError::ArrangementTooLong);
                }
                let mut k: usize = 0;
                while k < count
                    invariant
                        k <= count == launches@.len(),
                        song.order@ == old(song).order@ + launches@.subrange(0, k as int),
                        song.patterns@ == old(song).patterns@,
                        song.gate_percent == old(song).gate_percent,
                    decreases count - k,
                {
                    song.order.push(launches[k]);
                    k += 1;
                    assert(song.order@ =~= old(song).order@ + launches@.subrange(0, k as int));
                }
                assert(launches@.subrange(0, count as int) =~= launches@);
            },
            CaptureCommit::Replace => {
                if count == 0 {
                    return Err(LiveError::EmptyReplace);
                }
                song.order = copy_numbers(launches);
            },
        }
        self.capture = CaptureState::Off;
        proof {
            assert(self@ =~= (LiveState { capture: CaptureModel::Off, ..old(self)@ }));
        }
        Ok(count)
    }
}

/// An element-by-element copy.
fn copy_numbers(numbers: &Vec<u16>) -> (copy: Vec<u16>)
    ensures
        copy@ == numbers@,
{
    let mut copy: Vec<u16> = Vec::new();
    let mut i: usize = 0;
    while i < numbers.len()
        invariant
            i <= numbers@.len(),
            copy@ == numbers@.subrange(0, i as int),
        decreases numbers@.len() - i,
    {
        copy.push(numbers[i]);
        i += 1;
        assert(copy@ =~= numbers@.subrange(0, i as int));
    }
    assert(copy@ =~= numbers@);
    copy
}

/// A cell as it plays under `shape`: a note-on is transposed and gets a
/// scaled velocity and gate; other cells are untouched.
pub open spec fn shaped_cell(cell: Cell, page_velocity: u8, inherited_gate: u8, shape: LaneShape) -> Cell {
    match cell.note {
        Note::On(note) => Cell {
            note: Note::On(transposed_note(note, shape.transpose) as u8),
            velocity: Some(
                scaled_velocity(
                    match cell.velocity {
                        Some(v) => v,
                        None => page_velocity,
                    },
                    shape.velocity_percent,
                ) as u8,
            ),
            gate: Some(
                scaled_gate(
                    match cell.gate {
                        Some(g) => g,
                        None => inherited_gate,
                    },
                    shape.gate_percent,
                ) as u8,
            ),
            ..cell
        },
        _ => cell,
    }
}

fn apply_shape(cell: Cell, page_velocity: u8, inherited_gate: u8, shape: LaneShape) -> (shaped: Cell)
    ensures
        shaped == shaped_cell(cell, page_velocity, inherited_gate, shape),
{
    match cell.note {
        Note::On(note) => {
            let velocity = match cell.velocity {
                Some(v) => v,
                None => page_velocity,
            };
            let gate = match cell.gate {
                Some(g) => g,
                None => inherited_gate,
            };
            Cell {
                note: Note::On(shape.note(note)),
                velocity: Some(shape.velocity(velocity)),
                gate: Some(shape.gate(gate)),
                ..cell
            }
        },
        _ => cell,
    }
}

impl LivePatternPerformance {
    /// The lane shapes of one page of one Pattern.
    pub fn shapes(&self, pattern: u16, page: usize) -> (shapes: [LaneShape; LANES_PER_PAGE])
        ensures
            shapes@ == self@.shapes[(pattern, page)],
    {
        match self.find_entry(pattern, page) {
            Some(i) => self.lane_shapes[i].shapes,
            None => {
                let shapes = [LaneShape::default();LANES_PER_PAGE];
                assert(shapes@ =~= neutral_shapes());
                shapes
            },
        }
    }

    fn find_entry(&self, pattern: u16, page: usize) -> (found: Option<usize>)
        ensures
            match found {
                Some(i) => entry_index(self.lane_shapes@, pattern, page, self.lane_shapes@.len() as int) == Some(
                    i as int,
                ) && i < self.lane_shapes@.len(),
                None => entry_index(self.lane_shapes@, pattern, page, self.lane_shapes@.len() as int) is None,
            },
    {
        let mut i: usize = 0;
        while i < self.lane_shapes.len()
            invariant
                i <= self.lane_shapes@.len(),
                entry_index(self.lane_shapes@, pattern, page, i as int) is None,
            decreases self.lane_shapes@.len() - i,
        {
            if self.lane_shapes[i].pattern == pattern && self.lane_shapes[i].page == page {
                proof {
                    lemma_entry_index_stable(self.lane_shapes@, pattern, page, i + 1, self.lane_shapes@.len() as int);
                }
                return Some(i);
            }
            i += 1;
        }
        None
    }

    /// The shape of one lane (the last lane for a larger index), for editing;
    /// it stays with this screen and never reaches the Song.
    pub fn shape_mut(&mut self, pattern: u16, page: usize, lane: usize) -> (shape: &mut LaneShape)
        ensures
            ({
                let l = if lane < LANES_PER_PAGE {
                    lane as int
                } else {
                    LANES_PER_PAGE - 1
                };
                &&& *shape == old(self)@.shapes[(pattern, page)][l]
                &&& final(self)@ == (LiveState {
                    shapes: old(self)@.shapes.insert(
                        (pattern, page),
                        old(self)@.shapes[(pattern, page)].update(l, *final(shape)),
                    ),
                    ..old(self)@
                })
            }),
    {
        let l: usize = if lane < LANES_PER_PAGE {
            lane
        } else {
            LANES_PER_PAGE - 1
        };
        let index = match self.find_entry(pattern, page) {
            Some(i) => i,
            None => {
                let entry = ShapeEntry { pattern, page, shapes: [LaneShape::default();LANES_PER_PAGE] };
                proof {
                    assert(entry.shapes@ =~= neutral_shapes());
                    lemma_push_neutral(self.lane_shapes@, entry);
                }
                self.lane_shapes.push(entry);
                self.lane_shapes.len() - 1
            },
        };
        proof {
            assert(self@.shapes =~= old(self)@.shapes);
            lemma_entry_index_bounds(self.lane_shapes@, pattern, page, self.lane_shapes@.len() as int);
            lemma_update_shapes(self.lane_shapes@, index as int);
        }
        &mut self.lane_shapes[index].shapes[l]
    }
}

/// Whether a lane of a shaped page plays: it did, and its shape is not muted.
pub open spec fn shaped_lane_enabled(page: Page, shapes: Seq<LaneShape>, lane: int) -> bool {
    page.lanes@[lane].enabled && !shapes[lane].muted
}

fn shaped_page(page: &Page, shapes: &[LaneShape; LANES_PER_PAGE]) -> (shaped: Page)
    ensures
        shaped.name@ == page.name@,
        shaped.channel == page.channel,
        shaped.percussion == page.percussion,
        shaped.velocity == page.velocity,
        forall|lane: int|
            0 <= lane < LANES_PER_PAGE ==> #[trigger] shaped.lanes@[lane].enabled == shaped_lane_enabled(
                *page,
                shapes@,
                lane,
            ),
{
    let lanes = [
        Lane { enabled: page.lanes[0].enabled && !shapes[0].muted },
        Lane { enabled: page.lanes[1].enabled && !shapes[1].muted },
        Lane { enabled: page.lanes[2].enabled && !shapes[2].muted },
        Lane { enabled: page.lanes[3].enabled && !shapes[3].muted },
    ];
    let shaped = Page {
        name: page.name.clone(),
        channel: page.channel,
        percussion: page.percussion,
        velocity: page.velocity,
        lanes,
    };
    assert forall|lane: int| 0 <= lane < LANES_PER_PAGE implies #[trigger] shaped.lanes@[lane].enabled
        == shaped_lane_enabled(*page, shapes@, lane) by {
        if lane == 0 {
        } else if lane == 1 {
        } else if lane == 2 {
        } else {
            assert(lane == 3);
        }
    }
    shaped
}

/// The cell at place `cell` of a row of `pattern` as it plays under `live`.
pub open spec fn shaped_place(
    live: LiveState,
    pattern_number: u16,
    pattern: &Pattern,
    inherited_gate: u8,
    cell: Cell,
    place: int,
) -> Cell {
    let page = place / (LANES_PER_PAGE as int);
    if page < pattern.pages@.len() {
        shaped_cell(
            cell,
            pattern.pages@[page].velocity,
            inherited_gate,
            live.shapes[(pattern_number, page as usize)][place % (LANES_PER_PAGE as int)],
        )
    } else {
        cell
    }
}

impl LivePatternPerformance {
    /// A copy of `pattern` as it plays under the current lane shapes: muted
    /// lanes are disabled, note-ons transposed and their velocity and gate
    /// scaled. The Pattern itself is untouched.
    pub fn shaped_pattern(&self, pattern_number: u16, pattern: &Pattern, inherited_gate: u8) -> (shaped:
        Pattern)
        ensures
            shaped.tempo == pattern.tempo,
            shaped.steps_per_beat == pattern.steps_per_beat,
            shaped.swing_division == pattern.swing_division,
            shaped.pages@.len() == pattern.pages@.len(),
            forall|page: int|
                #![trigger shaped.pages@[page]]
                0 <= page < pattern.pages@.len() ==> {
                    &&& shaped.pages@[page].name@ == pattern.pages@[page].name@
                    &&& shaped.pages@[page].channel == pattern.pages@[page].channel
                    &&& shaped.pages@[page].percussion == pattern.pages@[page].percussion
                    &&& shaped.pages@[page].velocity == pattern.pages@[page].velocity
                    &&& forall|lane: int|
                        0 <= lane < LANES_PER_PAGE ==> #[trigger] shaped.pages@[page].lanes@[lane].enabled
                            == shaped_lane_enabled(
                            pattern.pages@[page],
                            self@.shapes[(pattern_number, page as usize)],
                            lane,
                        )
                },
            shaped.rows@.len() == pattern.rows@.len(),
            pattern.well_formed() ==> shaped.well_formed(),
            forall|row: int|
                0 <= row < pattern.rows@.len() ==> #[trigger] shaped.grid()[row].len() == pattern.grid()[row].len(),
            forall|row: int, place: int|
                0 <= row < pattern.rows@.len() && 0 <= place < pattern.grid()[row].len()
                    ==> #[trigger] shaped.grid()[row][place] == shaped_place(
                    self@,
                    pattern_number,
                    pattern,
                    inherited_gate,
                    pattern.grid()[row][place],
                    place,
                ),
    {
        let page_count = pattern.pages.len();
        let mut page_shapes: Vec<[LaneShape; LANES_PER_PAGE]> = Vec::new();
        let mut pages: Vec<Page> = Vec::new();
        let mut p: usize = 0;
        while p < page_count
            invariant
                p <= page_count == pattern.pages@.len(),
                page_shapes@.len() == p,
                pages@.len() == p,
                forall|k: int| 0 <= k < p ==> (#[trigger] page_shapes@[k])@ == self@.shapes[(pattern_number, k as usize)],
                forall|k: int|
                    #![trigger pages@[k]]
                    0 <= k < p ==> {
                        &&& pages@[k].name@ == pattern.pages@[k].name@
                        &&& pages@[k].channel == pattern.pages@[k].channel
                        &&& pages@[k].percussion == pattern.pages@[k].percussion
                        &&& pages@[k].velocity == pattern.pages@[k].velocity
                        &&& forall|lane: int|
                            0 <= lane < LANES_PER_PAGE ==> #[trigger] pages@[k].lanes@[lane].enabled
                                == shaped_lane_enabled(
                                pattern.pages@[k],
                                self@.shapes[(pattern_number, k as usize)],
                                lane,
                            )
                    },
            decreases page_count - p,
        {
            let shapes = self.shapes(pattern_number, p);
            pages.push(shaped_page(&pattern.pages[p], &shapes));
            page_shapes.push(shapes);
            p += 1;
        }
        let mut rows: Vec<Vec<Cell>> = Vec::new();
        let mut r: usize = 0;
        while r < pattern.rows.len()
            invariant
                r <= pattern.rows@.len(),
                rows@.len() == r,
                page_count == pattern.pages@.len(),
                page_shapes@.len() == page_count,
                forall|k: int| 0 <= k < page_count ==> (#[trigger] page_shapes@[k])@ == self@.shapes[(pattern_number, k as usize)],
                forall|k: int| 0 <= k < r ==> (#[trigger] rows@[k])@.len() == pattern.rows@[k]@.len(),
                forall|k: int, place: int|
                    0 <= k < r && 0 <= place < pattern.rows@[k]@.len() ==> #[trigger] rows@[k]@[place]
                        == shaped_place(
                        self@,
                        pattern_number,
                        pattern,
                        inherited_gate,
                        pattern.rows@[k]@[place],
                        place,
                    ),
            decreases pattern.rows@.len() - r,
        {
            let source = &pattern.rows[r];
            let mut row: Vec<Cell> = Vec::new();
            let mut c: usize = 0;
            while c < source.len()
                invariant
                    c <= source@.len(),
                    source@ == pattern.rows@[r as int]@,
                    row@.len() == c,
                    page_count == pattern.pages@.len(),
                    page_shapes@.len() == page_count,
                    forall|k: int| 0 <= k < page_count ==> (#[trigger] page_shapes@[k])@ == self@.shapes[(pattern_number, k as usize)],
                    forall|place: int|
                        0 <= place < c ==> #[trigger] row@[place] == shaped_place(
                            self@,
                            pattern_number,
                            pattern,
                            inherited_gate,
                            source@[place],
                            place,
                        ),
                decreases source@.len() - c,
            {
                let page = c / LANES_PER_PAGE;
                let cell = if page < page_count {
                    let shapes = page_shapes[page];
                    apply_shape(source[c], pattern.pages[page].velocity, inherited_gate, shapes[c % LANES_PER_PAGE])
                } else {
                    source[c]
                };
                row.push(cell);
                c += 1;
            }
            rows.push(row);
            r += 1;
        }
        let shaped = Pattern {
            rows,
            pages,
            tempo: pattern.tempo,
            steps_per_beat: pattern.steps_per_beat,
            swing_division: pattern.swing_division,
        };
        proof {
            assert forall|row: int| 0 <= row < pattern.rows@.len() implies #[trigger] shaped.grid()[row].len()
                == pattern.grid()[row].len() by {
                assert(shaped.grid()[row] == shaped.rows@[row]@);
                assert(pattern.grid()[row] == pattern.rows@[row]@);
            }
            assert forall|row: int, place: int|
                0 <= row < pattern.rows@.len() && 0 <= place < pattern.grid()[row].len()
                    implies #[trigger] shaped.grid()[row][place] == shaped_place(
                    self@,
                    pattern_number,
                    pattern,
                    inherited_gate,
                    pattern.grid()[row][place],
                    place,
                ) by {
                assert(shaped.grid()[row] == shaped.rows@[row]@);
                assert(pattern.grid()[row] == pattern.rows@[row]@);
            }
            if pattern.well_formed() {
                assert forall|row: int, lane: int|
                    0 <= row < shaped.rows@.len() && 0 <= lane < shaped.width() implies #[trigger] midi_cell(
                    shaped.rows@[row]@[lane],
                ) by {
                    assert(midi_cell(pattern.rows@[row]@[lane]));
                    assert(shaped.rows@[row]@[lane] == shaped_place(
                        self@,
                        pattern_number,
                        pattern,
                        inherited_gate,
                        pattern.rows@[row]@[lane],
                        lane,
                    ));
                }
                assert forall|page: int| 0 <= page < shaped.pages@.len() implies #[trigger] shaped.pages@[page].velocity
                    <= 127 by {
                    assert(pattern.pages@[page].velocity <= 127);
                }
            }
        }
        shaped
    }
}

} // verus!
