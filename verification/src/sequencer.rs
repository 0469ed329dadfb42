use vstd::prelude::*;

use crate::tempo::Bpm;

verus! {

/// Tracker lanes on one Pattern page.
pub const LANES_PER_PAGE: usize = 4;

/// Largest number of pages a Pattern holds.
pub const MAX_PAGES: usize = 16;

/// Largest number of rows a Pattern holds.
pub const MAX_ROWS: usize = 4096;

/// The note column of one tracker cell.
#[derive(Clone, Copy, Debug, PartialEq, Eq, Structural)]
pub enum Note {
    Empty,
    On(u8),
    Off,
}

/// The effect command column of one tracker cell.
#[derive(Clone, Copy, Debug, PartialEq, Eq, Structural)]
pub enum Command {
    Empty,
    Retrigger(u8),
    Tempo(Bpm),
}

/// When a cell plays.
#[derive(Clone, Copy, Debug, PartialEq, Eq, Structural)]
pub enum StepCondition {
    Always,
    Fill,
    Previous,
}

/// One tracker cell.
#[derive(Clone, Copy, Debug, PartialEq, Eq, Structural)]
pub struct Cell {
    pub note: Note,
    pub velocity: Option<u8>,
    pub program: Option<u8>,
    pub gate: Option<u8>,
    pub command: Command,
    pub nudge: i8,
    pub probability: u8,
    pub condition: StepCondition,
}

/// Notes and velocities of the cell are MIDI values.
pub open spec fn midi_cell(cell: Cell) -> bool {
    &&& (cell.note matches Note::On(n) ==> n <= 127)
    &&& (cell.velocity matches Some(v) ==> v <= 127)
}

/// The cell that an untouched tracker position holds.
pub open spec fn empty_cell() -> Cell {
    Cell {
        note: Note::Empty,
        velocity: None,
        program: None,
        gate: None,
        command: Command::Empty,
        nudge: 0,
        probability: 100,
        condition: StepCondition::Always,
    }
}

impl Cell {
    pub fn empty() -> (cell: Cell)
        ensures
            cell == empty_cell(),
    {
        Cell {
            note: Note::Empty,
            velocity: None,
            program: None,
            gate: None,
            command: Command::Empty,
            nudge: 0,
            probability: 100,
            condition: StepCondition::Always,
        }
    }

    /// Whether two cells hold the same values in every column.
    pub fn same_as(&self, other: &Cell) -> (same: bool)
        ensures
            same == (*self == *other),
    {
        self.note == other.note && self.velocity == other.velocity && self.program
            == other.program && self.gate == other.gate && self.command == other.command
            && self.nudge == other.nudge && self.probability == other.probability
            && self.condition == other.condition
    }
}

impl Default for Cell {
    fn default() -> (cell: Cell)
        ensures
            cell == empty_cell(),
    {
        Cell::empty()
    }
}

/// Playback switch of one tracker lane.
#[derive(Clone, Copy, Debug, PartialEq, Eq, Structural)]
pub struct Lane {
    pub enabled: bool,
}

/// Swing grid of a Pattern.
#[derive(Clone, Copy, Debug, PartialEq, Eq, Structural)]
pub enum SwingDivision {
    Sixteenth,
    Eighth,
}

/// One page of four routed lanes.
#[derive(Debug, PartialEq, Eq)]
pub struct Page {
    pub name: String,
    pub channel: u8,
    pub percussion: bool,
    /// Velocity that cells without their own velocity inherit.
    pub velocity: u8,
    pub lanes: [Lane; LANES_PER_PAGE],
}

impl Page {
    pub fn new(name: &str, channel: u8, percussion: bool) -> (page: Page)
        ensures
            page.name@ == name@,
            page.channel == channel,
            page.percussion == percussion,
            page.velocity == 100,
            forall|lane: int| 0 <= lane < LANES_PER_PAGE ==> #[trigger] page.lanes[lane].enabled,
    {
        Page {
            name: String::from_str(name),
            channel,
            percussion,
            velocity: 100,
            lanes: [Lane { enabled: true }; LANES_PER_PAGE],
        }
    }
}

impl Clone for Page {
    fn clone(&self) -> (page: Page)
        ensures
            page == *self,
    {
        Page {
            name: self.name.clone(),
            channel: self.channel,
            percussion: self.percussion,
            velocity: self.velocity,
            lanes: self.lanes,
        }
    }
}

/// A tracker Pattern: `rows[row][page * LANES_PER_PAGE + lane]`.
#[derive(Debug, PartialEq, Eq)]
pub struct Pattern {
    pub rows: Vec<Vec<Cell>>,
    pub pages: Vec<Page>,
    pub tempo: Bpm,
    pub steps_per_beat: u8,
    pub swing_division: SwingDivision,
}

impl Pattern {
    /// The cells as a grid of rows.
    pub open spec fn grid(&self) -> Seq<Seq<Cell>> {
        self.rows@.map_values(|row: Vec<Cell>| row@)
    }

    /// Cells in one row: one for each lane of each page.
    pub open spec fn width(&self) -> nat {
        self.pages@.len() * (LANES_PER_PAGE as nat)
    }

    /// Every row holds one cell for each lane of each page, and every note
    /// and velocity is a MIDI value.
    pub open spec fn well_formed(&self) -> bool {
        &&& 1 <= self.pages@.len() <= MAX_PAGES
        &&& self.rows@.len() <= MAX_ROWS
        &&& forall|row: int| 0 <= row < self.rows@.len() ==> #[trigger] self.rows@[row]@.len() == self.width()
        &&& forall|row: int, lane: int|
            0 <= row < self.rows@.len() && 0 <= lane < self.width() ==> #[trigger] midi_cell(self.rows@[row]@[lane])
        &&& forall|page: int| 0 <= page < self.pages@.len() ==> #[trigger] self.pages@[page].velocity <= 127
    }

    /// An empty Pattern with the given number of rows and pages.
    pub fn new(rows: usize, tempo: Bpm, steps_per_beat: u8, pages: Vec<Page>) -> (pattern: Pattern)
        requires
            1 <= pages@.len() <= MAX_PAGES,
            rows <= MAX_ROWS,
            forall|page: int| 0 <= page < pages@.len() ==> #[trigger] pages@[page].velocity <= 127,
        ensures
            pattern.well_formed(),
            pattern.rows@.len() == rows,
            pattern.pages@ == pages@,
            pattern.tempo == tempo,
            pattern.steps_per_beat == steps_per_beat,
            pattern.swing_division == SwingDivision::Sixteenth,
            forall|row: int, cell: int|
                0 <= row < rows && 0 <= cell < pattern.width() ==> #[trigger] pattern.grid()[row][cell]
                    == empty_cell(),
    {
        let width = pages.len() * LANES_PER_PAGE;
        let mut grid: Vec<Vec<Cell>> = Vec::new();
        let mut r: usize = 0;
        while r < rows
            invariant
                r <= rows,
                grid@.len() == r,
                forall|i: int| 0 <= i < r ==> #[trigger] grid@[i]@ == Seq::new(width as nat, |c: int| empty_cell()),
            decreases rows - r,
        {
            let mut row: Vec<Cell> = Vec::new();
            let mut c: usize = 0;
            while c < width
                invariant
                    c <= width,
                    row@ == Seq::new(c as nat, |k: int| empty_cell()),
                decreases width - c,
            {
                row.push(Cell::empty());
                c += 1;
                assert(row@ =~= Seq::new(c as nat, |k: int| empty_cell()));
            }
            grid.push(row);
            r += 1;
        }
        let pattern = Pattern {
            rows: grid,
            pages,
            tempo,
            steps_per_beat,
            swing_division: SwingDivision::Sixteenth,
        };
        proof {
            assert forall|row: int, cell: int|
                0 <= row < rows && 0 <= cell < pattern.width() implies #[trigger] pattern.grid()[row][cell]
                    == empty_cell() by {
                assert(pattern.grid()[row] == pattern.rows@[row]@);
            }
        }
        pattern
    }
}

/// An element-by-element copy of a row.
pub fn copy_row(row: &Vec<Cell>) -> (copy: Vec<Cell>)
    ensures
        copy@ == row@,
{
    let mut copy: Vec<Cell> = Vec::new();
    let mut i: usize = 0;
    while i < row.len()
        invariant
            i <= row@.len(),
            copy@ == row@.subrange(0, i as int),
        decreases row@.len() - i,
    {
        copy.push(row[i]);
        i += 1;
        assert(copy@ =~= row@.subrange(0, i as int));
    }
    assert(copy@ =~= row@);
    copy
}

impl Clone for Pattern {
    fn clone(&self) -> (pattern: Pattern)
        ensures
            pattern.grid() == self.grid(),
            pattern.rows@.len() == self.rows@.len(),
            pattern.pages@ == self.pages@,
            pattern.tempo == self.tempo,
            pattern.steps_per_beat == self.steps_per_beat,
            pattern.swing_division == self.swing_division,
    {
        let mut rows: Vec<Vec<Cell>> = Vec::new();
        let mut i: usize = 0;
        while i < self.rows.len()
            invariant
                i <= self.rows@.len(),
                rows@.len() == i,
                forall|k: int| 0 <= k < i ==> #[trigger] rows@[k]@ == self.rows@[k]@,
            decreases self.rows@.len() - i,
        {
            rows.push(copy_row(&self.rows[i]));
            i += 1;
        }
        let mut pages: Vec<Page> = Vec::new();
        let mut j: usize = 0;
        while j < self.pages.len()
            invariant
                j <= self.pages@.len(),
                pages@ == self.pages@.subrange(0, j as int),
            decreases self.pages@.len() - j,
        {
            pages.push(self.pages[j].clone());
            j += 1;
            assert(pages@ =~= self.pages@.subrange(0, j as int));
        }
        assert(pages@ =~= self.pages@);
        let pattern = Pattern {
            rows,
            pages,
            tempo: self.tempo,
            steps_per_beat: self.steps_per_beat,
            swing_division: self.swing_division,
        };
        assert(pattern.grid() =~= self.grid());
        pattern
    }
}

/// A Pattern together with its number in a Song.
#[derive(Debug)]
pub struct NumberedPattern {
    pub number: u16,
    pub pattern: Pattern,
}

/// Why a Song refused a change.
#[derive(Clone, Copy, Debug, PartialEq, Eq, Structural)]
pub enum SongError {
    /// The last Pattern already holds the largest Pattern number.
    NumbersExhausted,
}

impl SongError {
    pub open spec fn spec_message(self) -> Seq<char> {
        "no Pattern number is left"@
    }

    pub fn message(&self) -> (message: String)
        ensures
            message@ == self.spec_message(),
    {
        String::from_str("no Pattern number is left")
    }
}

/// Numbered Patterns in ascending order and the Arrangement that plays them.
#[derive(Debug)]
pub struct Song {
    pub patterns: Vec<NumberedPattern>,
    /// The Arrangement: Pattern numbers in playing order.
    pub order: Vec<u16>,
    /// Gate, in percent of a step, that cells without their own gate inherit.
    pub gate_percent: u8,
}

impl Song {
    /// Pattern numbers in ascending order.
    pub open spec fn numbers(&self) -> Seq<u16> {
        self.patterns@.map_values(|entry: NumberedPattern| entry.number)
    }

    /// Pattern numbers are strictly ascending, so none occurs twice.
    pub open spec fn well_formed(&self) -> bool {
        forall|i: int, j: int| 0 <= i < j < self.patterns@.len() ==> #[trigger] self.patterns@[i].number
            < #[trigger] self.patterns@[j].number
    }

    /// Whether the Song holds a Pattern with number `number`.
    pub open spec fn has_pattern(&self, number: u16) -> bool {
        exists|i: int| 0 <= i < self.patterns@.len() && #[trigger] self.patterns@[i].number == number
    }

    /// A Song of one Pattern, number 0, arranged once.
    pub fn new(first: Pattern, gate_percent: u8) -> (song: Song)
        ensures
            song.well_formed(),
            song.patterns@.len() == 1,
            song.patterns@[0].number == 0,
            song.patterns@[0].pattern == first,
            song.order@ == seq![0u16],
            song.gate_percent == gate_percent,
    {
        let mut patterns: Vec<NumberedPattern> = Vec::new();
        patterns.push(NumberedPattern { number: 0, pattern: first });
        let mut order: Vec<u16> = Vec::new();
        order.push(0);
        Song { patterns, order, gate_percent }
    }

    /// Whether the Song holds a Pattern with number `number`.
    pub fn contains_pattern(&self, number: u16) -> (found: bool)
        ensures
            found == self.has_pattern(number),
    {
        let mut i: usize = 0;
        while i < self.patterns.len()
            invariant
                i <= self.patterns@.len(),
                forall|k: int| 0 <= k < i ==> #[trigger] self.patterns@[k].number != number,
            decreases self.patterns@.len() - i,
        {
            if self.patterns[i].number == number {
                return true;
            }
            i += 1;
        }
        false
    }

    /// The Pattern numbers in ascending order.
    pub fn pattern_numbers(&self) -> (numbers: Vec<u16>)
        ensures
            numbers@ == self.numbers(),
    {
        let mut numbers: Vec<u16> = Vec::new();
        let mut i: usize = 0;
        while i < self.patterns.len()
            invariant
                i <= self.patterns@.len(),
                numbers@ == self.numbers().subrange(0, i as int),
            decreases self.patterns@.len() - i,
        {
            numbers.push(self.patterns[i].number);
            i += 1;
            assert(numbers@ =~= self.numbers().subrange(0, i as int));
        }
        assert(numbers@ =~= self.numbers());
        numbers
    }

    /// Add `pattern` under the number after the last one and return that
    /// number; the Arrangement is left as it is.
    pub fn append_pattern(&mut self, pattern: Pattern) -> (result: Result<u16, SongError>)
        requires
            old(self).well_formed(),
        ensures
            final(self).well_formed(),
            final(self).order@ == old(self).order@,
            final(self).gate_percent == old(self).gate_percent,
            match result {
                Ok(number) => {
                    &&& number == (if old(self).patterns@.len() == 0 {
                        0
                    } else {
                        old(self).patterns@.last().number + 1
                    })
                    &&& final(self).patterns@ == old(self).patterns@.push(
                        NumberedPattern { number, pattern },
                    )
                },
                Err(SongError::NumbersExhausted) => {
                    &&& old(self).patterns@.len() > 0
                    &&& old(self).patterns@.last().number == u16::MAX
                    &&& final(self).patterns@ == old(self).patterns@
                },
            },
    {
        let count = self.patterns.len();
        let number = if count == 0 {
            0
        } else {
            let last = self.patterns[count - 1].number;
            if last == u16::MAX {
                return Err(SongError::NumbersExhausted);
            }
            last + 1
        };
        self.patterns.push(NumberedPattern { number, pattern });
        Ok(number)
    }
}

/// How a loop's stored tempo is read.
#[derive(Clone, Copy, Debug, PartialEq, Eq, Structural)]
pub enum BpmInterpretation {
    Normal,
    Half,
    Double,
}

/// A Pattern's private reference to one WAV loop and how it plays.
#[derive(Clone, Debug, PartialEq, Eq)]
pub struct LoopSettings {
    pub file: String,
    pub source_bpm_x100: u32,
    pub interpretation: BpmInterpretation,
    pub start_beat: u32,
    pub length_beats: u32,
    pub offset_beats: i32,
    pub level_x1000: u16,
    pub filter_x1000: i16,
}

} // verus!
