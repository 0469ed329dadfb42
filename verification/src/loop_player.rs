//! Decisions of the JACK-synchronized FT2 WAV loop player: slot and rate
//! checks, the loop library listing, queued slot commands and the status a
//! slot reports. Decoding, the JACK client and the lock-free callback, which
//! are I/O and floating point, run outside this library.

use vstd::prelude::*;

use crate::midi_endpoint::{matching_index, matching_outcome, trim, trimmed, EndpointError};
use crate::sequencer::LoopSettings;
use crate::text::{push_decimal, spec_decimal};

verus! {

/// Loop slots owned by each FT2 Pattern.
pub const LOOP_SLOTS: usize = 4;

/// Decoding is bounded because the whole loop stays resident in memory for
/// the lock-free JACK callback: six million stereo frames use about 46 MiB
/// and cover 125 seconds at 48 kHz.
pub const MAX_DECODED_LOOP_FRAMES: u32 = 6_000_000;

/// A launch or stop of one loop slot.
#[derive(Clone, Copy, Debug, PartialEq, Eq, Structural)]
pub enum LoopCommand {
    Launch,
    Stop,
}

/// Why a loop request was refused.
#[derive(Clone, Copy, Debug, PartialEq, Eq, Structural)]
pub enum LoopError {
    SlotOutOfRange,
    SlotEmpty { slot: usize },
    TooManyFrames { frames: u32 },
    RateMismatch { source_rate: u32, jack_rate: u32 },
    DestinationCount,
    InvalidSettings,
}

impl LoopError {
    pub open spec fn spec_message(self) -> Seq<char> {
        match self {
            LoopError::SlotOutOfRange => "loop slot must be 1..=4"@,
            LoopError::SlotEmpty { slot } => "loop slot "@ + spec_decimal(slot as nat + 1) + " is empty"@,
            LoopError::TooManyFrames { frames } => "WAV has "@ + spec_decimal(frames as nat)
                + " frames; the safe loop limit is 6000000 frames"@,
            LoopError::RateMismatch { source_rate, jack_rate } => "WAV is "@ + spec_decimal(source_rate as nat)
                + " Hz but JACK is "@ + spec_decimal(jack_rate as nat) + " Hz; restart JACK at "@ + spec_decimal(
                source_rate as nat,
            ) + " Hz for native loop playback"@,
            LoopError::DestinationCount => "loop.output requires exactly two JACK destination ports"@,
            LoopError::InvalidSettings => "invalid private loop settings"@,
        }
    }

    pub fn message(&self) -> (message: String)
        requires
            self matches LoopError::SlotEmpty { slot } ==> slot < usize::MAX,
        ensures
            message@ == self.spec_message(),
    {
        let mut text = String::new();
        match *self {
            LoopError::SlotOutOfRange => text.append("loop slot must be 1..=4"),
            LoopError::SlotEmpty { slot } => {
                text.append("loop slot ");
                push_decimal(&mut text, slot + 1);
                text.append(" is empty");
            },
            LoopError::TooManyFrames { frames } => {
                text.append("WAV has ");
                push_decimal(&mut text, frames as usize);
                text.append(" frames; the safe loop limit is 6000000 frames");
            },
            LoopError::RateMismatch { source_rate, jack_rate } => {
                text.append("WAV is ");
                push_decimal(&mut text, source_rate as usize);
                text.append(" Hz but JACK is ");
                push_decimal(&mut text, jack_rate as usize);
                text.append(" Hz; restart JACK at ");
                push_decimal(&mut text, source_rate as usize);
                text.append(" Hz for native loop playback");
            },
            LoopError::DestinationCount => text.append("loop.output requires exactly two JACK destination ports"),
            LoopError::InvalidSettings => text.append("invalid private loop settings"),
        }
        proof {
            assert(text@ =~= self.spec_message());
        }
        text
    }
}

/// A slot number that names one of the four slots.
pub fn checked_slot(slot: usize) -> (result: Result<usize, LoopError>)
    ensures
        slot < LOOP_SLOTS ==> result == Ok::<usize, LoopError>(slot),
        slot >= LOOP_SLOTS ==> result == Err::<usize, LoopError>(LoopError::SlotOutOfRange),
{
    if slot >= LOOP_SLOTS {
        return Err(LoopError::SlotOutOfRange);
    }
    Ok(slot)
}

/// A WAV's frame count, refused above the resident-memory bound.
pub fn checked_loop_frames(frames: u32) -> (result: Result<usize, LoopError>)
    ensures
        frames <= MAX_DECODED_LOOP_FRAMES ==> result == Ok::<usize, LoopError>(frames as usize),
        frames > MAX_DECODED_LOOP_FRAMES ==> result == Err::<usize, LoopError>(
            LoopError::TooManyFrames { frames },
        ),
{
    if frames > MAX_DECODED_LOOP_FRAMES {
        return Err(LoopError::TooManyFrames { frames });
    }
    Ok(frames as usize)
}

/// Loops play only at their native rate: no resampling.
pub fn require_native_rate(source_rate: u32, jack_rate: u32) -> (result: Result<(), LoopError>)
    ensures
        source_rate == jack_rate ==> result is Ok,
        source_rate != jack_rate ==> result == Err::<(), LoopError>(
            LoopError::RateMismatch { source_rate, jack_rate },
        ),
{
    if source_rate != jack_rate {
        return Err(LoopError::RateMismatch { source_rate, jack_rate });
    }
    Ok(())
}

/// Whether stored loop settings lie within the ranges the player accepts.
pub open spec fn loop_settings_in_range(settings: LoopSettings) -> bool {
    &&& 2_000 <= settings.source_bpm_x100 <= 30_000
    &&& settings.length_beats != 0
    &&& -16_384 <= settings.offset_beats <= 16_384
    &&& settings.level_x1000 <= 1_500
    &&& -1_000 <= settings.filter_x1000 <= 1_000
}

/// Refuse loop settings outside the accepted ranges.
pub fn validate_loop_settings(settings: &LoopSettings) -> (result: Result<(), LoopError>)
    ensures
        loop_settings_in_range(*settings) ==> result is Ok,
        !loop_settings_in_range(*settings) ==> result == Err::<(), LoopError>(LoopError::InvalidSettings),
{
    if !(2_000 <= settings.source_bpm_x100 && settings.source_bpm_x100 <= 30_000) || settings.length_beats == 0
        || !(-16_384 <= settings.offset_beats && settings.offset_beats <= 16_384) || settings.level_x1000 > 1_500
        || !(-1_000 <= settings.filter_x1000 && settings.filter_x1000 <= 1_000) {
        return Err(LoopError::InvalidSettings);
    }
    Ok(())
}

/// Beats in `bars` bars of `meter` beats (a meter is held within 1..=16),
/// saturating at the largest count.
pub fn bar_to_beat(bars: u32, meter: u8) -> (beats: u32)
    ensures
        beats == (if bars * clamp_meter(meter) > u32::MAX {
            u32::MAX as int
        } else {
            bars * clamp_meter(meter)
        }),
{
    let held: u32 = if meter < 1 {
        1
    } else if meter > 16 {
        16
    } else {
        meter as u32
    };
    assert(bars as u64 * held as u64 <= 0xffff_ffff * 16) by (nonlinear_arith)
        requires
            held <= 16,
    ;
    let product: u64 = bars as u64 * held as u64;
    if product > u32::MAX as u64 {
        u32::MAX
    } else {
        product as u32
    }
}

/// A meter held within 1..=16 beats.
pub open spec fn clamp_meter(meter: u8) -> int {
    if meter < 1 {
        1
    } else if meter > 16 {
        16
    } else {
        meter as int
    }
}

/// Frames of the edge fade of a loop slice: five milliseconds at
/// `sample_rate`, rounded half up, at least one frame, and at most a quarter
/// of the slice (but at least one frame).
pub open spec fn spec_fade_frames(sample_rate: u32, slice_frames: usize) -> int {
    let five_ms = (sample_rate + 100) / 200;
    let wanted = if five_ms < 1 {
        1
    } else {
        five_ms
    };
    let quarter: int = if slice_frames / 4 < 1 {
        1
    } else {
        (slice_frames / 4) as int
    };
    if wanted < quarter {
        wanted
    } else {
        quarter
    }
}

/// An edge fade lasts five milliseconds: at least one frame, never more than
/// a quarter of the slice (or one frame), and, where neither bound cuts it,
/// the whole number of frames nearest to 5 ms at `sample_rate`.
pub proof fn lemma_fades_last_five_milliseconds(sample_rate: u32, slice_frames: usize)
    ensures
        1 <= spec_fade_frames(sample_rate, slice_frames),
        spec_fade_frames(sample_rate, slice_frames) <= (if slice_frames / 4 < 1 { 1 } else { slice_frames / 4 }),
        spec_fade_frames(sample_rate, slice_frames) < (if slice_frames / 4 < 1 { 1 } else { slice_frames / 4 })
            && sample_rate >= 100 ==> 200 * spec_fade_frames(sample_rate, slice_frames) - sample_rate <= 100
            && sample_rate - 200 * spec_fade_frames(sample_rate, slice_frames) < 100,
{
    let five_ms = (sample_rate + 100) / 200;
    assert(200 * five_ms <= sample_rate + 100 < 200 * five_ms + 200) by (nonlinear_arith)
        requires
            five_ms == (sample_rate + 100) / 200,
    ;
}

pub fn fade_frames(sample_rate: u32, slice_frames: usize) -> (frames: usize)
    ensures
        frames == spec_fade_frames(sample_rate, slice_frames),
        1 <= frames,
{
    let five_ms: u64 = (sample_rate as u64 + 100) / 200;
    let wanted: u64 = if five_ms < 1 {
        1
    } else {
        five_ms
    };
    let quarter: usize = if slice_frames / 4 < 1 {
        1
    } else {
        slice_frames / 4
    };
    if wanted < quarter as u64 {
        wanted as usize
    } else {
        quarter
    }
}

/// The code a slot's queued command is published as.
pub open spec fn spec_queued_code(command: Option<LoopCommand>) -> u8 {
    match command {
        None => 0,
        Some(LoopCommand::Launch) => 1,
        Some(LoopCommand::Stop) => 2,
    }
}

/// The queued command a published code stands for; unknown codes stand for none.
pub open spec fn spec_queued_command(code: u8) -> Option<LoopCommand> {
    if code == 1 {
        Some(LoopCommand::Launch)
    } else if code == 2 {
        Some(LoopCommand::Stop)
    } else {
        None
    }
}

pub fn queued_code(command: Option<LoopCommand>) -> (code: u8)
    ensures
        code == spec_queued_code(command),
{
    match command {
        None => 0,
        Some(LoopCommand::Launch) => 1,
        Some(LoopCommand::Stop) => 2,
    }
}

pub fn queued_command(code: u8) -> (command: Option<LoopCommand>)
    ensures
        command == spec_queued_command(code),
{
    if code == 1 {
        Some(LoopCommand::Launch)
    } else if code == 2 {
        Some(LoopCommand::Stop)
    } else {
        None
    }
}

/// Whether a slot runs after the callback takes its queued code: a launch
/// starts it, any other published command stops it, and no command leaves
/// it as it was.
pub fn apply_queued(code: u8, running: bool) -> (next: bool)
    ensures
        next == (if code != 0 {
            code == 1
        } else {
            running
        }),
        spec_queued_command(code) == Some(LoopCommand::Launch) ==> next,
        spec_queued_command(code) == Some(LoopCommand::Stop) ==> !next,
{
    if code != 0 {
        code == 1
    } else {
        running
    }
}

/// A queued command survives being published and read back.
pub proof fn lemma_queued_code_round_trip(command: Option<LoopCommand>)
    ensures
        spec_queued_command(spec_queued_code(command)) == command,
{
}

/// The two JACK output ports the loop client owns.
pub fn configured_output_ports(client_name: &str) -> (ports: [String; 2])
    ensures
        ports[0]@ == client_name@ + ":output_l"@,
        ports[1]@ == client_name@ + ":output_r"@,
{
    let mut left = String::from_str(client_name);
    left.append(":output_l");
    let mut right = String::from_str(client_name);
    right.append(":output_r");
    [left, right]
}

/// The left and right destinations of the loop output: exactly two ports.
pub fn loop_destinations(outputs: &[String]) -> (result: Result<[&str; 2], LoopError>)
    ensures
        outputs@.len() == 2 ==> (result matches Ok(destinations) && destinations[0]@ == outputs@[0]@
            && destinations[1]@ == outputs@[1]@),
        outputs@.len() != 2 ==> result == Err::<[&str; 2], LoopError>(LoopError::DestinationCount),
{
    if outputs.len() != 2 {
        return Err(LoopError::DestinationCount);
    }
    Ok([outputs[0].as_str(), outputs[1].as_str()])
}

/// The controller clock output named by `wanted`: it must be one exact port
/// name, without surrounding whitespace, resolved like any MIDI endpoint.
pub fn matching_controller_output_index(names: &[String], wanted: &str) -> (result: Result<usize, String>)
    ensures
        (trim(wanted@).len() == 0 || trim(wanted@) != wanted@) ==> (result matches Err(message) && message@
            == "controller clock output must be one exact ALSA port name"@),
        !(trim(wanted@).len() == 0 || trim(wanted@) != wanted@) ==> exists|inner: Result<usize, EndpointError>|
            #![trigger matching_outcome(names@, wanted@, "controller clock output"@, inner)]
            matching_outcome(names@, wanted@, "controller clock output"@, inner) && match inner {
                Ok(index) => result == Ok::<usize, String>(index),
                Err(error) => result matches Err(message) && message@ == error.spec_message(),
            },
{
    let bare = trimmed(wanted);
    let whole = String::from_str(wanted);
    if bare.unicode_len() == 0 || bare != whole {
        return Err(String::from_str("controller clock output must be one exact ALSA port name"));
    }
    let description = "controller clock output";
    let inner = matching_index(names, wanted, description);
    let result = match &inner {
        Ok(index) => Ok(*index),
        Err(error) => Err(error.message()),
    };
    proof {
        reveal_strlit("controller clock output");
        assert(matching_outcome(names@, wanted@, "controller clock output"@, inner));
    }
    result
}

/// What one loop slot reports.
#[derive(Clone, Debug)]
pub struct LoopStatus {
    pub loaded: bool,
    pub playing: bool,
    pub file: Option<String>,
    pub source_rate: u32,
    pub source_channels: u16,
    /// Length of the loop region, in nanoseconds.
    pub duration: u64,
    /// Time played into the loop region, in nanoseconds.
    pub elapsed: u64,
    pub error: Option<String>,
    pub running: bool,
    pub muted: bool,
    pub queued: Option<LoopCommand>,
}

impl Default for LoopStatus {
    fn default() -> (status: LoopStatus)
        ensures
            !status.loaded,
            !status.playing,
            status.file is None,
            status.source_rate == 0,
            status.source_channels == 0,
            status.duration == 0,
            status.elapsed == 0,
            status.error is None,
            !status.running,
            !status.muted,
            status.queued is None,
    {
        LoopStatus {
            loaded: false,
            playing: false,
            file: None,
            source_rate: 0,
            source_channels: 0,
            duration: 0,
            elapsed: 0,
            error: None,
            running: false,
            muted: false,
            queued: None,
        }
    }
}

/// The text of a slot's error after the live flags are taken into account:
/// a tempo fault replaces the stored error, and a loaded slot without an
/// active JACK client (outside a preview) reports the client if nothing else.
pub open spec fn settled_error(
    error: Option<Seq<char>>,
    loaded: bool,
    tempo_fault: bool,
    client_active: bool,
    preview: bool,
) -> Option<Seq<char>> {
    let faulted = if tempo_fault {
        Some("loop tempo no longer matches Pattern tempo"@)
    } else {
        error
    };
    if loaded && !client_active && !preview && faulted is None {
        Some("JACK loop client inactive"@)
    } else {
        faulted
    }
}

/// A slot's stored status completed with its live flags. A slot plays only
/// when loaded, running, unmuted, with the transport playing and either the
/// JACK client active or a preview shown.
pub fn settled_status(
    status: LoopStatus,
    running: bool,
    muted: bool,
    queued: Option<LoopCommand>,
    tempo_fault: bool,
    clock_playing: bool,
    client_active: bool,
    preview: bool,
) -> (settled: LoopStatus)
    ensures
        settled.loaded == status.loaded,
        settled.file == status.file,
        settled.source_rate == status.source_rate,
        settled.source_channels == status.source_channels,
        settled.duration == status.duration,
        settled.elapsed == status.elapsed,
        settled.running == running,
        settled.muted == muted,
        settled.queued == queued,
        settled.playing == (status.loaded && running && !muted && clock_playing && (client_active || preview)),
        (match settled.error {
            Some(text) => Some(text@),
            None => None,
        }) == settled_error(
            match status.error {
                Some(text) => Some(text@),
                None => None,
            },
            status.loaded,
            tempo_fault,
            client_active,
            preview,
        ),
{
    let mut settled = status;
    settled.running = running;
    settled.muted = muted;
    settled.queued = queued;
    if tempo_fault {
        settled.error = Some(String::from_str("loop tempo no longer matches Pattern tempo"));
    }
    settled.playing = settled.loaded && running && !muted && clock_playing && (client_active || preview);
    if settled.loaded && !client_active && !preview && settled.error.is_none() {
        settled.error = Some(String::from_str("JACK loop client inactive"));
    }
    settled
}

/// Whether slot `slot` holds a loop whose rate differs from `jack_rate`.
pub open spec fn rate_mismatch(source_rates: [Option<u32>; LOOP_SLOTS], jack_rate: u32, slot: int) -> bool {
    source_rates@[slot] matches Some(rate) && rate != jack_rate
}

/// Check every prepared slot against the JACK rate. In isolating mode each
/// mismatching slot is reported as failed and the rest stay; otherwise the
/// first mismatch refuses the whole set.
pub fn check_native_rates(source_rates: [Option<u32>; LOOP_SLOTS], jack_rate: u32, isolate: bool) -> (result:
    Result<[bool; LOOP_SLOTS], LoopError>)
    ensures
        isolate ==> (result matches Ok(failed) && forall|slot: int|
            0 <= slot < LOOP_SLOTS ==> #[trigger] failed@[slot] == rate_mismatch(source_rates, jack_rate, slot)),
        !isolate && (forall|slot: int| 0 <= slot < LOOP_SLOTS ==> !#[trigger] rate_mismatch(source_rates, jack_rate, slot))
            ==> (result matches Ok(failed) && forall|slot: int| 0 <= slot < LOOP_SLOTS ==> !#[trigger] failed@[slot]),
        !isolate ==> forall|slot: int|
            #![trigger rate_mismatch(source_rates, jack_rate, slot)]
            0 <= slot < LOOP_SLOTS && rate_mismatch(source_rates, jack_rate, slot) && (forall|earlier: int|
                0 <= earlier < slot ==> !#[trigger] rate_mismatch(source_rates, jack_rate, earlier)) ==> result
                == Err::<[bool; LOOP_SLOTS], LoopError>(
                LoopError::RateMismatch { source_rate: source_rates@[slot]->0, jack_rate },
            ),
{
    let mut failed = [false, false, false, false];
    let mut slot: usize = 0;
    while slot < LOOP_SLOTS
        invariant
            slot <= LOOP_SLOTS,
            forall|k: int| 0 <= k < slot ==> #[trigger] failed@[k] == (isolate && rate_mismatch(source_rates, jack_rate, k)),
            forall|k: int| slot <= k < LOOP_SLOTS ==> !#[trigger] failed@[k],
            !isolate ==> forall|k: int| 0 <= k < slot ==> !#[trigger] rate_mismatch(source_rates, jack_rate, k),
        decreases LOOP_SLOTS - slot,
    {
        if let Some(rate) = source_rates[slot] {
            if rate != jack_rate {
                if isolate {
                    failed[slot] = true;
                } else {
                    assert(rate_mismatch(source_rates, jack_rate, slot as int));
                    return Err(LoopError::RateMismatch { source_rate: rate, jack_rate });
                }
            }
        }
        slot += 1;
    }
    Ok(failed)
}

/// One WAV of the loop library.
#[derive(Clone, Debug, PartialEq, Eq)]
pub struct LibraryEntry {
    pub file: String,
    /// Whether the current slot plays this file.
    pub current: bool,
    /// How many loop references of saved Projects name this file.
    pub saved_references: usize,
}

/// How many of `references` name `file`.
pub open spec fn reference_count(references: Seq<String>, file: Seq<char>) -> nat
    decreases references.len(),
{
    if references.len() == 0 {
        0
    } else {
        reference_count(references.drop_last(), file) + if references.last()@ == file {
            1nat
        } else {
            0nat
        }
    }
}

/// The library listing of the WAV files `files` (in listing order): whether
/// each is the `current` slot's file and how many saved loop `references`
/// name it.
pub fn library_entries(files: &[String], current: Option<&str>, references: &[String]) -> (entries: Vec<
    LibraryEntry,
>)
    ensures
        entries@.len() == files@.len(),
        forall|i: int|
            #![trigger entries@[i]]
            0 <= i < files@.len() ==> {
                &&& entries@[i].file@ == files@[i]@
                &&& entries@[i].current == (current matches Some(name) && name@ == files@[i]@)
                &&& entries@[i].saved_references == reference_count(references@, files@[i]@)
            },
{
    let current_name: Option<String> = match current {
        Some(name) => Some(String::from_str(name)),
        None => None,
    };
    let mut entries: Vec<LibraryEntry> = Vec::new();
    let mut i: usize = 0;
    while i < files.len()
        invariant
            i <= files@.len(),
            entries@.len() == i,
            current_name matches Some(n) ==> current matches Some(name) && n@ == name@,
            current_name is None ==> current is None,
            forall|k: int|
                #![trigger entries@[k]]
                0 <= k < i ==> {
                    &&& entries@[k].file@ == files@[k]@
                    &&& entries@[k].current == (current matches Some(name) && name@ == files@[k]@)
                    &&& entries@[k].saved_references == reference_count(references@, files@[k]@)
                },
        decreases files@.len() - i,
    {
        let file = &files[i];
        let is_current = match &current_name {
            Some(name) => *name == *file,
            None => false,
        };
        let count = count_references(references, file);
        entries.push(LibraryEntry { file: file.clone(), current: is_current, saved_references: count });
        i += 1;
    }
    entries
}

fn count_references(references: &[String], file: &String) -> (count: usize)
    ensures
        count == reference_count(references@, file@),
{
    let mut count: usize = 0;
    let mut i: usize = 0;
    while i < references.len()
        invariant
            i <= references@.len(),
            count == reference_count(references@.subrange(0, i as int), file@),
            count <= i,
        decreases references@.len() - i,
    {
        proof {
            assert(references@.subrange(0, i + 1).drop_last() =~= references@.subrange(0, i as int));
        }
        if references[i] == *file {
            count += 1;
        }
        i += 1;
    }
    assert(references@.subrange(0, references@.len() as int) =~= references@);
    count
}

} // verus!
