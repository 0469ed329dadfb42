//! Sources and input modes of the fixed four-source final performance bus.
//!
//! Source faders and the live master fader feed the Project-owned fixed
//! MASTER STRIP; the gains, pans and meters themselves are floating point and
//! live with the audio processing outside this library.

use vstd::prelude::*;

verus! {

/// Sources mixed by the final bus.
pub const SOURCE_COUNT: usize = 4;

/// How the two hardware inputs reach the bus.
#[derive(Clone, Copy, Debug, PartialEq, Eq, Structural)]
pub enum InputMixMode {
    Stereo,
    DualMono,
}

impl InputMixMode {
    /// Every choice, in display order.
    pub fn all() -> (all: [InputMixMode; 2])
        ensures
            all@[0] == InputMixMode::Stereo,
            all@[1] == InputMixMode::DualMono,
    {
        [InputMixMode::Stereo, InputMixMode::DualMono]
    }
}

impl Default for InputMixMode {
    fn default() -> (choice: InputMixMode)
        ensures
            choice == InputMixMode::Stereo,
    {
        InputMixMode::Stereo
    }
}

/// One of the two hardware inputs.
#[derive(Clone, Copy, Debug, PartialEq, Eq, Structural)]
pub enum InputChannel {
    One,
    Two,
}

impl InputChannel {
    /// Every choice, in display order.
    pub fn all() -> (all: [InputChannel; 2])
        ensures
            all@[0] == InputChannel::One,
            all@[1] == InputChannel::Two,
    {
        [InputChannel::One, InputChannel::Two]
    }
}

/// A source of the final performance bus.
#[derive(Clone, Copy, Debug, PartialEq, Eq, Structural)]
pub enum BusSource {
    Synth,
    Loop,
    Input,
    Drums,
}

impl BusSource {
    /// Every choice, in display order.
    pub fn all() -> (all: [BusSource; 4])
        ensures
            all@[0] == BusSource::Synth,
            all@[1] == BusSource::Loop,
            all@[2] == BusSource::Input,
            all@[3] == BusSource::Drums,
    {
        [BusSource::Synth, BusSource::Loop, BusSource::Input, BusSource::Drums]
    }

    pub open spec fn spec_label(self) -> Seq<char> {
        match self {
            BusSource::Synth => "SYNTH"@,
            BusSource::Loop => "LOOP"@,
            BusSource::Input => "INPUT"@,
            BusSource::Drums => "DRUMS"@,
        }
    }

    /// Short display text.
    pub fn label(self) -> (label: &'static str)
        ensures
            label@ == self.spec_label(),
    {
        match self {
            BusSource::Synth => "SYNTH",
            BusSource::Loop => "LOOP",
            BusSource::Input => "INPUT",
            BusSource::Drums => "DRUMS",
        }
    }
}

impl BusSource {
    /// Position of the source's fader and meter.
    pub fn index(self) -> (index: usize)
        ensures
            index < SOURCE_COUNT,
            index == match self {
                BusSource::Synth => 0usize,
                BusSource::Loop => 1usize,
                BusSource::Input => 2usize,
                BusSource::Drums => 3usize,
            },
    {
        match self {
            BusSource::Synth => 0,
            BusSource::Loop => 1,
            BusSource::Input => 2,
            BusSource::Drums => 3,
        }
    }
}

} // verus!
