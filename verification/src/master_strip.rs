//! Choices of the fixed Project-owned stereo MASTER STRIP.
//!
//! The strip's audio processing, which is floating point throughout, runs
//! outside this library; these are the discrete settings it is prepared from.

use vstd::prelude::*;

verus! {

/// Version of the stored MASTER STRIP settings.
pub const MASTER_STRIP_FORMAT_VERSION: u8 = 1;

/// Input high-pass corner.
#[derive(Clone, Copy, Debug, PartialEq, Eq, Structural)]
pub enum HpfFrequency {
    Off,
    Hz20,
    Hz30,
    Hz40,
}

impl HpfFrequency {
    /// Every choice, in display order.
    pub fn all() -> (all: [HpfFrequency; 4])
        ensures
            all@[0] == HpfFrequency::Off,
            all@[1] == HpfFrequency::Hz20,
            all@[2] == HpfFrequency::Hz30,
            all@[3] == HpfFrequency::Hz40,
    {
        [HpfFrequency::Off, HpfFrequency::Hz20, HpfFrequency::Hz30, HpfFrequency::Hz40]
    }

    pub open spec fn spec_label(self) -> Seq<char> {
        match self {
            HpfFrequency::Off => "OFF"@,
            HpfFrequency::Hz20 => "20Hz"@,
            HpfFrequency::Hz30 => "30Hz"@,
            HpfFrequency::Hz40 => "40Hz"@,
        }
    }

    /// Short display text.
    pub fn label(self) -> (label: &'static str)
        ensures
            label@ == self.spec_label(),
    {
        match self {
            HpfFrequency::Off => "OFF",
            HpfFrequency::Hz20 => "20Hz",
            HpfFrequency::Hz30 => "30Hz",
            HpfFrequency::Hz40 => "40Hz",
        }
    }
}

impl Default for HpfFrequency {
    fn default() -> (choice: HpfFrequency)
        ensures
            choice == HpfFrequency::Off,
    {
        HpfFrequency::Off
    }
}

/// Tone low-shelf corner.
#[derive(Clone, Copy, Debug, PartialEq, Eq, Structural)]
pub enum LowShelfFrequency {
    Hz30,
    Hz50,
    Hz70,
    Hz90,
}

impl LowShelfFrequency {
    /// Every choice, in display order.
    pub fn all() -> (all: [LowShelfFrequency; 4])
        ensures
            all@[0] == LowShelfFrequency::Hz30,
            all@[1] == LowShelfFrequency::Hz50,
            all@[2] == LowShelfFrequency::Hz70,
            all@[3] == LowShelfFrequency::Hz90,
    {
        [LowShelfFrequency::Hz30, LowShelfFrequency::Hz50, LowShelfFrequency::Hz70, LowShelfFrequency::Hz90]
    }
}

impl Default for LowShelfFrequency {
    fn default() -> (choice: LowShelfFrequency)
        ensures
            choice == LowShelfFrequency::Hz50,
    {
        LowShelfFrequency::Hz50
    }
}

/// Tone high-shelf corner.
#[derive(Clone, Copy, Debug, PartialEq, Eq, Structural)]
pub enum HighShelfFrequency {
    Hz8000,
    Hz12000,
    Hz16000,
    Hz20000,
}

impl HighShelfFrequency {
    /// Every choice, in display order.
    pub fn all() -> (all: [HighShelfFrequency; 4])
        ensures
            all@[0] == HighShelfFrequency::Hz8000,
            all@[1] == HighShelfFrequency::Hz12000,
            all@[2] == HighShelfFrequency::Hz16000,
            all@[3] == HighShelfFrequency::Hz20000,
    {
        [HighShelfFrequency::Hz8000, HighShelfFrequency::Hz12000, HighShelfFrequency::Hz16000, HighShelfFrequency::Hz20000]
    }
}

impl Default for HighShelfFrequency {
    fn default() -> (choice: HighShelfFrequency)
        ensures
            choice == HighShelfFrequency::Hz12000,
    {
        HighShelfFrequency::Hz12000
    }
}

/// GLUE compression ratio.
#[derive(Clone, Copy, Debug, PartialEq, Eq, Structural)]
pub enum GlueRatio {
    Ratio1_5,
    Ratio2,
    Ratio4,
}

impl GlueRatio {
    /// Every choice, in display order.
    pub fn all() -> (all: [GlueRatio; 3])
        ensures
            all@[0] == GlueRatio::Ratio1_5,
            all@[1] == GlueRatio::Ratio2,
            all@[2] == GlueRatio::Ratio4,
    {
        [GlueRatio::Ratio1_5, GlueRatio::Ratio2, GlueRatio::Ratio4]
    }

    pub open spec fn spec_label(self) -> Seq<char> {
        match self {
            GlueRatio::Ratio1_5 => "1.5:1"@,
            GlueRatio::Ratio2 => "2:1"@,
            GlueRatio::Ratio4 => "4:1"@,
        }
    }

    /// Short display text.
    pub fn label(self) -> (label: &'static str)
        ensures
            label@ == self.spec_label(),
    {
        match self {
            GlueRatio::Ratio1_5 => "1.5:1",
            GlueRatio::Ratio2 => "2:1",
            GlueRatio::Ratio4 => "4:1",
        }
    }
}

impl Default for GlueRatio {
    fn default() -> (choice: GlueRatio)
        ensures
            choice == GlueRatio::Ratio2,
    {
        GlueRatio::Ratio2
    }
}

/// GLUE attack time.
#[derive(Clone, Copy, Debug, PartialEq, Eq, Structural)]
pub enum GlueAttack {
    Ms10,
    Ms30,
    Ms100,
}

impl GlueAttack {
    /// Every choice, in display order.
    pub fn all() -> (all: [GlueAttack; 3])
        ensures
            all@[0] == GlueAttack::Ms10,
            all@[1] == GlueAttack::Ms30,
            all@[2] == GlueAttack::Ms100,
    {
        [GlueAttack::Ms10, GlueAttack::Ms30, GlueAttack::Ms100]
    }
}

impl Default for GlueAttack {
    fn default() -> (choice: GlueAttack)
        ensures
            choice == GlueAttack::Ms30,
    {
        GlueAttack::Ms30
    }
}

/// GLUE release time.
#[derive(Clone, Copy, Debug, PartialEq, Eq, Structural)]
pub enum GlueRelease {
    Ms100,
    Ms300,
    Ms600,
}

impl GlueRelease {
    /// Every choice, in display order.
    pub fn all() -> (all: [GlueRelease; 3])
        ensures
            all@[0] == GlueRelease::Ms100,
            all@[1] == GlueRelease::Ms300,
            all@[2] == GlueRelease::Ms600,
    {
        [GlueRelease::Ms100, GlueRelease::Ms300, GlueRelease::Ms600]
    }
}

impl Default for GlueRelease {
    fn default() -> (choice: GlueRelease)
        ensures
            choice == GlueRelease::Ms300,
    {
        GlueRelease::Ms300
    }
}

/// GLUE sidechain high-pass corner.
#[derive(Clone, Copy, Debug, PartialEq, Eq, Structural)]
pub enum GlueSidechainHpf {
    Off,
    Hz60,
    Hz90,
    Hz120,
}

impl GlueSidechainHpf {
    /// Every choice, in display order.
    pub fn all() -> (all: [GlueSidechainHpf; 4])
        ensures
            all@[0] == GlueSidechainHpf::Off,
            all@[1] == GlueSidechainHpf::Hz60,
            all@[2] == GlueSidechainHpf::Hz90,
            all@[3] == GlueSidechainHpf::Hz120,
    {
        [GlueSidechainHpf::Off, GlueSidechainHpf::Hz60, GlueSidechainHpf::Hz90, GlueSidechainHpf::Hz120]
    }
}

impl Default for GlueSidechainHpf {
    fn default() -> (choice: GlueSidechainHpf)
        ensures
            choice == GlueSidechainHpf::Off,
    {
        GlueSidechainHpf::Off
    }
}

/// IMAGE side-channel high-pass corner.
#[derive(Clone, Copy, Debug, PartialEq, Eq, Structural)]
pub enum ImageSideHpf {
    Hz120,
    Hz180,
    Hz250,
}

impl ImageSideHpf {
    /// Every choice, in display order.
    pub fn all() -> (all: [ImageSideHpf; 3])
        ensures
            all@[0] == ImageSideHpf::Hz120,
            all@[1] == ImageSideHpf::Hz180,
            all@[2] == ImageSideHpf::Hz250,
    {
        [ImageSideHpf::Hz120, ImageSideHpf::Hz180, ImageSideHpf::Hz250]
    }
}

impl Default for ImageSideHpf {
    fn default() -> (choice: ImageSideHpf)
        ensures
            choice == ImageSideHpf::Hz180,
    {
        ImageSideHpf::Hz180
    }
}
} // verus!
