use vstd::prelude::*;

verus! {

/// Lowest tempo the sequencer accepts, in hundredths of a beat per minute.
pub const MIN_BPM_HUNDREDTHS: u16 = 2000;

/// Highest tempo the sequencer accepts, in hundredths of a beat per minute.
pub const MAX_BPM_HUNDREDTHS: u16 = 30000;

/// A musical tempo held exactly in hundredths of a beat per minute.
#[derive(Clone, Copy, Debug, PartialEq, Eq, Structural)]
pub struct Bpm {
    pub hundredths: u16,
}

impl Bpm {
    /// Whether the tempo lies in the sequencer's 20..=300 BPM range.
    pub open spec fn valid(self) -> bool {
        MIN_BPM_HUNDREDTHS <= self.hundredths <= MAX_BPM_HUNDREDTHS
    }

    pub open spec fn spec_hundredths(self) -> u16 {
        self.hundredths
    }

    /// 120.00 BPM.
    pub fn default_tempo() -> (tempo: Bpm)
        ensures
            tempo.spec_hundredths() == 12000,
            tempo.valid(),
    {
        Bpm { hundredths: 12000 }
    }

    /// The tempo with the given hundredths, when it lies in 20..=300 BPM.
    pub fn from_hundredths(hundredths: u16) -> (tempo: Option<Bpm>)
        ensures
            tempo is Some <==> MIN_BPM_HUNDREDTHS <= hundredths <= MAX_BPM_HUNDREDTHS,
            tempo matches Some(t) ==> t.spec_hundredths() == hundredths && t.valid(),
    {
        if MIN_BPM_HUNDREDTHS <= hundredths && hundredths <= MAX_BPM_HUNDREDTHS {
            Some(Bpm { hundredths })
        } else {
            None
        }
    }

    pub fn hundredths(self) -> (h: u16)
        ensures
            h == self.spec_hundredths(),
    {
        self.hundredths
    }
}

} // verus!
