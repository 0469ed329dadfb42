use vstd::prelude::*;

verus! {

/// The two diatonic modes a Project key can use.
#[derive(Clone, Copy, Debug, PartialEq, Eq, Structural)]
pub enum ScaleKind {
    Major,
    NaturalMinor,
}

/// Semitone offsets of the seven scale degrees above the tonic.
pub open spec fn spec_intervals(kind: ScaleKind) -> Seq<u8> {
    match kind {
        ScaleKind::Major => seq![0u8, 2, 4, 5, 7, 9, 11],
        ScaleKind::NaturalMinor => seq![0u8, 2, 3, 5, 7, 8, 10],
    }
}

impl ScaleKind {
    pub fn intervals(self) -> (intervals: [u8; 7])
        ensures
            intervals@ == spec_intervals(self),
    {
        let intervals = match self {
            ScaleKind::Major => [0u8, 2, 4, 5, 7, 9, 11],
            ScaleKind::NaturalMinor => [0u8, 2, 3, 5, 7, 8, 10],
        };
        assert(intervals@ =~= spec_intervals(self));
        intervals
    }

    pub open spec fn spec_label(self) -> Seq<char> {
        match self {
            ScaleKind::Major => "MAJOR"@,
            ScaleKind::NaturalMinor => "MINOR"@,
        }
    }

    pub fn label(self) -> (label: &'static str)
        ensures
            label@ == self.spec_label(),
    {
        match self {
            ScaleKind::Major => "MAJOR",
            ScaleKind::NaturalMinor => "MINOR",
        }
    }
}

/// A Project key: a tonic pitch class and a mode.
#[derive(Clone, Copy, Debug, PartialEq, Eq, Structural)]
pub struct Scale {
    pub root: u8,
    pub kind: ScaleKind,
}

/// Whether the pitch class of `note` is one of the seven degrees of the key.
pub open spec fn spec_scale_contains(scale: Scale, note: int) -> bool {
    let offset = (note - scale.root as int) % 12;
    exists|i: int| 0 <= i < 7 && #[trigger] spec_intervals(scale.kind)[i] == offset
}

impl Scale {
    /// C major.
    pub fn default_scale() -> (scale: Scale)
        ensures
            scale.root == 0,
            scale.kind == ScaleKind::Major,
    {
        Scale { root: 0, kind: ScaleKind::Major }
    }

    pub fn contains(self, note: u8) -> (contained: bool)
        ensures
            contained == spec_scale_contains(self, note as int),
    {
        let offset: u8 = ((note as u16 + 12 * 22 - (self.root % 12) as u16) % 12) as u8;
        proof {
            assert((note as int - self.root as int) % 12 == offset as int);
        }
        let intervals = self.kind.intervals();
        let mut i: usize = 0;
        while i < 7
            invariant
                i <= 7,
                intervals@ == spec_intervals(self.kind),
                (note as int - self.root as int) % 12 == offset as int,
                forall|j: int| 0 <= j < i ==> spec_intervals(self.kind)[j] != offset,
            decreases 7 - i,
        {
            if intervals[i] == offset {
                assert(spec_intervals(self.kind)[i as int] == offset);
                return true;
            }
            i += 1;
        }
        false
    }
}

impl Default for Scale {
    fn default() -> (scale: Scale)
        ensures
            scale.root == 0,
            scale.kind == ScaleKind::Major,
    {
        Scale::default_scale()
    }
}

} // verus!
