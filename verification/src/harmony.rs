//! Read-only harmony relationships derived from the current Project key.

use vstd::prelude::*;

use crate::scale::{spec_intervals, spec_scale_contains, Scale, ScaleKind};

verus! {

/// How pitch names are spelled: English uses B for pitch class 11 and A# for 10;
/// German uses H for 11 and B for 10.
#[derive(Clone, Copy, Debug, PartialEq, Eq, Structural)]
pub enum NoteNaming {
    English,
    German,
}

pub open spec fn spec_pitch_name(naming: NoteNaming, pitch_class: int) -> Seq<char> {
    if pitch_class == 0 {
        "C"@
    } else if pitch_class == 1 {
        "C#"@
    } else if pitch_class == 2 {
        "D"@
    } else if pitch_class == 3 {
        "D#"@
    } else if pitch_class == 4 {
        "E"@
    } else if pitch_class == 5 {
        "F"@
    } else if pitch_class == 6 {
        "F#"@
    } else if pitch_class == 7 {
        "G"@
    } else if pitch_class == 8 {
        "G#"@
    } else if pitch_class == 9 {
        "A"@
    } else if pitch_class == 10 {
        if naming == NoteNaming::English { "A#"@ } else { "B"@ }
    } else {
        if naming == NoteNaming::English { "B"@ } else { "H"@ }
    }
}

impl NoteNaming {
    /// The name of a pitch class (taken modulo 12).
    pub fn pitch_name(self, pitch_class: u8) -> (name: &'static str)
        ensures
            name@ == spec_pitch_name(self, (pitch_class % 12) as int),
    {
        let pc = pitch_class % 12;
        if pc == 0 {
            "C"
        } else if pc == 1 {
            "C#"
        } else if pc == 2 {
            "D"
        } else if pc == 3 {
            "D#"
        } else if pc == 4 {
            "E"
        } else if pc == 5 {
            "F"
        } else if pc == 6 {
            "F#"
        } else if pc == 7 {
            "G"
        } else if pc == 8 {
            "G#"
        } else if pc == 9 {
            "A"
        } else if pc == 10 {
            match self {
                NoteNaming::English => "A#",
                NoteNaming::German => "B",
            }
        } else {
            match self {
                NoteNaming::English => "B",
                NoteNaming::German => "H",
            }
        }
    }
}

/// A key: a pitch class (0..=11) and a mode.
#[derive(Clone, Copy, Debug, PartialEq, Eq, Structural)]
pub struct HarmonyKey {
    pub root: u8,
    pub kind: ScaleKind,
}

pub open spec fn key(root: int, kind: ScaleKind) -> HarmonyKey {
    HarmonyKey { root: (root % 12) as u8, kind }
}

impl HarmonyKey {
    pub fn new(root: u8, kind: ScaleKind) -> (k: HarmonyKey)
        ensures
            k == key(root as int, kind),
    {
        HarmonyKey { root: root % 12, kind }
    }

    pub open spec fn spec_long_label(self, naming: NoteNaming) -> Seq<char> {
        spec_pitch_name(naming, (self.root % 12) as int) + " "@ + self.kind.spec_label()
    }

    /// "C MAJOR", "A MINOR".
    pub fn long_label(self, naming: NoteNaming) -> (label: String)
        ensures
            label@ == self.spec_long_label(naming),
    {
        let mut label = String::from_str(naming.pitch_name(self.root));
        label.append(" ");
        label.append(self.kind.label());
        label
    }

    pub open spec fn spec_compact_label(self, naming: NoteNaming) -> Seq<char> {
        spec_pitch_name(naming, (self.root % 12) as int) + if self.kind == ScaleKind::NaturalMinor {
            "m"@
        } else {
            ""@
        }
    }

    /// "C", "Am".
    pub fn compact_label(self, naming: NoteNaming) -> (label: String)
        ensures
            label@ == self.spec_compact_label(naming),
    {
        let mut label = String::from_str(naming.pitch_name(self.root));
        if self.kind == ScaleKind::NaturalMinor {
            label.append("m");
        } else {
            label.append("");
        }
        label
    }
}

/// Quality of a diatonic triad.
#[derive(Clone, Copy, Debug, PartialEq, Eq, Structural)]
pub enum TriadQuality {
    Major,
    Minor,
    Diminished,
}

impl TriadQuality {
    pub open spec fn spec_suffix(self) -> Seq<char> {
        match self {
            TriadQuality::Major => ""@,
            TriadQuality::Minor => "m"@,
            TriadQuality::Diminished => "dim"@,
        }
    }

    pub fn suffix(self) -> (suffix: &'static str)
        ensures
            suffix@ == self.spec_suffix(),
    {
        match self {
            TriadQuality::Major => "",
            TriadQuality::Minor => "m",
            TriadQuality::Diminished => "dim",
        }
    }
}

/// The triad on one scale degree, with its roman-numeral name.
#[derive(Clone, Copy, Debug, PartialEq, Eq)]
pub struct DiatonicTriad {
    pub degree: &'static str,
    pub root: u8,
    pub quality: TriadQuality,
}

impl DiatonicTriad {
    pub open spec fn spec_label(self, naming: NoteNaming) -> Seq<char> {
        self.degree@ + " "@ + spec_pitch_name(naming, (self.root % 12) as int) + self.quality.spec_suffix()
    }

    /// "ii Dm", "vii° Bdim".
    pub fn label(self, naming: NoteNaming) -> (label: String)
        ensures
            label@ == self.spec_label(naming),
    {
        let mut label = String::from_str(self.degree);
        label.append(" ");
        label.append(naming.pitch_name(self.root));
        label.append(self.quality.suffix());
        label
    }
}

/// Roman numerals of the seven degrees of a mode.
pub open spec fn spec_degree_names(kind: ScaleKind) -> Seq<Seq<char>> {
    match kind {
        ScaleKind::Major => seq!["I"@, "ii"@, "iii"@, "IV"@, "V"@, "vi"@, "vii°"@],
        ScaleKind::NaturalMinor => seq!["i"@, "ii°"@, "III"@, "iv"@, "v"@, "VI"@, "VII"@],
    }
}

/// Qualities of the seven diatonic triads of a mode.
pub open spec fn spec_qualities(kind: ScaleKind) -> Seq<TriadQuality> {
    match kind {
        ScaleKind::Major => seq![
            TriadQuality::Major,
            TriadQuality::Minor,
            TriadQuality::Minor,
            TriadQuality::Major,
            TriadQuality::Major,
            TriadQuality::Minor,
            TriadQuality::Diminished,
        ],
        ScaleKind::NaturalMinor => seq![
            TriadQuality::Minor,
            TriadQuality::Diminished,
            TriadQuality::Major,
            TriadQuality::Minor,
            TriadQuality::Minor,
            TriadQuality::Major,
            TriadQuality::Major,
        ],
    }
}

pub open spec fn other_mode(kind: ScaleKind) -> ScaleKind {
    match kind {
        ScaleKind::Major => ScaleKind::NaturalMinor,
        ScaleKind::NaturalMinor => ScaleKind::Major,
    }
}

/// The relative key: the minor a sixth above a major key, the major a
/// minor third above a minor key.
pub open spec fn relative_key(scale: Scale) -> HarmonyKey {
    match scale.kind {
        ScaleKind::Major => key(scale.root % 12 + 9, ScaleKind::NaturalMinor),
        ScaleKind::NaturalMinor => key(scale.root % 12 + 3, ScaleKind::Major),
    }
}

/// The scale a key names.
pub open spec fn key_scale(k: HarmonyKey) -> Scale {
    Scale { root: k.root, kind: k.kind }
}

/// Whether `offset` (0..12) is one of the intervals of `kind`, written out.
pub open spec fn interval_of(kind: ScaleKind, offset: int) -> bool {
    match kind {
        ScaleKind::Major => offset == 0 || offset == 2 || offset == 4 || offset == 5 || offset == 7 || offset == 9
            || offset == 11,
        ScaleKind::NaturalMinor => offset == 0 || offset == 2 || offset == 3 || offset == 5 || offset == 7 || offset
            == 8 || offset == 10,
    }
}

proof fn lemma_interval_of(scale: Scale, note: int)
    ensures
        spec_scale_contains(scale, note) <==> interval_of(scale.kind, (note - scale.root) % 12),
{
    let offset = (note - scale.root) % 12;
    let intervals = spec_intervals(scale.kind);
    if spec_scale_contains(scale, note) {
        let i = choose|i: int| 0 <= i < 7 && #[trigger] intervals[i] == offset;
        assert(i == 0 || i == 1 || i == 2 || i == 3 || i == 4 || i == 5 || i == 6);
    }
    if interval_of(scale.kind, offset) {
        if intervals[0] == offset {
        } else if intervals[1] == offset {
        } else if intervals[2] == offset {
        } else if intervals[3] == offset {
        } else if intervals[4] == offset {
        } else if intervals[5] == offset {
        } else {
            assert(intervals[6] == offset);
        }
    }
}

/// Numbers twelve apart (a whole number of times) have the same pitch class.
proof fn lemma_same_pitch_class(a: int, b: int, octaves: int)
    requires
        a == b + 12 * octaves,
    ensures
        a % 12 == b % 12,
{
    vstd::arithmetic::div_mod::lemma_fundamental_div_mod(b, 12);
    assert(a == (b / 12 + octaves) * 12 + b % 12) by (nonlinear_arith)
        requires
            a == b + 12 * octaves,
            b == 12 * (b / 12) + b % 12,
    ;
    vstd::arithmetic::div_mod::lemma_fundamental_div_mod_converse(a, 12, b / 12 + octaves, b % 12);
}

/// A key and its relative key hold the same seven notes, in the other mode.
pub proof fn lemma_relative_keys_share_their_notes(scale: Scale, note: int)
    ensures
        relative_key(scale).kind == other_mode(scale.kind),
        spec_scale_contains(scale, note) <==> spec_scale_contains(key_scale(relative_key(scale)), note),
{
    let relative = key_scale(relative_key(scale));
    let shift: int = match scale.kind {
        ScaleKind::Major => 9,
        ScaleKind::NaturalMinor => 3,
    };
    let base = scale.root % 12 + shift;
    vstd::arithmetic::div_mod::lemma_fundamental_div_mod(base, 12);
    vstd::arithmetic::div_mod::lemma_fundamental_div_mod(scale.root as int, 12);
    vstd::arithmetic::div_mod::lemma_mod_bound(base, 12);
    assert(relative.root as int == base % 12);
    let offset = (note - scale.root) % 12;
    vstd::arithmetic::div_mod::lemma_mod_bound(note - scale.root, 12);
    vstd::arithmetic::div_mod::lemma_fundamental_div_mod(note - scale.root, 12);
    let moved = (offset - shift + 12) % 12;
    assert(note - relative.root == (offset - shift + 12) + 12 * ((note - scale.root) / 12 + (scale.root as int) / 12 + base / 12
        - 1)) by (nonlinear_arith)
        requires
            note - scale.root == 12 * ((note - scale.root) / 12) + offset,
            scale.root as int == 12 * ((scale.root as int) / 12) + scale.root % 12,
            base == 12 * (base / 12) + base % 12,
            base == scale.root % 12 + shift,
            relative.root as int == base % 12,
    ;
    lemma_same_pitch_class(
        note - relative.root,
        offset - shift + 12,
        (note - scale.root) / 12 + (scale.root as int) / 12 + base / 12 - 1,
    );
    assert(0 <= offset < 12);
    assert(interval_of(scale.kind, offset) <==> interval_of(relative.kind, moved)) by {
        if offset == 0 {
        } else if offset == 1 {
        } else if offset == 2 {
        } else if offset == 3 {
        } else if offset == 4 {
        } else if offset == 5 {
        } else if offset == 6 {
        } else if offset == 7 {
        } else if offset == 8 {
        } else if offset == 9 {
        } else if offset == 10 {
        } else {
        }
    }
    lemma_interval_of(scale, note);
    lemma_interval_of(relative, note);
}

/// The current key, its circle-of-fifths neighbours, its relative and
/// parallel keys, and its seven diatonic triads.
#[derive(Clone, Copy, Debug, PartialEq, Eq)]
pub struct Harmony {
    pub current: HarmonyKey,
    pub counter_clockwise: HarmonyKey,
    pub clockwise: HarmonyKey,
    pub relative: HarmonyKey,
    pub parallel: HarmonyKey,
    pub triads: [DiatonicTriad; 7],
}

impl Harmony {
    /// Read the relationships of the key of `scale`. The relative key of a
    /// major key is the minor a sixth up; that of a minor key the major a third up.
    pub fn from_scale(scale: Scale) -> (harmony: Harmony)
        ensures
            harmony.current == key(scale.root as int, scale.kind),
            harmony.counter_clockwise == key(scale.root % 12 + 5, scale.kind),
            harmony.clockwise == key(scale.root % 12 + 7, scale.kind),
            harmony.relative == relative_key(scale),
            harmony.parallel == key(scale.root as int, other_mode(scale.kind)),
            forall|i: int|
                0 <= i < 7 ==> {
                    &&& (#[trigger] harmony.triads[i]).degree@ == spec_degree_names(scale.kind)[i]
                    &&& harmony.triads[i].root == (scale.root % 12 + spec_intervals(scale.kind)[i]) % 12
                    &&& harmony.triads[i].quality == spec_qualities(scale.kind)[i]
                },
    {
        let root = scale.root % 12;
        let current = HarmonyKey::new(root, scale.kind);
        let intervals = scale.kind.intervals();
        let (relative, parallel) = match scale.kind {
            ScaleKind::Major => (
                HarmonyKey::new(root + 9, ScaleKind::NaturalMinor),
                HarmonyKey::new(root, ScaleKind::NaturalMinor),
            ),
            ScaleKind::NaturalMinor => (
                HarmonyKey::new(root + 3, ScaleKind::Major),
                HarmonyKey::new(root, ScaleKind::Major),
            ),
        };
        let triads = match scale.kind {
            ScaleKind::Major => [
                DiatonicTriad { degree: "I", root: (root + intervals[0]) % 12, quality: TriadQuality::Major },
                DiatonicTriad { degree: "ii", root: (root + intervals[1]) % 12, quality: TriadQuality::Minor },
                DiatonicTriad { degree: "iii", root: (root + intervals[2]) % 12, quality: TriadQuality::Minor },
                DiatonicTriad { degree: "IV", root: (root + intervals[3]) % 12, quality: TriadQuality::Major },
                DiatonicTriad { degree: "V", root: (root + intervals[4]) % 12, quality: TriadQuality::Major },
                DiatonicTriad { degree: "vi", root: (root + intervals[5]) % 12, quality: TriadQuality::Minor },
                DiatonicTriad { degree: "vii°", root: (root + intervals[6]) % 12, quality: TriadQuality::Diminished },
            ],
            ScaleKind::NaturalMinor => [
                DiatonicTriad { degree: "i", root: (root + intervals[0]) % 12, quality: TriadQuality::Minor },
                DiatonicTriad { degree: "ii°", root: (root + intervals[1]) % 12, quality: TriadQuality::Diminished },
                DiatonicTriad { degree: "III", root: (root + intervals[2]) % 12, quality: TriadQuality::Major },
                DiatonicTriad { degree: "iv", root: (root + intervals[3]) % 12, quality: TriadQuality::Minor },
                DiatonicTriad { degree: "v", root: (root + intervals[4]) % 12, quality: TriadQuality::Minor },
                DiatonicTriad { degree: "VI", root: (root + intervals[5]) % 12, quality: TriadQuality::Major },
                DiatonicTriad { degree: "VII", root: (root + intervals[6]) % 12, quality: TriadQuality::Major },
            ],
        };
        Harmony {
            current,
            counter_clockwise: HarmonyKey::new(root + 5, scale.kind),
            clockwise: HarmonyKey::new(root + 7, scale.kind),
            relative,
            parallel,
            triads,
        }
    }
}

/// Every triad of a key is rooted on one of the key's own degrees, and the
/// seven roots are the seven distinct degrees.
pub proof fn lemma_triads_are_the_scale_degrees(scale: Scale, i: int, j: int)
    requires
        0 <= i < 7,
        0 <= j < 7,
    ensures
        spec_scale_contains(scale, (scale.root % 12 + spec_intervals(scale.kind)[i]) % 12),
        i != j ==> (scale.root % 12 + spec_intervals(scale.kind)[i]) % 12 != (scale.root % 12 + spec_intervals(
            scale.kind,
        )[j]) % 12,
{
    let pc = (scale.root % 12 + spec_intervals(scale.kind)[i]) % 12;
    assert(spec_intervals(scale.kind)[i] < 12);
    assert((pc - scale.root as int) % 12 == spec_intervals(scale.kind)[i] as int);
}

} // verus!
