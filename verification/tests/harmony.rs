use shr_daw::harmony::{Harmony, HarmonyKey, NoteNaming};
use shr_daw::scale::{Scale, ScaleKind};

#[test]
fn derives_every_supported_key_and_mode_without_duplicate_scale_degrees() {
    for root in 0..12 {
        for kind in [ScaleKind::Major, ScaleKind::NaturalMinor] {
            let scale = Scale { root, kind };
            let harmony = Harmony::from_scale(scale);
            assert_eq!(harmony.current, HarmonyKey { root, kind });
            assert_eq!(harmony.counter_clockwise.root, (root + 5) % 12);
            assert_eq!(harmony.clockwise.root, (root + 7) % 12);
            assert_eq!(harmony.counter_clockwise.kind, kind);
            assert_eq!(harmony.clockwise.kind, kind);
            assert_eq!(harmony.parallel.root, root);
            assert_ne!(harmony.parallel.kind, kind);
            assert_eq!(harmony.triads.len(), 7);

            let mut triad_roots = harmony
                .triads
                .iter()
                .map(|triad| triad.root)
                .collect::<Vec<_>>();
            triad_roots.sort_unstable();
            triad_roots.dedup();
            assert_eq!(triad_roots.len(), 7);
            assert!(harmony
                .triads
                .iter()
                .all(|triad| scale.contains(triad.root)));
        }
    }
}

#[test]
fn c_major_and_a_minor_have_the_expected_relationships_and_triads() {
    let c_major = Harmony::from_scale(Scale::default());
    assert_eq!(c_major.counter_clockwise.root, 5);
    assert_eq!(c_major.clockwise.root, 7);
    assert_eq!(
        c_major.relative,
        HarmonyKey::new(9, ScaleKind::NaturalMinor)
    );
    assert_eq!(
        c_major.parallel,
        HarmonyKey::new(0, ScaleKind::NaturalMinor)
    );
    assert_eq!(
        c_major.triads.map(|triad| triad.label(NoteNaming::English)),
        [
            "I C",
            "ii Dm",
            "iii Em",
            "IV F",
            "V G",
            "vi Am",
            "vii° Bdim"
        ]
    );

    let a_minor = Harmony::from_scale(Scale {
        root: 9,
        kind: ScaleKind::NaturalMinor,
    });
    assert_eq!(a_minor.relative, HarmonyKey::new(0, ScaleKind::Major));
    assert_eq!(a_minor.parallel, HarmonyKey::new(9, ScaleKind::Major));
    assert_eq!(
        a_minor.triads.map(|triad| triad.label(NoteNaming::English)),
        [
            "i Am",
            "ii° Bdim",
            "III C",
            "iv Dm",
            "v Em",
            "VI F",
            "VII G"
        ]
    );
}

#[test]
fn labels_reuse_the_repository_english_and_german_sharp_policy() {
    let english = Harmony::from_scale(Scale {
        root: 10,
        kind: ScaleKind::Major,
    });
    assert_eq!(english.current.long_label(NoteNaming::English), "A# MAJOR");
    assert_eq!(english.current.long_label(NoteNaming::German), "B MAJOR");

    let german_b = Harmony::from_scale(Scale {
        root: 11,
        kind: ScaleKind::NaturalMinor,
    });
    assert_eq!(german_b.current.compact_label(NoteNaming::English), "Bm");
    assert_eq!(german_b.current.compact_label(NoteNaming::German), "Hm");

    let sharp = Harmony::from_scale(Scale {
        root: 1,
        kind: ScaleKind::Major,
    });
    assert_eq!(sharp.current.long_label(NoteNaming::English), "C# MAJOR");
    assert_eq!(sharp.parallel.long_label(NoteNaming::German), "C# MINOR");
}
