use shr_daw::final_bus::{BusSource, InputMixMode, SOURCE_COUNT};
use shr_daw::master_strip::{
    GlueAttack, GlueRatio, GlueRelease, GlueSidechainHpf, HighShelfFrequency, HpfFrequency, ImageSideHpf,
    LowShelfFrequency,
};

#[test]
fn strip_choices_default_to_the_neutral_settings() {
    assert_eq!(HpfFrequency::default(), HpfFrequency::Off);
    assert_eq!(LowShelfFrequency::default(), LowShelfFrequency::Hz50);
    assert_eq!(HighShelfFrequency::default(), HighShelfFrequency::Hz12000);
    assert_eq!(GlueRatio::default(), GlueRatio::Ratio2);
    assert_eq!(GlueAttack::default(), GlueAttack::Ms30);
    assert_eq!(GlueRelease::default(), GlueRelease::Ms300);
    assert_eq!(GlueSidechainHpf::default(), GlueSidechainHpf::Off);
    assert_eq!(ImageSideHpf::default(), ImageSideHpf::Hz180);
}

#[test]
fn strip_labels_are_short_display_text() {
    assert_eq!(HpfFrequency::all().map(HpfFrequency::label), ["OFF", "20Hz", "30Hz", "40Hz"]);
    assert_eq!(GlueRatio::all().map(GlueRatio::label), ["1.5:1", "2:1", "4:1"]);
    assert_eq!(ImageSideHpf::all(), [ImageSideHpf::Hz120, ImageSideHpf::Hz180, ImageSideHpf::Hz250]);
}

#[test]
fn bus_sources_have_fixed_places_and_labels() {
    assert_eq!(BusSource::all().map(BusSource::label), ["SYNTH", "LOOP", "INPUT", "DRUMS"]);
    assert_eq!(BusSource::all().map(BusSource::index), [0, 1, 2, 3]);
    assert!(BusSource::all().iter().all(|source| source.index() < SOURCE_COUNT));
    assert_eq!(InputMixMode::default(), InputMixMode::Stereo);
}
