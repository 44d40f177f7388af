use polysynth::dsp::lfo::{LfoDestination, LfoWaveform};

#[test]
fn selectors_compare_by_variant() {
    assert_eq!(LfoWaveform::SampleHold, LfoWaveform::SampleHold);
    assert_ne!(LfoWaveform::Sine, LfoWaveform::Triangle);
    assert_ne!(LfoDestination::Off, LfoDestination::Amp);
    let copied = LfoDestination::Cutoff;
    assert_eq!(copied, LfoDestination::Cutoff);
}
