//! Selector types of the global low-frequency oscillator.

use vstd::prelude::*;

verus! {

/// Waveform of the LFO.
#[derive(Debug, Clone, Copy, PartialEq, Eq, Structural)]
pub enum LfoWaveform {
    Sine,
    Triangle,
    Saw,
    Square,
    SampleHold,
}

/// What the LFO modulates.
#[derive(Debug, Clone, Copy, PartialEq, Eq, Structural)]
pub enum LfoDestination {
    /// No modulation.
    Off,
    Pitch,
    Cutoff,
    Amp,
}

} // verus!
