//! The verified core of a polyphonic virtual-analog synthesizer: the voice
//! pool with its stealing policy, the envelope state machine, the noise
//! generator's integer state, the LFO selector types and the parsing of
//! envelope-time text.

pub mod dsp;
pub mod voice_manager;
pub mod params;
