# polysynth

A polyphonic virtual-analog synthesizer (CLAP plugin) whose control logic is
verified with Verus.

- `src/` — the verified library:
  - `voice_manager.rs`: the fixed pool of 16 voice slots, first-free
    allocation, release-first oldest-voice stealing (the stolen voice fades
    out in FastRelease and is reported when silent), note-off/choke
    addressing by host voice ID or by (channel, note), removal of finished
    voices;
  - `dsp/envelope.rs`: the ADSR state machine and its laws;
  - `dsp/noise.rs`: the xorshift32 generator behind the noise source;
  - `dsp/lfo.rs`: LFO waveform and destination selectors;
  - `params.rs`: whitespace trimming and unit parsing of typed envelope
    times.
- `tests/` — tests of the library on concrete values.
- `app/` — the plugin itself: nice-plug host interface, parameters, and the
  floating-point signal path (oscillator, filter, LFO, envelope levels), which
  follows the library's decisions.
