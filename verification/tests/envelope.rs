use polysynth::dsp::envelope::EnvelopeState;

#[test]
fn note_off_moves_running_envelopes_to_release() {
    for s in [
        EnvelopeState::Attack,
        EnvelopeState::Decay,
        EnvelopeState::Sustain,
        EnvelopeState::Release,
        EnvelopeState::FastRelease,
    ] {
        assert_eq!(s.released(), EnvelopeState::Release);
    }
    assert_eq!(EnvelopeState::Idle.released(), EnvelopeState::Idle);
}

#[test]
fn segments_follow_adsr_order() {
    let mut s = EnvelopeState::Attack;
    s = s.advanced(false);
    assert_eq!(s, EnvelopeState::Attack);
    s = s.advanced(true);
    assert_eq!(s, EnvelopeState::Decay);
    s = s.advanced(true);
    assert_eq!(s, EnvelopeState::Sustain);
    s = s.advanced(true);
    assert_eq!(s, EnvelopeState::Sustain);
    s = s.released();
    assert!(s.is_releasing());
    s = s.advanced(false);
    assert_eq!(s, EnvelopeState::Release);
    s = s.advanced(true);
    assert_eq!(s, EnvelopeState::Idle);
    assert!(s.is_finished());
    assert_eq!(s.advanced(true), EnvelopeState::Idle);
}

#[test]
fn fast_release_ends_in_idle() {
    let s = EnvelopeState::FastRelease;
    assert!(s.is_releasing());
    assert!(!s.is_finished());
    assert_eq!(s.advanced(false), EnvelopeState::FastRelease);
    assert_eq!(s.advanced(true), EnvelopeState::Idle);
}

#[test]
fn only_fades_are_releasing_and_only_idle_is_finished() {
    let all = [
        EnvelopeState::Idle,
        EnvelopeState::Attack,
        EnvelopeState::Decay,
        EnvelopeState::Sustain,
        EnvelopeState::Release,
        EnvelopeState::FastRelease,
    ];
    for s in all {
        assert_eq!(s.is_releasing(), s == EnvelopeState::Release || s == EnvelopeState::FastRelease);
        assert_eq!(s.is_finished(), s == EnvelopeState::Idle);
    }
}

#[test]
fn note_on_and_fast_release_reach_any_state() {
    let all = [
        EnvelopeState::Idle,
        EnvelopeState::Attack,
        EnvelopeState::Decay,
        EnvelopeState::Sustain,
        EnvelopeState::Release,
        EnvelopeState::FastRelease,
    ];
    for s in all {
        assert_eq!(s.triggered(), EnvelopeState::Attack);
        assert_eq!(s.fast_released(), EnvelopeState::FastRelease);
    }
    // A note-off during the fast fade switches to the normal release.
    assert_eq!(EnvelopeState::FastRelease.released(), EnvelopeState::Release);
}
