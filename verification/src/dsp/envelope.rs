//! State machine of the analog-style ADSR envelope.
//!
//! An envelope runs Attack -> Decay -> Sustain while the key is held; a note-off
//! moves it to Release, a choke to the short FastRelease fade, and either fade
//! ends in Idle. The level arithmetic of each segment decides when a segment is
//! complete; this module decides what follows.

use vstd::prelude::*;

verus! {

#[derive(Debug, Clone, Copy, PartialEq, Eq, Structural)]
pub enum EnvelopeState {
    Idle,
    Attack,
    Decay,
    Sustain,
    Release,
    /// Quick linear fade used when the voice is stolen, to avoid clicks.
    FastRelease,
}

/// Progress of a state through the envelope: the sounding segments in order,
/// then the two fades, then Idle.
pub open spec fn stage(s: EnvelopeState) -> int {
    match s {
        EnvelopeState::Attack => 0,
        EnvelopeState::Decay => 1,
        EnvelopeState::Sustain => 2,
        EnvelopeState::Release => 3,
        EnvelopeState::FastRelease => 3,
        EnvelopeState::Idle => 4,
    }
}

pub open spec fn spec_is_releasing(s: EnvelopeState) -> bool {
    s == EnvelopeState::Release || s == EnvelopeState::FastRelease
}

/// The state after a note-off: every running state goes to Release.
pub open spec fn spec_released(s: EnvelopeState) -> EnvelopeState {
    if s == EnvelopeState::Idle {
        EnvelopeState::Idle
    } else {
        EnvelopeState::Release
    }
}

/// The state after one sample, given whether the current segment completed
/// on that sample. Sustain lasts until a note-off; Idle does nothing.
pub open spec fn spec_advanced(s: EnvelopeState, segment_complete: bool) -> EnvelopeState {
    match s {
        EnvelopeState::Attack => if segment_complete { EnvelopeState::Decay } else { s },
        EnvelopeState::Decay => if segment_complete { EnvelopeState::Sustain } else { s },
        EnvelopeState::Release => if segment_complete { EnvelopeState::Idle } else { s },
        EnvelopeState::FastRelease => if segment_complete { EnvelopeState::Idle } else { s },
        _ => s,
    }
}

/// The state after a note-on: any state, a running one included, restarts
/// the attack (from the current level, so a retrigger does not click).
pub open spec fn spec_triggered(s: EnvelopeState) -> EnvelopeState {
    EnvelopeState::Attack
}

/// The state after a fast release (a stolen or choked voice): any state,
/// Idle included, takes the short fade.
pub open spec fn spec_fast_released(s: EnvelopeState) -> EnvelopeState {
    EnvelopeState::FastRelease
}

/// What can happen to an envelope other than a note-on.
pub enum EnvelopeEvent {
    /// One sample, and whether the current segment completed on it.
    Sample(bool),
    NoteOff,
    FastRelease,
}

pub open spec fn after_event(s: EnvelopeState, e: EnvelopeEvent) -> EnvelopeState {
    match e {
        EnvelopeEvent::Sample(segment_complete) => spec_advanced(s, segment_complete),
        EnvelopeEvent::NoteOff => spec_released(s),
        EnvelopeEvent::FastRelease => spec_fast_released(s),
    }
}

/// The state reached from `s` through `events`, in order.
pub open spec fn after_events(s: EnvelopeState, events: Seq<EnvelopeEvent>) -> EnvelopeState
    decreases events.len(),
{
    if events.len() == 0 {
        s
    } else {
        after_events(after_event(s, events[0]), events.drop_first())
    }
}

/// The state reached from `s` after one sample per entry of `steps`, each
/// entry saying whether the segment completed on that sample.
pub open spec fn advanced_by(s: EnvelopeState, steps: Seq<bool>) -> EnvelopeState
    decreases steps.len(),
{
    if steps.len() == 0 {
        s
    } else {
        advanced_by(spec_advanced(s, steps[0]), steps.drop_first())
    }
}

impl EnvelopeState {
    /// True once the envelope has returned to Idle.
    pub fn is_finished(self) -> (b: bool)
        ensures
            b == (self == EnvelopeState::Idle),
    {
        match self {
            EnvelopeState::Idle => true,
            _ => false,
        }
    }

    /// True in either fade.
    pub fn is_releasing(self) -> (b: bool)
        ensures
            b == spec_is_releasing(self),
    {
        match self {
            EnvelopeState::Release | EnvelopeState::FastRelease => true,
            _ => false,
        }
    }

    /// The state after a note-off.
    pub fn released(self) -> (s: EnvelopeState)
        ensures
            s == spec_released(self),
    {
        match self {
            EnvelopeState::Idle => EnvelopeState::Idle,
            _ => EnvelopeState::Release,
        }
    }

    /// The state after a note-on.
    pub fn triggered(self) -> (s: EnvelopeState)
        ensures
            s == spec_triggered(self),
    {
        EnvelopeState::Attack
    }

    /// The state after a fast release.
    pub fn fast_released(self) -> (s: EnvelopeState)
        ensures
            s == spec_fast_released(self),
    {
        EnvelopeState::FastRelease
    }

    /// The state after one sample of the envelope.
    pub fn advanced(self, segment_complete: bool) -> (s: EnvelopeState)
        ensures
            s == spec_advanced(self, segment_complete),
    {
        match self {
            EnvelopeState::Attack => if segment_complete {
                EnvelopeState::Decay
            } else {
                self
            },
            EnvelopeState::Decay => if segment_complete {
                EnvelopeState::Sustain
            } else {
                self
            },
            EnvelopeState::Release | EnvelopeState::FastRelease => if segment_complete {
                EnvelopeState::Idle
            } else {
                self
            },
            EnvelopeState::Idle | EnvelopeState::Sustain => self,
        }
    }
}

/// An envelope never moves backwards: each sample keeps or raises its stage,
/// whatever the segments do.
pub proof fn lemma_stage_never_decreases(s: EnvelopeState, steps: Seq<bool>)
    ensures
        stage(s) <= stage(advanced_by(s, steps)),
    decreases steps.len(),
{
    if steps.len() > 0 {
        lemma_stage_never_decreases(spec_advanced(s, steps[0]), steps.drop_first());
    }
}

/// A finished envelope stays finished on any number of samples and
/// note-offs; only a note-on or a fast release starts it again.
pub proof fn lemma_finished_is_final(events: Seq<EnvelopeEvent>)
    requires
        forall|i: int| 0 <= i < events.len() ==> !(#[trigger] events[i] is FastRelease),
    ensures
        after_events(EnvelopeState::Idle, events) == EnvelopeState::Idle,
    decreases events.len(),
{
    if events.len() > 0 {
        assert forall|i: int| 0 <= i < events.drop_first().len()
            implies !(#[trigger] events.drop_first()[i] is FastRelease) by {
            assert(events.drop_first()[i] == events[i + 1]);
        }
        lemma_finished_is_final(events.drop_first());
    }
}

/// A releasing envelope never sounds again until the next note-on: through
/// any samples, note-offs and fast releases it stays in a fade or is Idle.
pub proof fn lemma_release_is_final(s: EnvelopeState, events: Seq<EnvelopeEvent>)
    requires
        spec_is_releasing(s) || s == EnvelopeState::Idle,
    ensures
        spec_is_releasing(after_events(s, events)) || after_events(s, events) == EnvelopeState::Idle,
    decreases events.len(),
{
    if events.len() > 0 {
        lemma_release_is_final(after_event(s, events[0]), events.drop_first());
    }
}

/// A sample on which the current segment does not complete leaves every
/// state where it is; one on which it completes moves a segment on, except
/// that Sustain lasts until a note-off and Idle stays Idle: Attack goes to
/// Decay, Decay to Sustain, and each fade to Idle.
pub proof fn lemma_sample_moves_only_on_completion(s: EnvelopeState)
    ensures
        spec_advanced(s, false) == s,
        (spec_advanced(s, true) == s) <==> (s == EnvelopeState::Sustain || s == EnvelopeState::Idle),
        s == EnvelopeState::Attack ==> spec_advanced(s, true) == EnvelopeState::Decay,
        s == EnvelopeState::Decay ==> spec_advanced(s, true) == EnvelopeState::Sustain,
        spec_is_releasing(s) ==> spec_advanced(s, true) == EnvelopeState::Idle,
{
}

/// A note-off sends every running envelope into Release and leaves an idle
/// one idle; a note-on always restarts the attack; a fast release always
/// starts the fast fade. The fades are exactly the releasing states.
pub proof fn lemma_note_events(s: EnvelopeState)
    ensures
        s != EnvelopeState::Idle ==> spec_released(s) == EnvelopeState::Release,
        s == EnvelopeState::Idle ==> spec_released(s) == EnvelopeState::Idle,
        spec_triggered(s) == EnvelopeState::Attack,
        spec_fast_released(s) == EnvelopeState::FastRelease,
        spec_is_releasing(s) <==> (s == EnvelopeState::Release || s == EnvelopeState::FastRelease),
{
}

/// Number of samples in `steps` on which a segment completed.
pub open spec fn completions(steps: Seq<bool>) -> nat
    decreases steps.len(),
{
    if steps.len() == 0 {
        0
    } else {
        completions(steps.drop_first()) + if steps[0] { 1nat } else { 0nat }
    }
}

/// Held without a note-off, a sounding envelope reaches Sustain once the
/// segments still ahead of it (attack and decay from Attack) have completed,
/// and then holds there.
pub proof fn lemma_held_note_reaches_sustain(s: EnvelopeState, steps: Seq<bool>)
    requires
        stage(s) <= 2,
        completions(steps) >= 2 - stage(s),
    ensures
        advanced_by(s, steps) == EnvelopeState::Sustain,
    decreases steps.len(),
{
    if steps.len() > 0 {
        lemma_held_note_reaches_sustain(spec_advanced(s, steps[0]), steps.drop_first());
    }
}

} // verus!
