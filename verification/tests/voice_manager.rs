use polysynth::voice_manager::{TerminatedVoice, VoiceManager, VoicePhase, VoiceSlot, MAX_VOICES};

fn fill(m: &mut VoiceManager) {
    for n in 0..MAX_VOICES {
        let a = m.note_on(Some(n as i32), 0, 40 + n as u8);
        assert_eq!(a.slot, n);
        assert!(!a.stolen);
    }
}

fn none_finished() -> [bool; MAX_VOICES] {
    [false; MAX_VOICES]
}

#[test]
fn new_pool_is_empty() {
    let m = VoiceManager::new();
    assert_eq!(m.active_voices(), 0);
    assert_eq!(m.fading_voices(), 0);
    assert_eq!(m.next_internal_id(), 0);
    for i in 0..MAX_VOICES {
        assert_eq!(m.slot(i), None);
    }
}

#[test]
fn note_on_takes_first_free_slot() {
    let mut m = VoiceManager::new();
    let a = m.note_on(None, 1, 60);
    let b = m.note_on(Some(5), 2, 64);
    assert_eq!(a.slot, 0);
    assert_eq!(b.slot, 1);
    assert_eq!(m.active_voices(), 2);
    assert_eq!(
        m.slot(1),
        Some(VoiceSlot { voice_id: Some(5), channel: 2, note: 64, internal_id: 1, phase: VoicePhase::Held })
    );
    // Free slot 0 and the next note lands there again.
    let mut finished = none_finished();
    finished[0] = true;
    let done = m.remove_finished(finished, &[]);
    assert_eq!(done, vec![TerminatedVoice { voice_id: None, channel: 1, note: 60 }]);
    let c = m.note_on(None, 1, 67);
    assert_eq!(c.slot, 0);
    assert!(!c.stolen);
    assert_eq!(m.slot(0).unwrap().internal_id, 2);
}

#[test]
fn full_pool_steals_oldest_voice_into_a_fast_fade() {
    let mut m = VoiceManager::new();
    fill(&mut m);
    assert_eq!(m.active_voices(), MAX_VOICES);
    let a = m.note_on(Some(100), 3, 90);
    assert_eq!(a.slot, 0);
    assert!(a.stolen);
    assert_eq!(m.active_voices(), MAX_VOICES);
    // The stolen voice keeps sounding in its fast fade; nothing is reported yet.
    assert_eq!(m.fading_voices(), 1);
    assert_eq!(
        m.fading_voice(0),
        VoiceSlot { voice_id: Some(0), channel: 0, note: 40, internal_id: 0, phase: VoicePhase::FastReleased }
    );
    assert_eq!(m.slot(0).unwrap().voice_id, Some(100));
    // The replacement is now the youngest; slot 1 holds the oldest.
    let b = m.note_on(Some(101), 3, 91);
    assert_eq!(b.slot, 1);
    assert_eq!(m.fading_voices(), 2);
    assert_eq!(m.fading_voice(1).voice_id, Some(1));
    // The first fade ends: only then is that voice reported.
    let done = m.remove_finished(none_finished(), &[true, false]);
    assert_eq!(done, vec![TerminatedVoice { voice_id: Some(0), channel: 0, note: 40 }]);
    assert_eq!(m.fading_voices(), 1);
    assert_eq!(m.fading_voice(0).voice_id, Some(1));
}

#[test]
fn full_pool_prefers_oldest_releasing_voice() {
    let mut m = VoiceManager::new();
    fill(&mut m);
    assert_eq!(m.note_off(None, 0, 50), vec![10]);
    assert_eq!(m.choke(Some(7), 0, 0), vec![7]);
    let a = m.note_on(None, 0, 100);
    assert_eq!(a.slot, 7);
    assert!(a.stolen);
    assert_eq!(m.fading_voice(0).note, 47);
    let b = m.note_on(None, 0, 101);
    assert_eq!(b.slot, 10);
    assert_eq!(m.fading_voice(1).note, 50);
    assert_eq!(m.fading_voice(1).phase, VoicePhase::FastReleased);
    // No releasing voice is left: back to the oldest overall.
    let c = m.note_on(None, 0, 102);
    assert_eq!(c.slot, 0);
    assert_eq!(m.fading_voices(), 3);
}

#[test]
fn note_off_by_id_or_by_channel_and_note() {
    let mut m = VoiceManager::new();
    m.note_on(Some(1), 0, 60);
    m.note_on(Some(2), 0, 60);
    m.note_on(None, 1, 60);
    m.note_on(None, 0, 62);
    // An ID selects only that voice, whatever channel and note say.
    assert_eq!(m.note_off(Some(2), 9, 9), vec![1]);
    assert_eq!(m.slot(0).unwrap().phase, VoicePhase::Held);
    assert_eq!(m.slot(1).unwrap().phase, VoicePhase::Released);
    // Without an ID every voice on that channel and note is released.
    assert_eq!(m.note_off(None, 0, 60), vec![0, 1]);
    assert_eq!(m.slot(0).unwrap().phase, VoicePhase::Released);
    assert_eq!(m.slot(2).unwrap().phase, VoicePhase::Held);
    assert_eq!(m.slot(3).unwrap().phase, VoicePhase::Held);
    // An unknown ID releases nothing.
    assert_eq!(m.note_off(Some(42), 0, 62), Vec::<usize>::new());
    assert_eq!(m.active_voices(), 4);
}

#[test]
fn choke_puts_matching_voices_in_the_fast_fade() {
    let mut m = VoiceManager::new();
    m.note_on(None, 0, 60);
    m.note_on(None, 0, 61);
    m.note_on(None, 0, 60);
    assert_eq!(m.choke(None, 0, 60), vec![0, 2]);
    assert_eq!(m.slot(0).unwrap().phase, VoicePhase::FastReleased);
    assert_eq!(m.slot(1).unwrap().phase, VoicePhase::Held);
    assert_eq!(m.slot(2).unwrap().phase, VoicePhase::FastReleased);
    assert_eq!(m.active_voices(), 3);
    // A later note-off turns the fast fade into the normal release.
    assert_eq!(m.note_off(None, 0, 60), vec![0, 2]);
    assert_eq!(m.slot(0).unwrap().phase, VoicePhase::Released);
}

#[test]
fn remove_finished_reports_in_slot_order() {
    let mut m = VoiceManager::new();
    m.note_on(Some(10), 0, 60);
    m.note_on(Some(11), 0, 61);
    m.note_on(Some(12), 0, 62);
    let mut finished = none_finished();
    finished[2] = true;
    finished[0] = true;
    finished[5] = true; // an empty slot: nothing to report
    let done = m.remove_finished(finished, &[]);
    assert_eq!(
        done,
        vec![
            TerminatedVoice { voice_id: Some(10), channel: 0, note: 60 },
            TerminatedVoice { voice_id: Some(12), channel: 0, note: 62 },
        ]
    );
    assert_eq!(m.active_voices(), 1);
    assert_eq!(m.slot(0), None);
    assert_eq!(m.slot(1).unwrap().voice_id, Some(11));
}

#[test]
fn reset_drops_voices_but_keeps_age_counter() {
    let mut m = VoiceManager::new();
    fill(&mut m);
    m.note_on(None, 0, 61);
    assert_eq!(m.fading_voices(), 1);
    m.reset();
    assert_eq!(m.active_voices(), 0);
    assert_eq!(m.fading_voices(), 0);
    assert_eq!(m.next_internal_id(), 17);
    let a = m.note_on(None, 0, 62);
    assert_eq!(a.slot, 0);
    assert_eq!(m.slot(0).unwrap().internal_id, 17);
}
