//! Fixed-pool polyphonic voice management with voice stealing.
//!
//! The pool holds, per slot, what the allocation policy reads of a sounding
//! voice: the host's voice ID, its channel and note, an age stamp and the
//! phase of its envelope that note events decide. A voice stolen from a full
//! pool leaves its slot to the new note and fades out in FastRelease; it is
//! reported ended when that fade finishes. The audio of each voice is rendered
//! by the caller, which keeps one voice per slot and one per fading voice and
//! follows the positions handed out here.

use vstd::prelude::*;

use crate::dsp::envelope::{
    spec_advanced, spec_fast_released, spec_is_releasing, spec_released, spec_triggered,
    EnvelopeState,
};

verus! {

pub const MAX_VOICES: usize = 16;

/// A voice that ended and whose ID must be reported to the host via a
/// `VoiceTerminated` event.
#[derive(Debug, Clone, Copy, PartialEq, Eq, Structural)]
pub struct TerminatedVoice {
    pub voice_id: Option<i32>,
    pub channel: u8,
    pub note: u8,
}

/// The phase of a voice's envelope as note events decide it: held since its
/// note-on, released by a note-off, or in the fast fade of a steal or choke.
#[derive(Debug, Clone, Copy, PartialEq, Eq, Structural)]
pub enum VoicePhase {
    /// Attack, Decay or Sustain.
    Held,
    /// Release.
    Released,
    /// FastRelease.
    FastReleased,
}

/// What the pool records of a sounding voice.
#[derive(Debug, Clone, Copy, PartialEq, Eq, Structural)]
pub struct VoiceSlot {
    /// The voice ID the host assigned to this note, if any.
    pub voice_id: Option<i32>,
    pub channel: u8,
    pub note: u8,
    /// Stamp from a counter that rises with every note-on; smaller is older.
    pub internal_id: u64,
    pub phase: VoicePhase,
}

/// Where a new note was placed, and whether the voice that held the slot was
/// stolen (it now fades out at the end of the fading list).
#[derive(Debug, Clone, Copy, PartialEq, Eq, Structural)]
pub struct VoiceAllocation {
    pub slot: usize,
    pub stolen: bool,
}

pub open spec fn report(v: VoiceSlot) -> TerminatedVoice {
    TerminatedVoice { voice_id: v.voice_id, channel: v.channel, note: v.note }
}

pub open spec fn fresh_voice(voice_id: Option<i32>, channel: u8, note: u8, internal_id: u64) -> VoiceSlot {
    VoiceSlot { voice_id, channel, note, internal_id, phase: VoicePhase::Held }
}

pub open spec fn with_phase(v: VoiceSlot, phase: VoicePhase) -> VoiceSlot {
    VoiceSlot { phase, ..v }
}

/// Whether a voice's envelope is in Release or FastRelease.
pub open spec fn is_releasing(v: VoiceSlot) -> bool {
    v.phase != VoicePhase::Held
}

/// The phase of an envelope state.
pub open spec fn phase_of(s: EnvelopeState) -> VoicePhase {
    match s {
        EnvelopeState::Release => VoicePhase::Released,
        EnvelopeState::FastRelease => VoicePhase::FastReleased,
        _ => VoicePhase::Held,
    }
}

/// A host addresses a voice by its ID when it gives one, otherwise every voice
/// playing `note` on `channel`.
pub open spec fn spec_voice_matches(v: VoiceSlot, voice_id: Option<i32>, channel: u8, note: u8) -> bool {
    match voice_id {
        Some(id) => v.voice_id == Some(id),
        None => v.channel == channel && v.note == note,
    }
}

pub open spec fn empty_pool() -> Seq<Option<VoiceSlot>> {
    Seq::new(MAX_VOICES as nat, |i: int| None)
}

/// The slots' part of the pool invariant: a fixed number of slots, and age
/// stamps that are older than the counter and distinct among their voices.
pub open spec fn slots_well_formed(slots: Seq<Option<VoiceSlot>>, next_id: u64) -> bool {
    &&& slots.len() == MAX_VOICES
    &&& forall|i: int| 0 <= i < slots.len() && #[trigger] slots[i] is Some ==> slots[i]->0.internal_id < next_id
    &&& forall|i: int, j: int|
        0 <= i < slots.len() && 0 <= j < slots.len() && i != j && #[trigger] slots[i] is Some
            && #[trigger] slots[j] is Some ==> slots[i]->0.internal_id != slots[j]->0.internal_id
}

/// The pool invariant: well-formed slots, and fading voices in FastRelease
/// whose age stamps are older than the counter and distinct from those of
/// every other sounding voice.
pub open spec fn pool_well_formed(slots: Seq<Option<VoiceSlot>>, fading: Seq<VoiceSlot>, next_id: u64) -> bool {
    &&& slots_well_formed(slots, next_id)
    &&& forall|k: int| 0 <= k < fading.len() ==> (#[trigger] fading[k]).internal_id < next_id
        && fading[k].phase == VoicePhase::FastReleased
    &&& forall|k1: int, k2: int| 0 <= k1 < fading.len() && 0 <= k2 < fading.len() && k1 != k2
        ==> (#[trigger] fading[k1]).internal_id != (#[trigger] fading[k2]).internal_id
    &&& forall|k: int, i: int| 0 <= k < fading.len() && 0 <= i < slots.len() && #[trigger] slots[i] is Some
        ==> (#[trigger] fading[k]).internal_id != slots[i]->0.internal_id
}

pub open spec fn has_free(slots: Seq<Option<VoiceSlot>>) -> bool {
    exists|i: int| 0 <= i < slots.len() && #[trigger] slots[i] is None
}

pub open spec fn is_first_free(slots: Seq<Option<VoiceSlot>>, i: int) -> bool {
    &&& 0 <= i < slots.len()
    &&& slots[i] is None
    &&& forall|j: int| 0 <= j < i ==> #[trigger] slots[j] is Some
}

pub open spec fn is_releasing_at(slots: Seq<Option<VoiceSlot>>, i: int) -> bool {
    0 <= i < slots.len() && slots[i] is Some && is_releasing(slots[i]->0)
}

pub open spec fn has_releasing(slots: Seq<Option<VoiceSlot>>) -> bool {
    exists|i: int| #[trigger] is_releasing_at(slots, i)
}

/// The voice to steal from a full pool: the oldest releasing voice if any
/// voice is releasing, otherwise the oldest voice.
pub open spec fn is_steal_choice(slots: Seq<Option<VoiceSlot>>, i: int) -> bool {
    &&& 0 <= i < slots.len()
    &&& slots[i] is Some
    &&& if has_releasing(slots) {
        &&& is_releasing(slots[i]->0)
        &&& forall|j: int| #[trigger] is_releasing_at(slots, j)
            ==> slots[i]->0.internal_id <= slots[j]->0.internal_id
    } else {
        forall|j: int| 0 <= j < slots.len() && #[trigger] slots[j] is Some
            ==> slots[i]->0.internal_id <= slots[j]->0.internal_id
    }
}

/// Number of sounding voices.
pub open spec fn active_count(slots: Seq<Option<VoiceSlot>>) -> nat
    decreases slots.len(),
{
    if slots.len() == 0 {
        0
    } else {
        active_count(slots.drop_last()) + if slots.last() is Some { 1nat } else { 0nat }
    }
}

/// `new` is `old` with every slot voice that matches put in `phase`;
/// `released` lists the slots of those voices in increasing order.
pub open spec fn sets_phase_matching(
    old: Seq<Option<VoiceSlot>>,
    new: Seq<Option<VoiceSlot>>,
    released: Seq<usize>,
    voice_id: Option<i32>,
    channel: u8,
    note: u8,
    phase: VoicePhase,
) -> bool {
    &&& new.len() == old.len()
    &&& forall|i: int| 0 <= i < old.len() ==> #[trigger] new[i] == if old[i] is Some
        && spec_voice_matches(old[i]->0, voice_id, channel, note) {
        Some(with_phase(old[i]->0, phase))
    } else {
        old[i]
    }
    &&& forall|k: int| 0 <= k < released.len() ==> {
        let i = #[trigger] released[k] as int;
        &&& 0 <= i < old.len()
        &&& old[i] is Some
        &&& spec_voice_matches(old[i]->0, voice_id, channel, note)
    }
    &&& forall|k1: int, k2: int| 0 <= k1 < k2 < released.len() ==> #[trigger] released[k1] < #[trigger] released[k2]
    &&& forall|i: int| 0 <= i < old.len() && #[trigger] old[i] is Some
        && spec_voice_matches(old[i]->0, voice_id, channel, note) ==> released.contains(i as usize)
}

/// Reports of the voices among the first `n` slots that are sounding and
/// finished, in slot order.
pub open spec fn finished_reports(slots: Seq<Option<VoiceSlot>>, finished: Seq<bool>, n: nat) -> Seq<TerminatedVoice>
    decreases n,
{
    if n == 0 {
        Seq::empty()
    } else {
        let k = n - 1;
        finished_reports(slots, finished, (n - 1) as nat) + if slots[k] is Some && finished[k] {
            seq![report(slots[k]->0)]
        } else {
            Seq::empty()
        }
    }
}

/// The fading voices that are kept, of the first `n`, in their order.
pub open spec fn kept_fading(fading: Seq<VoiceSlot>, finished: Seq<bool>, n: nat) -> Seq<VoiceSlot>
    decreases n,
{
    if n == 0 {
        Seq::empty()
    } else {
        let k = n - 1;
        kept_fading(fading, finished, (n - 1) as nat) + if finished[k] {
            Seq::empty()
        } else {
            seq![fading[k]]
        }
    }
}

/// Reports of the finished fading voices, of the first `n`, in their order.
pub open spec fn fading_reports(fading: Seq<VoiceSlot>, finished: Seq<bool>, n: nat) -> Seq<TerminatedVoice>
    decreases n,
{
    if n == 0 {
        Seq::empty()
    } else {
        let k = n - 1;
        fading_reports(fading, finished, (n - 1) as nat) + if finished[k] {
            seq![report(fading[k])]
        } else {
            Seq::empty()
        }
    }
}

/// The reports of `remove_finished` for slot voices are exactly those of the
/// voices it removes: every sounding slot voice flagged finished is reported,
/// and every report is that of such a voice.
pub proof fn lemma_slot_reports_are_removed_voices(slots: Seq<Option<VoiceSlot>>, finished: Seq<bool>, n: nat)
    requires
        n <= slots.len(),
        n <= finished.len(),
    ensures
        forall|i: int| 0 <= i < n && #[trigger] slots[i] is Some && finished[i]
            ==> finished_reports(slots, finished, n).contains(report(slots[i]->0)),
        forall|k: int| #![trigger finished_reports(slots, finished, n)[k]] 0 <= k < finished_reports(slots, finished, n).len() ==> exists|i: int|
            0 <= i < n && #[trigger] slots[i] is Some && finished[i]
                && finished_reports(slots, finished, n)[k] == report(slots[i]->0),
    decreases n,
{
    if n > 0 {
        let m = (n - 1) as nat;
        lemma_slot_reports_are_removed_voices(slots, finished, m);
        let prev = finished_reports(slots, finished, m);
        let cur = finished_reports(slots, finished, n);
        assert forall|i: int| 0 <= i < n && #[trigger] slots[i] is Some && finished[i]
            implies cur.contains(report(slots[i]->0)) by {
            if i < m {
                let k = choose|k: int| 0 <= k < prev.len() && prev[k] == report(slots[i]->0);
                assert(cur[k] == prev[k]);
            } else {
                assert(cur[prev.len() as int] == report(slots[i]->0));
            }
        }
        assert forall|k: int| #![trigger cur[k]] 0 <= k < cur.len() implies exists|i: int|
            0 <= i < n && #[trigger] slots[i] is Some && finished[i] && cur[k] == report(slots[i]->0) by {
            if k < prev.len() {
                assert(cur[k] == prev[k]);
                let i = choose|i: int| 0 <= i < m && #[trigger] slots[i] is Some && finished[i] && prev[k] == report(slots[i]->0);
                assert(slots[i] is Some);
            } else {
                assert(slots[m as int] is Some);
            }
        }
    }
}

/// `remove_finished` keeps exactly the fading voices not flagged finished and
/// reports exactly those flagged: every fading voice is kept or reported
/// according to its flag, and every kept voice or report comes from a fading
/// voice with that flag.
pub proof fn lemma_fading_split_by_flags(fading: Seq<VoiceSlot>, finished: Seq<bool>, n: nat)
    requires
        n <= fading.len(),
        n <= finished.len(),
    ensures
        forall|j: int| 0 <= j < n && !finished[j] ==> kept_fading(fading, finished, n).contains(#[trigger] fading[j]),
        forall|j: int| 0 <= j < n && finished[j] ==> fading_reports(fading, finished, n).contains(report(#[trigger] fading[j])),
        forall|k: int| #![trigger kept_fading(fading, finished, n)[k]] 0 <= k < kept_fading(fading, finished, n).len() ==> exists|j: int|
            0 <= j < n && !finished[j] && kept_fading(fading, finished, n)[k] == #[trigger] fading[j],
        forall|k: int| #![trigger fading_reports(fading, finished, n)[k]] 0 <= k < fading_reports(fading, finished, n).len() ==> exists|j: int|
            0 <= j < n && finished[j] && fading_reports(fading, finished, n)[k] == report(#[trigger] fading[j]),
    decreases n,
{
    if n > 0 {
        let m = (n - 1) as nat;
        lemma_fading_split_by_flags(fading, finished, m);
        let pk = kept_fading(fading, finished, m);
        let ck = kept_fading(fading, finished, n);
        let pr = fading_reports(fading, finished, m);
        let cr = fading_reports(fading, finished, n);
        assert forall|j: int| 0 <= j < n && !finished[j] implies ck.contains(#[trigger] fading[j]) by {
            if j < m {
                let k = choose|k: int| 0 <= k < pk.len() && pk[k] == fading[j];
                assert(ck[k] == pk[k]);
            } else {
                assert(ck[pk.len() as int] == fading[j]);
            }
        }
        assert forall|j: int| 0 <= j < n && finished[j] implies cr.contains(report(#[trigger] fading[j])) by {
            if j < m {
                let k = choose|k: int| 0 <= k < pr.len() && pr[k] == report(fading[j]);
                assert(cr[k] == pr[k]);
            } else {
                assert(cr[pr.len() as int] == report(fading[j]));
            }
        }
        assert forall|k: int| #![trigger ck[k]] 0 <= k < ck.len() implies exists|j: int|
            0 <= j < n && !finished[j] && ck[k] == #[trigger] fading[j] by {
            if k < pk.len() {
                assert(ck[k] == pk[k]);
                let j = choose|j: int| 0 <= j < m && !finished[j] && pk[k] == #[trigger] fading[j];
                assert(ck[k] == fading[j]);
            } else {
                assert(ck[k] == fading[m as int]);
            }
        }
        assert forall|k: int| #![trigger cr[k]] 0 <= k < cr.len() implies exists|j: int|
            0 <= j < n && finished[j] && cr[k] == report(#[trigger] fading[j]) by {
            if k < pr.len() {
                assert(cr[k] == pr[k]);
                let j = choose|j: int| 0 <= j < m && finished[j] && pr[k] == report(#[trigger] fading[j]);
                assert(cr[k] == report(fading[j]));
            } else {
                assert(cr[k] == report(fading[m as int]));
            }
        }
    }
}

/// The pool's phase of a voice stays exact while the voice plays: a sample
/// changes the phase of an envelope only by finishing it, and the envelope
/// transitions that the pool applies give the phases it records: note-on
/// Held, note-off Released, fast release (steal or choke) FastReleased. A
/// voice releases exactly when its phase is not Held.
pub proof fn lemma_phase_tracks_envelope(s: EnvelopeState, segment_complete: bool)
    ensures
        spec_advanced(s, segment_complete) == EnvelopeState::Idle
            || phase_of(spec_advanced(s, segment_complete)) == phase_of(s),
        phase_of(spec_triggered(s)) == VoicePhase::Held,
        s != EnvelopeState::Idle ==> phase_of(spec_released(s)) == VoicePhase::Released,
        phase_of(spec_fast_released(s)) == VoicePhase::FastReleased,
        spec_is_releasing(s) <==> phase_of(s) != VoicePhase::Held,
{
}

proof fn lemma_active_count_update(s: Seq<Option<VoiceSlot>>, i: int, v: Option<VoiceSlot>)
    requires
        0 <= i < s.len(),
    ensures
        active_count(s.update(i, v)) + (if s[i] is Some { 1int } else { 0int })
            == active_count(s) + (if v is Some { 1int } else { 0int }),
    decreases s.len(),
{
    let t = s.update(i, v);
    if i == s.len() - 1 {
        assert(t.drop_last() =~= s.drop_last());
    } else {
        assert(t.drop_last() =~= s.drop_last().update(i, v));
        lemma_active_count_update(s.drop_last(), i, v);
    }
}

proof fn lemma_active_count_bounds(s: Seq<Option<VoiceSlot>>)
    ensures
        active_count(s) <= s.len(),
        (forall|i: int| 0 <= i < s.len() ==> #[trigger] s[i] is Some) ==> active_count(s) == s.len(),
    decreases s.len(),
{
    if s.len() > 0 {
        lemma_active_count_bounds(s.drop_last());
        assert(forall|i: int| 0 <= i < s.len() - 1 ==> #[trigger] s.drop_last()[i] == s[i]);
    }
}

proof fn lemma_active_count_empty(n: nat)
    ensures
        active_count(Seq::new(n, |i: int| None::<VoiceSlot>)) == 0,
    decreases n,
{
    if n > 0 {
        let s = Seq::new(n, |i: int| None::<VoiceSlot>);
        assert(s.drop_last() =~= Seq::new((n - 1) as nat, |i: int| None::<VoiceSlot>));
        lemma_active_count_empty((n - 1) as nat);
    }
}

proof fn lemma_active_count_same_shape(a: Seq<Option<VoiceSlot>>, b: Seq<Option<VoiceSlot>>)
    requires
        a.len() == b.len(),
        forall|i: int| 0 <= i < a.len() ==> (#[trigger] a[i] is Some) == (b[i] is Some),
    ensures
        active_count(a) == active_count(b),
    decreases a.len(),
{
    if a.len() > 0 {
        assert(forall|i: int| 0 <= i < a.len() - 1 ==> #[trigger] a.drop_last()[i] == a[i]);
        assert(forall|i: int| 0 <= i < b.len() - 1 ==> #[trigger] b.drop_last()[i] == b[i]);
        lemma_active_count_same_shape(a.drop_last(), b.drop_last());
    }
}

proof fn lemma_active_count_after_removal(old: Seq<Option<VoiceSlot>>, new: Seq<Option<VoiceSlot>>, finished: Seq<bool>, n: nat)
    requires
        n <= old.len(),
        new.len() == old.len(),
        finished.len() == old.len(),
        forall|i: int| 0 <= i < old.len() ==> #[trigger] new[i] == if old[i] is Some && finished[i] {
            None
        } else {
            old[i]
        },
    ensures
        active_count(new.take(n as int)) + finished_reports(old, finished, n).len() == active_count(old.take(n as int)),
    decreases n,
{
    if n > 0 {
        lemma_active_count_after_removal(old, new, finished, (n - 1) as nat);
        assert(new.take(n as int).drop_last() =~= new.take(n - 1));
        assert(old.take(n as int).drop_last() =~= old.take(n - 1));
    }
}

/// A pool never holds more than `MAX_VOICES` sounding voices.
pub proof fn lemma_active_voices_bounded(slots: Seq<Option<VoiceSlot>>, next_id: u64)
    requires
        slots_well_formed(slots, next_id),
    ensures
        active_count(slots) <= MAX_VOICES,
{
    lemma_active_count_bounds(slots);
}

/// In a well-formed pool there is at most one voice to steal.
pub proof fn lemma_steal_choice_unique(slots: Seq<Option<VoiceSlot>>, next_id: u64, i: int, j: int)
    requires
        slots_well_formed(slots, next_id),
        is_steal_choice(slots, i),
        is_steal_choice(slots, j),
    ensures
        i == j,
{
    if has_releasing(slots) {
        assert(is_releasing_at(slots, i));
        assert(is_releasing_at(slots, j));
    }
}

/// A host event with a voice ID addresses exactly the voice carrying that ID,
/// whatever channel and note the event names; one without an ID addresses
/// exactly the voices playing its note on its channel, whatever their IDs.
pub proof fn lemma_voice_addressing(v: VoiceSlot, id: i32, channel: u8, note: u8, other_channel: u8, other_note: u8)
    ensures
        spec_voice_matches(v, Some(id), channel, note) <==> v.voice_id == Some(id),
        spec_voice_matches(v, Some(id), channel, note) == spec_voice_matches(v, Some(id), other_channel, other_note),
        spec_voice_matches(v, None, channel, note) <==> (v.channel == channel && v.note == note),
{
}

/// The first free slot is free and comes before every other free slot.
pub proof fn lemma_first_free_is_lowest(slots: Seq<Option<VoiceSlot>>, i: int, j: int)
    requires
        is_first_free(slots, i),
        0 <= j < slots.len(),
        slots[j] is None,
    ensures
        slots[i] is None,
        i <= j,
{
}

/// The stolen voice is releasing whenever any voice is, and it is no younger
/// than any voice that is releasing exactly when it is.
pub proof fn lemma_steal_choice_is_oldest_of_its_kind(slots: Seq<Option<VoiceSlot>>, i: int, j: int)
    requires
        is_steal_choice(slots, i),
        0 <= j < slots.len(),
        slots[j] is Some,
    ensures
        slots[i] is Some,
        is_releasing(slots[j]->0) ==> is_releasing(slots[i]->0),
        is_releasing(slots[j]->0) == is_releasing(slots[i]->0)
            ==> slots[i]->0.internal_id <= slots[j]->0.internal_id,
{
    if is_releasing(slots[j]->0) {
        assert(is_releasing_at(slots, j));
    }
}

fn voice_matches(v: &VoiceSlot, voice_id: Option<i32>, channel: u8, note: u8) -> (b: bool)
    ensures
        b == spec_voice_matches(*v, voice_id, channel, note),
{
    match voice_id {
        Some(id) => match v.voice_id {
            Some(own) => own == id,
            None => false,
        },
        None => v.channel == channel && v.note == note,
    }
}

fn voice_is_releasing(v: &VoiceSlot) -> (b: bool)
    ensures
        b == is_releasing(*v),
{
    match v.phase {
        VoicePhase::Held => false,
        _ => true,
    }
}

/// A fixed pool of voice slots, and the stolen voices still fading out.
pub struct VoiceManager {
    slots: [Option<VoiceSlot>; MAX_VOICES],
    /// Voices stolen from a full pool, in FastRelease, in the order of their
    /// stealing.
    fading: Vec<VoiceSlot>,
    /// Counter for age-based voice stealing.
    next_internal_id: u64,
}

impl VoiceManager {
    pub closed spec fn slots(&self) -> Seq<Option<VoiceSlot>> {
        self.slots@
    }

    pub closed spec fn fading(&self) -> Seq<VoiceSlot> {
        self.fading@
    }

    pub closed spec fn next_id(&self) -> u64 {
        self.next_internal_id
    }

    pub open spec fn well_formed(&self) -> bool {
        pool_well_formed(self.slots(), self.fading(), self.next_id())
    }

    #[verifier::type_invariant]
    closed spec fn pool_invariant(self) -> bool {
        pool_well_formed(self.slots@, self.fading@, self.next_internal_id)
    }

    /// An empty pool whose age counter starts at zero.
    pub fn new() -> (m: Self)
        ensures
            m.slots() == empty_pool(),
            m.fading().len() == 0,
            m.next_id() == 0,
            m.well_formed(),
            active_count(m.slots()) == 0,
    {
        let slots: [Option<VoiceSlot>; MAX_VOICES] = [None; MAX_VOICES];
        assert(slots@ =~= empty_pool());
        proof {
            lemma_active_count_empty(MAX_VOICES as nat);
        }
        VoiceManager { slots, fading: Vec::new(), next_internal_id: 0 }
    }

    /// Drops every voice, fading ones included; the age counter keeps running.
    pub fn reset(&mut self)
        ensures
            final(self).slots() == empty_pool(),
            final(self).fading().len() == 0,
            final(self).next_id() == old(self).next_id(),
            final(self).well_formed(),
            active_count(final(self).slots()) == 0,
    {
        let slots: [Option<VoiceSlot>; MAX_VOICES] = [None; MAX_VOICES];
        assert(slots@ =~= empty_pool());
        proof {
            lemma_active_count_empty(MAX_VOICES as nat);
        }
        proof {
            use_type_invariant(&*self);
        }
        self.fading = Vec::new();
        self.slots = slots;
    }

    /// Number of voices holding a slot (fading voices do not).
    pub fn active_voices(&self) -> (n: usize)
        ensures
            n == active_count(self.slots()),
            n <= MAX_VOICES,
    {
        proof {
            use_type_invariant(self);
        }
        let mut n: usize = 0;
        let mut i: usize = 0;
        while i < MAX_VOICES
            invariant
                i <= self.slots@.len(),
                self.slots@.len() == MAX_VOICES,
                n == active_count(self.slots@.take(i as int)),
                n <= i,
            decreases MAX_VOICES - i,
        {
            proof {
                assert(self.slots@.take(i + 1).drop_last() =~= self.slots@.take(i as int));
            }
            if self.slots[i].is_some() {
                n = n + 1;
            }
            i = i + 1;
        }
        proof {
            assert(self.slots@.take(i as int) =~= self.slots@);
        }
        n
    }

    /// Number of stolen voices still fading out.
    pub fn fading_voices(&self) -> (n: usize)
        ensures
            n == self.fading().len(),
    {
        self.fading.len()
    }

    /// Value of the age counter; `note_on` needs it below `u64::MAX`.
    pub fn next_internal_id(&self) -> (n: u64)
        ensures
            n == self.next_id(),
    {
        self.next_internal_id
    }

    /// The record of slot `i`.
    pub fn slot(&self, i: usize) -> (v: Option<VoiceSlot>)
        requires
            i < MAX_VOICES,
        ensures
            v == self.slots()[i as int],
    {
        proof {
            use_type_invariant(self);
        }
        self.slots[i]
    }

    /// The record of the `k`-th fading voice.
    pub fn fading_voice(&self, k: usize) -> (v: VoiceSlot)
        requires
            k < self.fading().len(),
        ensures
            v == self.fading()[k as int],
    {
        self.fading[k]
    }

    fn find_free(&self) -> (r: Option<usize>)
        ensures
            match r {
                Some(i) => is_first_free(self.slots(), i as int),
                None => !has_free(self.slots()),
            },
    {
        let mut i: usize = 0;
        while i < MAX_VOICES
            invariant
                i <= self.slots@.len(),
                forall|j: int| 0 <= j < i ==> #[trigger] self.slots@[j] is Some,
            decreases MAX_VOICES - i,
        {
            if self.slots[i].is_none() {
                return Some(i);
            }
            i = i + 1;
        }
        None
    }

    fn steal_index(&self) -> (i: usize)
        requires
            self.well_formed(),
            !has_free(self.slots()),
        ensures
            is_steal_choice(self.slots(), i as int),
    {
        let ghost s = self.slots@;
        assert(forall|j: int| 0 <= j < s.len() ==> #[trigger] s[j] is Some) by {
            assert forall|j: int| 0 <= j < s.len() implies #[trigger] s[j] is Some by {
                if s[j] is None {
                    assert(has_free(s));
                }
            }
        }
        // Oldest releasing voice.
        let mut best: Option<usize> = None;
        let mut i: usize = 0;
        while i < MAX_VOICES
            invariant
                s == self.slots@,
                s.len() == MAX_VOICES,
                i <= MAX_VOICES,
                forall|j: int| 0 <= j < s.len() ==> #[trigger] s[j] is Some,
                match best {
                    Some(b) => {
                        &&& b < i
                        &&& is_releasing_at(s, b as int)
                        &&& forall|j: int| 0 <= j < i && #[trigger] is_releasing_at(s, j)
                            ==> s[b as int]->0.internal_id <= s[j]->0.internal_id
                    },
                    None => forall|j: int| 0 <= j < i ==> !#[trigger] is_releasing_at(s, j),
                },
            decreases MAX_VOICES - i,
        {
            let v = self.slots[i].unwrap();
            if voice_is_releasing(&v) {
                match best {
                    Some(b) => {
                        if v.internal_id < self.slots[b].unwrap().internal_id {
                            best = Some(i);
                        }
                    },
                    None => {
                        best = Some(i);
                    },
                }
            }
            i = i + 1;
        }
        match best {
            Some(b) => {
                assert(has_releasing(s));
                b
            },
            None => {
                assert(!has_releasing(s));
                // Oldest voice overall.
                let mut oldest: usize = 0;
                let mut i: usize = 1;
                while i < MAX_VOICES
                    invariant
                        s == self.slots@,
                        s.len() == MAX_VOICES,
                        1 <= i <= MAX_VOICES,
                        oldest < i,
                        forall|j: int| 0 <= j < s.len() ==> #[trigger] s[j] is Some,
                        forall|j: int| 0 <= j < i ==> s[oldest as int]->0.internal_id <= (#[trigger] s[j])->0.internal_id,
                    decreases MAX_VOICES - i,
                {
                    if self.slots[i].unwrap().internal_id < self.slots[oldest].unwrap().internal_id {
                        oldest = i;
                    }
                    i = i + 1;
                }
                oldest
            },
        }
    }

    /// Places a new note: in the first free slot if there is one. Otherwise it
    /// steals the oldest releasing voice, or the oldest voice when none is
    /// releasing: that voice leaves its slot to the new note and goes on
    /// sounding in FastRelease at the end of the fading list, to be reported
    /// ended when its fade finishes.
    pub fn note_on(&mut self, voice_id: Option<i32>, channel: u8, note: u8) -> (a: VoiceAllocation)
        requires
            old(self).next_id() < u64::MAX,
        ensures
            final(self).well_formed(),
            final(self).next_id() == old(self).next_id() + 1,
            a.slot < MAX_VOICES,
            final(self).slots() == old(self).slots().update(
                a.slot as int,
                Some(fresh_voice(voice_id, channel, note, old(self).next_id())),
            ),
            has_free(old(self).slots()) ==> is_first_free(old(self).slots(), a.slot as int)
                && !a.stolen && final(self).fading() == old(self).fading(),
            !has_free(old(self).slots()) ==> is_steal_choice(old(self).slots(), a.slot as int)
                && a.stolen && final(self).fading() == old(self).fading().push(
                with_phase(old(self).slots()[a.slot as int]->0, VoicePhase::FastReleased),
            ),
            forall|j: int| 0 <= j < MAX_VOICES && j != a.slot && #[trigger] final(self).slots()[j] is Some
                ==> final(self).slots()[j]->0.internal_id < old(self).next_id(),
            active_count(final(self).slots()) == if has_free(old(self).slots()) {
                active_count(old(self).slots()) + 1
            } else {
                MAX_VOICES as nat
            },
    {
        proof {
            use_type_invariant(&*self);
        }
        let ghost s = self.slots@;
        let ghost f = self.fading@;
        let internal_id = self.next_internal_id;
        let voice = VoiceSlot { voice_id, channel, note, internal_id, phase: VoicePhase::Held };
        let allocation = match self.find_free() {
            Some(i) => {
                self.next_internal_id = internal_id + 1;
                let mut slots = self.slots;
                slots[i] = Some(voice);
                self.slots = slots;
                VoiceAllocation { slot: i, stolen: false }
            },
            None => {
                let i = self.steal_index();
                let v = self.slots[i].unwrap();
                let faded = VoiceSlot { phase: VoicePhase::FastReleased, ..v };
                let mut fading: Vec<VoiceSlot> = Vec::new();
                std::mem::swap(&mut fading, &mut self.fading);
                fading.push(faded);
                self.next_internal_id = internal_id + 1;
                let mut slots = self.slots;
                slots[i] = Some(voice);
                self.slots = slots;
                proof {
                    assert forall|k: int, j: int|
                        0 <= k < fading@.len() && 0 <= j < self.slots@.len() && #[trigger] self.slots@[j] is Some
                        implies (#[trigger] fading@[k]).internal_id != self.slots@[j]->0.internal_id by {
                        if k == f.len() {
                            if j != i {
                                assert(s[j] is Some);
                            }
                        } else {
                            assert(fading@[k] == f[k]);
                            if j != i {
                                assert(s[j] is Some);
                            }
                        }
                    }
                    assert forall|k1: int, k2: int|
                        0 <= k1 < fading@.len() && 0 <= k2 < fading@.len() && k1 != k2
                        implies (#[trigger] fading@[k1]).internal_id != (#[trigger] fading@[k2]).internal_id by {
                        if k1 == f.len() {
                            assert(fading@[k2] == f[k2]);
                            assert(s[i as int] is Some);
                        } else if k2 == f.len() {
                            assert(fading@[k1] == f[k1]);
                            assert(s[i as int] is Some);
                        } else {
                            assert(fading@[k1] == f[k1]);
                            assert(fading@[k2] == f[k2]);
                        }
                    }
                }
                self.fading = fading;
                VoiceAllocation { slot: i, stolen: true }
            },
        };
        proof {
            let slot = allocation.slot;
            lemma_active_count_update(s, slot as int, Some(voice));
            if !has_free(s) {
                assert forall|j: int| 0 <= j < s.len() implies #[trigger] s[j] is Some by {
                    if s[j] is None {
                        assert(has_free(s));
                    }
                }
                lemma_active_count_bounds(s);
            }
        }
        allocation
    }

    fn set_phase_matching(&mut self, voice_id: Option<i32>, channel: u8, note: u8, phase: VoicePhase) -> (changed: Vec<usize>)
        ensures
            final(self).well_formed(),
            final(self).next_id() == old(self).next_id(),
            final(self).fading() == old(self).fading(),
            sets_phase_matching(old(self).slots(), final(self).slots(), changed@, voice_id, channel, note, phase),
            active_count(final(self).slots()) == active_count(old(self).slots()),
    {
        proof {
            use_type_invariant(&*self);
        }
        let ghost s = self.slots@;
        let mut slots = self.slots;
        let mut changed: Vec<usize> = Vec::new();
        let mut i: usize = 0;
        while i < MAX_VOICES
            invariant
                s.len() == MAX_VOICES,
                pool_well_formed(s, self.fading@, self.next_internal_id),
                self.slots@ == s,
                self.next_internal_id == old(self).next_internal_id,
                self.fading@ == old(self).fading@,
                slots@.len() == MAX_VOICES,
                i <= MAX_VOICES,
                forall|j: int| i <= j < MAX_VOICES ==> #[trigger] slots@[j] == s[j],
                forall|j: int| 0 <= j < i ==> #[trigger] slots@[j] == if s[j] is Some
                    && spec_voice_matches(s[j]->0, voice_id, channel, note) {
                    Some(with_phase(s[j]->0, phase))
                } else {
                    s[j]
                },
                forall|k: int| 0 <= k < changed@.len() ==> {
                    let j = #[trigger] changed@[k] as int;
                    &&& 0 <= j < i
                    &&& s[j] is Some
                    &&& spec_voice_matches(s[j]->0, voice_id, channel, note)
                },
                forall|k1: int, k2: int| 0 <= k1 < k2 < changed@.len() ==> #[trigger] changed@[k1] < #[trigger] changed@[k2],
                forall|j: int| 0 <= j < i && #[trigger] s[j] is Some
                    && spec_voice_matches(s[j]->0, voice_id, channel, note) ==> changed@.contains(j as usize),
            decreases MAX_VOICES - i,
        {
            match slots[i] {
                Some(v) => {
                    if voice_matches(&v, voice_id, channel, note) {
                        slots[i] = Some(VoiceSlot { phase, ..v });
                        let ghost before = changed@;
                        changed.push(i);
                        proof {
                            assert(changed@[changed@.len() - 1] == i);
                            assert forall|j: int| 0 <= j < i && #[trigger] s[j] is Some
                                && spec_voice_matches(s[j]->0, voice_id, channel, note)
                                implies changed@.contains(j as usize) by {
                                let k = choose|k: int| 0 <= k < before.len() && before[k] == j as usize;
                                assert(changed@[k] == j as usize);
                            }
                        }
                    }
                },
                None => {},
            }
            i = i + 1;
        }
        self.slots = slots;
        proof {
            lemma_active_count_same_shape(s, self.slots@);
        }
        changed
    }

    /// Releases the slot voices a note-off addresses: the voice with the given
    /// ID when the host gives one, otherwise every voice playing (channel,
    /// note). Their phase becomes Released. Returns their slots in increasing
    /// order. Fading voices are left to finish their fade.
    pub fn note_off(&mut self, voice_id: Option<i32>, channel: u8, note: u8) -> (released: Vec<usize>)
        ensures
            final(self).well_formed(),
            final(self).next_id() == old(self).next_id(),
            final(self).fading() == old(self).fading(),
            sets_phase_matching(old(self).slots(), final(self).slots(), released@, voice_id, channel, note, VoicePhase::Released),
            active_count(final(self).slots()) == active_count(old(self).slots()),
    {
        self.set_phase_matching(voice_id, channel, note, VoicePhase::Released)
    }

    /// Chokes the slot voices a host addresses, selected as `note_off` selects
    /// them: their phase becomes FastReleased, the short anti-click fade. They
    /// keep their slots until the fade finishes. Returns their slots in
    /// increasing order.
    pub fn choke(&mut self, voice_id: Option<i32>, channel: u8, note: u8) -> (choked: Vec<usize>)
        ensures
            final(self).well_formed(),
            final(self).next_id() == old(self).next_id(),
            final(self).fading() == old(self).fading(),
            sets_phase_matching(old(self).slots(), final(self).slots(), choked@, voice_id, channel, note, VoicePhase::FastReleased),
            active_count(final(self).slots()) == active_count(old(self).slots()),
    {
        self.set_phase_matching(voice_id, channel, note, VoicePhase::FastReleased)
    }

    /// Drops the voices whose envelope finished during the block just
    /// rendered: the slot voices with `finished[i]` for slot `i`, and the
    /// fading voices with `fading_finished[k]` for the `k`-th of them. Returns
    /// their reports, slot voices in slot order and then fading voices in
    /// their order, for the host's `VoiceTerminated` events.
    pub fn remove_finished(&mut self, finished: [bool; MAX_VOICES], fading_finished: &[bool]) -> (terminated: Vec<TerminatedVoice>)
        requires
            fading_finished@.len() == old(self).fading().len(),
        ensures
            final(self).well_formed(),
            final(self).next_id() == old(self).next_id(),
            final(self).slots().len() == MAX_VOICES,
            forall|i: int| 0 <= i < MAX_VOICES ==> #[trigger] final(self).slots()[i] == if old(self).slots()[i] is Some
                && finished@[i] {
                None
            } else {
                old(self).slots()[i]
            },
            final(self).fading() == kept_fading(old(self).fading(), fading_finished@, old(self).fading().len()),
            terminated@ == finished_reports(old(self).slots(), finished@, MAX_VOICES as nat)
                + fading_reports(old(self).fading(), fading_finished@, old(self).fading().len()),
            active_count(final(self).slots()) + finished_reports(old(self).slots(), finished@, MAX_VOICES as nat).len()
                == active_count(old(self).slots()),
    {
        proof {
            use_type_invariant(&*self);
        }
        let ghost s = self.slots@;
        let ghost f = self.fading@;
        let mut slots = self.slots;
        let mut terminated: Vec<TerminatedVoice> = Vec::new();
        let mut i: usize = 0;
        while i < MAX_VOICES
            invariant
                s.len() == MAX_VOICES,
                finished@.len() == MAX_VOICES,
                pool_well_formed(s, f, self.next_internal_id),
                self.slots@ == s,
                self.fading@ == f,
                self.next_internal_id == old(self).next_internal_id,
                slots@.len() == MAX_VOICES,
                i <= MAX_VOICES,
                forall|j: int| i <= j < MAX_VOICES ==> #[trigger] slots@[j] == s[j],
                forall|j: int| 0 <= j < i ==> #[trigger] slots@[j] == if s[j] is Some && finished@[j] {
                    None
                } else {
                    s[j]
                },
                terminated@ == finished_reports(s, finished@, i as nat),
            decreases MAX_VOICES - i,
        {
            match slots[i] {
                Some(v) => {
                    if finished[i] {
                        terminated.push(TerminatedVoice { voice_id: v.voice_id, channel: v.channel, note: v.note });
                        slots[i] = None;
                    }
                },
                None => {},
            }
            i = i + 1;
        }
        self.slots = slots;
        proof {
            lemma_active_count_after_removal(s, slots@, finished@, MAX_VOICES as nat);
            assert(s.take(MAX_VOICES as int) =~= s);
            assert(slots@.take(MAX_VOICES as int) =~= slots@);
        }
        let ghost slot_reports = terminated@;
        let n = self.fading.len();
        let mut kept: Vec<VoiceSlot> = Vec::new();
        let ghost mut origin: Seq<int> = Seq::empty();
        let mut k: usize = 0;
        while k < n
            invariant
                n == f.len(),
                fading_finished@.len() == n,
                self.fading@ == f,
                self.slots@ == slots@,
                self.next_internal_id == old(self).next_internal_id,
                pool_well_formed(slots@, f, self.next_internal_id),
                k <= n,
                kept@ == kept_fading(f, fading_finished@, k as nat),
                terminated@ == slot_reports + fading_reports(f, fading_finished@, k as nat),
                origin.len() == kept@.len(),
                forall|m: int| 0 <= m < origin.len() ==> 0 <= #[trigger] origin[m] < k && kept@[m] == f[origin[m]],
                forall|m1: int, m2: int| 0 <= m1 < m2 < origin.len() ==> #[trigger] origin[m1] < #[trigger] origin[m2],
            decreases n - k,
        {
            let v = self.fading[k];
            if fading_finished[k] {
                let ghost before = terminated@;
                terminated.push(TerminatedVoice { voice_id: v.voice_id, channel: v.channel, note: v.note });
                proof {
                    assert(terminated@ =~= slot_reports + fading_reports(f, fading_finished@, (k + 1) as nat));
                }
            } else {
                kept.push(v);
                proof {
                    origin = origin.push(k as int);
                    assert(terminated@ =~= slot_reports + fading_reports(f, fading_finished@, (k + 1) as nat));
                    assert(kept@ =~= kept_fading(f, fading_finished@, (k + 1) as nat));
                }
            }
            k = k + 1;
        }
        proof {
            assert forall|m1: int, m2: int| 0 <= m1 < kept@.len() && 0 <= m2 < kept@.len() && m1 != m2
                implies (#[trigger] kept@[m1]).internal_id != (#[trigger] kept@[m2]).internal_id by {
                assert(kept@[m1] == f[origin[m1]]);
                assert(kept@[m2] == f[origin[m2]]);
                if m1 < m2 {
                    assert(origin[m1] < origin[m2]);
                } else {
                    assert(origin[m2] < origin[m1]);
                }
            }
            assert forall|m: int, j: int| 0 <= m < kept@.len() && 0 <= j < slots@.len() && #[trigger] slots@[j] is Some
                implies (#[trigger] kept@[m]).internal_id != slots@[j]->0.internal_id by {
                assert(kept@[m] == f[origin[m]]);
            }
            assert forall|m: int| 0 <= m < kept@.len() implies (#[trigger] kept@[m]).internal_id < self.next_internal_id
                && kept@[m].phase == VoicePhase::FastReleased by {
                assert(kept@[m] == f[origin[m]]);
            }
        }
        self.fading = kept;
        terminated
    }
}

} // verus!
