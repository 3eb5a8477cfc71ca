//! Saturation protector.
use crate::audio_processing::agc2::agc2_common::SATURATION_PROTECTOR_BUFFER_SIZE;
use crate::audio_processing::agc2::saturation_protector_buffer::SaturationProtectorBuffer;
use crate::audio_processing::arithmetic::{
    at_most, clamp, clamped, difference, is_functional, is_less, is_total, larger, less, maximum,
    minus, plus, product, sum, times, zero_of, Real,
};
use crate::audio_processing::ordered::{
    is_exact, is_number, is_one, is_ordered, law_clamped, law_larger, lemma_exact, lemma_mix,
    lemma_order, products_keep_order, sums_keep_order,
};
use vstd::prelude::*;

verus! {

/// Duration over which a peak is taken.
pub const PEAK_ENVELOPER_SUPER_FRAME_LENGTH_MS: i32 = 400;

pub const FRAME_LENGTH_MS: i32 = 10;

/// The numbers that the protector works with.
#[derive(Debug, Clone, Copy)]
pub struct SaturationProtectorParameters<T: Real> {
    pub one: T,
    pub min_level_dbfs: T,
    pub vad_confidence_threshold: T,
    pub min_margin_db: T,
    pub max_margin_db: T,
    pub attack: T,
    pub decay: T,
}

#[derive(Debug, Clone, Copy)]
struct SaturationProtectorState<T: Real> {
    headroom_db: T,
    peak_delay_buffer: SaturationProtectorBuffer<T>,
    max_peaks_dbfs: T,
    time_since_push_ms: i32,
}

/// What a headroom is estimated from.
#[verifier::ext_equal]
pub struct HeadroomState<T> {
    pub headroom_db: T,
    /// Delayed peaks, the oldest one first.
    pub peaks: Seq<T>,
    /// The peak since the last delayed one.
    pub max_peak_dbfs: T,
    pub time_since_push_ms: int,
}

impl<T: Real> HeadroomState<T> {
    pub open spec fn initial(p: SaturationProtectorParameters<T>, headroom_db: T) -> Self {
        HeadroomState {
            headroom_db,
            peaks: Seq::empty(),
            max_peak_dbfs: p.min_level_dbfs,
            time_since_push_ms: 0,
        }
    }

    /// The state with the peak of a frame taken in: once a super frame is over, its
    /// peak is delayed.
    pub open spec fn with_peak(self, p: SaturationProtectorParameters<T>, peak_dbfs: T) -> Self {
        let max_peak_dbfs = larger(self.max_peak_dbfs, peak_dbfs);
        let time = self.time_since_push_ms + FRAME_LENGTH_MS;
        if time > PEAK_ENVELOPER_SUPER_FRAME_LENGTH_MS {
            HeadroomState {
                headroom_db: self.headroom_db,
                peaks: if self.peaks.len() == SATURATION_PROTECTOR_BUFFER_SIZE {
                    self.peaks.skip(1).push(max_peak_dbfs)
                } else {
                    self.peaks.push(max_peak_dbfs)
                },
                max_peak_dbfs: p.min_level_dbfs,
                time_since_push_ms: 0,
            }
        } else {
            HeadroomState { max_peak_dbfs, time_since_push_ms: time, ..self }
        }
    }

    pub open spec fn delayed_peak(self) -> T {
        if self.peaks.len() == 0 {
            self.max_peak_dbfs
        } else {
            self.peaks[0]
        }
    }

    /// The state after a speech frame: the headroom follows the difference between
    /// the delayed peak and the speech level, within its margins.
    pub open spec fn after(
        self,
        p: SaturationProtectorParameters<T>,
        peak_dbfs: T,
        speech_level_dbfs: T,
    ) -> Self {
        let s = self.with_peak(p, peak_dbfs);
        let difference_db = minus(s.delayed_peak(), speech_level_dbfs);
        let constant = if less(s.headroom_db, difference_db) {
            p.attack
        } else {
            p.decay
        };
        HeadroomState {
            headroom_db: clamped(
                plus(
                    times(s.headroom_db, constant),
                    times(difference_db, minus(p.one, constant)),
                ),
                p.min_margin_db,
                p.max_margin_db,
            ),
            ..s
        }
    }
}

impl<T: Real> HeadroomState<T> {
    /// The headroom stays within its margins. Where these let it, it follows the
    /// difference between the delayed peak and the speech level: it moves towards it and
    /// not beyond, by the attack constant if it rises and the decay constant if not.
    pub proof fn law_headroom_follows(
        self,
        p: SaturationProtectorParameters<T>,
        peak_dbfs: T,
        speech_level_dbfs: T,
    )
        requires
            is_ordered::<T>(),
            sums_keep_order::<T>(),
            products_keep_order::<T>(),
            is_exact::<T>(),
            is_one(p.one),
            at_most(zero_of(), p.attack),
            at_most(p.attack, p.one),
            at_most(zero_of(), p.decay),
            at_most(p.decay, p.one),
            at_most(p.min_margin_db, self.headroom_db),
            at_most(self.headroom_db, p.max_margin_db),
        ensures
            ({
                let after = self.after(p, peak_dbfs, speech_level_dbfs);
                let oldest = if after.peaks.len() == 0 {
                    after.max_peak_dbfs
                } else {
                    after.peaks[0]
                };
                let wanted = minus(oldest, speech_level_dbfs);
                &&& at_most(p.min_margin_db, after.headroom_db)
                &&& at_most(after.headroom_db, p.max_margin_db)
                &&& at_most(self.headroom_db, wanted) ==> at_most(
                    self.headroom_db,
                    after.headroom_db,
                ) && at_most(after.headroom_db, wanted)
                &&& at_most(wanted, self.headroom_db) ==> at_most(
                    after.headroom_db,
                    self.headroom_db,
                ) && (at_most(p.min_margin_db, wanted) ==> at_most(wanted, after.headroom_db))
                &&& less(self.headroom_db, wanted) ==> after.headroom_db == clamped(
                    plus(wanted, times(minus(self.headroom_db, wanted), p.attack)),
                    p.min_margin_db,
                    p.max_margin_db,
                )
                &&& less(wanted, self.headroom_db) ==> after.headroom_db == clamped(
                    plus(wanted, times(minus(self.headroom_db, wanted), p.decay)),
                    p.min_margin_db,
                    p.max_margin_db,
                )
            }),
    {
        let zero = zero_of::<T>();
        let s = self.with_peak(p, peak_dbfs);
        let after = self.after(p, peak_dbfs, speech_level_dbfs);
        let old = self.headroom_db;
        let wanted = minus(s.delayed_peak(), speech_level_dbfs);
        let constant = if less(old, wanted) {
            p.attack
        } else {
            p.decay
        };
        let mixed = plus(times(wanted, minus(p.one, constant)), times(old, constant));
        lemma_mix(p.one, constant, old, wanted);
        lemma_exact(times(wanted, minus(p.one, constant)), times(old, constant), zero);
        assert(is_number(mixed) && is_number(wanted) && is_number(old));
        lemma_order(p.min_margin_db, old, p.max_margin_db);
        law_clamped(mixed, p.min_margin_db, p.max_margin_db);
        lemma_order(old, wanted, old);
        lemma_order(wanted, old, wanted);
        lemma_order(p.min_margin_db, old, mixed);
        lemma_order(mixed, old, p.max_margin_db);
        lemma_order(mixed, p.min_margin_db, old);
        lemma_order(p.max_margin_db, mixed, wanted);
        lemma_order(mixed, p.max_margin_db, mixed);
        lemma_order(p.min_margin_db, wanted, mixed);
        lemma_order(p.min_margin_db, mixed, p.min_margin_db);
        lemma_order(old, p.max_margin_db, mixed);
        lemma_order(old, mixed, old);
        lemma_order(wanted, mixed, p.min_margin_db);
    }

    /// No peak is lost: it is at most the largest one of the super frame, which is delayed
    /// when the super frame is over. Only then do the delayed peaks change, and of a full
    /// buffer the oldest one leaves.
    pub proof fn law_peaks_are_delayed(self, p: SaturationProtectorParameters<T>, peak_dbfs: T)
        requires
            is_ordered::<T>(),
            is_number(self.max_peak_dbfs),
            is_number(peak_dbfs),
        ensures
            ({
                let after = self.with_peak(p, peak_dbfs);
                let seen = if self.time_since_push_ms + 10 > 400 {
                    after.peaks.last()
                } else {
                    after.max_peak_dbfs
                };
                &&& at_most(peak_dbfs, seen)
                &&& at_most(self.max_peak_dbfs, seen)
                &&& seen == peak_dbfs || seen == self.max_peak_dbfs
                &&& after.headroom_db == self.headroom_db
                &&& self.time_since_push_ms + 10 <= 400 ==> after.peaks == self.peaks
                    && after.time_since_push_ms == self.time_since_push_ms + 10
                &&& self.time_since_push_ms + 10 > 400 ==> {
                    &&& after.time_since_push_ms == 0
                    &&& after.max_peak_dbfs == p.min_level_dbfs
                    &&& self.peaks.len() == 4 ==> after.peaks.drop_last() == self.peaks.skip(1)
                    &&& self.peaks.len() != 4 ==> after.peaks.drop_last() == self.peaks
                }
            }),
    {
        law_larger(self.max_peak_dbfs, peak_dbfs);
        let max = larger(self.max_peak_dbfs, peak_dbfs);
        assert(self.peaks.skip(1).push(max).drop_last() == self.peaks.skip(1));
        assert(self.peaks.push(max).drop_last() == self.peaks);
    }
}

impl<T: Real> SaturationProtectorState<T> {
    spec fn inv(&self) -> bool {
        &&& self.peak_delay_buffer.inv()
        &&& 0 <= self.time_since_push_ms <= PEAK_ENVELOPER_SUPER_FRAME_LENGTH_MS
    }

    spec fn view(&self) -> HeadroomState<T> {
        HeadroomState {
            headroom_db: self.headroom_db,
            peaks: self.peak_delay_buffer@,
            max_peak_dbfs: self.max_peaks_dbfs,
            time_since_push_ms: self.time_since_push_ms as int,
        }
    }

    fn new(p: &SaturationProtectorParameters<T>, initial_headroom_db: T) -> (state: Self)
        requires
            is_total::<T>(),
        ensures
            state.inv(),
            state@ == HeadroomState::initial(*p, initial_headroom_db),
    {
        SaturationProtectorState {
            headroom_db: initial_headroom_db,
            peak_delay_buffer: SaturationProtectorBuffer::new(),
            max_peaks_dbfs: p.min_level_dbfs,
            time_since_push_ms: 0,
        }
    }

    fn reset(&mut self, p: &SaturationProtectorParameters<T>, initial_headroom_db: T)
        ensures
            final(self).inv(),
            final(self)@ == HeadroomState::initial(*p, initial_headroom_db),
    {
        self.headroom_db = initial_headroom_db;
        self.peak_delay_buffer.reset();
        self.max_peaks_dbfs = p.min_level_dbfs;
        self.time_since_push_ms = 0;
    }

    fn update(&mut self, p: &SaturationProtectorParameters<T>, peak_dbfs: T, speech_level_dbfs: T)
        requires
            is_total::<T>(),
            old(self).inv(),
        ensures
            final(self).inv(),
            is_functional::<T>() ==> final(self)@ == old(self)@.after(
                *p,
                peak_dbfs,
                speech_level_dbfs,
            ),
    {
        // Get max peak over super frame.
        self.max_peaks_dbfs = maximum(self.max_peaks_dbfs, peak_dbfs);
        self.time_since_push_ms = self.time_since_push_ms + FRAME_LENGTH_MS;
        if self.time_since_push_ms > PEAK_ENVELOPER_SUPER_FRAME_LENGTH_MS {
            self.peak_delay_buffer.push_back(self.max_peaks_dbfs);
            self.max_peaks_dbfs = p.min_level_dbfs;
            self.time_since_push_ms = 0;
        }
        // Update headroom comparing estimated speech level and delayed max speech
        // peak.
        let delayed_peak_dbfs = match self.peak_delay_buffer.front() {
            Some(peak) => peak,
            None => self.max_peaks_dbfs,
        };
        let difference_db = difference(delayed_peak_dbfs, speech_level_dbfs);
        let constant = if is_less(self.headroom_db, difference_db) {
            p.attack
        } else {
            p.decay
        };
        let headroom_db = sum(
            product(self.headroom_db, constant),
            product(difference_db, difference(p.one, constant)),
        );
        self.headroom_db = clamp(headroom_db, p.min_margin_db, p.max_margin_db);
    }
}

pub struct SaturationProtectorImpl<T: Real> {
    parameters: SaturationProtectorParameters<T>,
    initial_headroom_db: T,
    adjacent_speech_frames_threshold: i32,
    num_adjacent_speech_frames: i32,
    headroom_db: T,
    preliminary_state: SaturationProtectorState<T>,
    reliable_state: SaturationProtectorState<T>,
}

impl<T: Real> SaturationProtectorImpl<T> {
    pub closed spec fn inv(&self) -> bool {
        &&& self.preliminary_state.inv()
        &&& self.reliable_state.inv()
        &&& 0 <= self.num_adjacent_speech_frames
    }

    pub closed spec fn settings(&self) -> SaturationProtectorParameters<T> {
        self.parameters
    }

    pub closed spec fn initial_headroom(&self) -> T {
        self.initial_headroom_db
    }

    pub closed spec fn threshold(&self) -> i32 {
        self.adjacent_speech_frames_threshold
    }

    pub closed spec fn adjacent_frames(&self) -> i32 {
        self.num_adjacent_speech_frames
    }

    pub closed spec fn headroom(&self) -> T {
        self.headroom_db
    }

    /// The state that follows every speech frame.
    pub closed spec fn preliminary(&self) -> HeadroomState<T> {
        self.preliminary_state@
    }

    /// The state that follows long enough speech only.
    pub closed spec fn reliable(&self) -> HeadroomState<T> {
        self.reliable_state@
    }

    pub open spec fn same_settings(&self, other: &Self) -> bool {
        &&& self.settings() == other.settings()
        &&& self.initial_headroom() == other.initial_headroom()
        &&& self.threshold() == other.threshold()
    }

    /// Whether nothing was analysed.
    pub open spec fn is_initial(&self) -> bool {
        let first = HeadroomState::initial(self.settings(), self.initial_headroom());
        &&& self.adjacent_frames() == 0
        &&& self.headroom() == self.initial_headroom()
        &&& self.preliminary() == first
        &&& self.reliable() == first
    }

    pub fn new(
        initial_headroom_db: T,
        adjacent_speech_frames_threshold: i32,
        parameters: SaturationProtectorParameters<T>,
    ) -> (protector: Self)
        requires
            is_total::<T>(),
        ensures
            protector.inv(),
            protector.settings() == parameters,
            protector.initial_headroom() == initial_headroom_db,
            protector.threshold() == adjacent_speech_frames_threshold,
            protector.is_initial(),
    {
        SaturationProtectorImpl {
            parameters,
            initial_headroom_db,
            adjacent_speech_frames_threshold,
            num_adjacent_speech_frames: 0,
            headroom_db: initial_headroom_db,
            preliminary_state: SaturationProtectorState::new(&parameters, initial_headroom_db),
            reliable_state: SaturationProtectorState::new(&parameters, initial_headroom_db),
        }
    }

    /// Returns the recommended headroom in dB.
    pub fn headroom_db(&self) -> (headroom_db: T)
        ensures
            headroom_db == self.headroom(),
    {
        self.headroom_db
    }

    /// Whether `after` is `self` once a frame without speech was analysed: speech
    /// that was long enough is confirmed, shorter speech is forgotten.
    pub open spec fn ends_speech(&self, after: &Self) -> bool {
        &&& after.adjacent_frames() == 0
        &&& after.headroom() == self.headroom()
        &&& after.reliable() == (if self.threshold() > 1 && self.adjacent_frames()
            >= self.threshold() {
            self.preliminary()
        } else {
            self.reliable()
        })
        &&& after.preliminary() == (if self.threshold() > 1 && 0 < self.adjacent_frames()
            < self.threshold() {
            self.reliable()
        } else {
            self.preliminary()
        })
    }

    /// Whether `after` is `self` once a speech frame was analysed: the headroom
    /// follows only once enough adjacent speech frames were seen.
    pub open spec fn continues_speech(
        &self,
        after: &Self,
        peak_dbfs: T,
        speech_level_dbfs: T,
    ) -> bool {
        &&& after.adjacent_frames() == self.adjacent_frames() + 1
        &&& after.reliable() == self.reliable()
        &&& is_functional::<T>() ==> after.preliminary() == self.preliminary().after(
            self.settings(),
            peak_dbfs,
            speech_level_dbfs,
        )
        &&& after.headroom() == (if after.adjacent_frames() >= self.threshold() {
            after.preliminary().headroom_db
        } else {
            self.headroom()
        })
    }

    /// Analyzes one frame.
    pub fn analyze(&mut self, speech_probability: T, peak_dbfs: T, speech_level_dbfs: T)
        requires
            is_total::<T>(),
            old(self).inv(),
            old(self).adjacent_frames() < i32::MAX,
        ensures
            final(self).inv(),
            final(self).same_settings(old(self)),
            old(self).ends_speech(final(self)) || old(self).continues_speech(
                final(self),
                peak_dbfs,
                speech_level_dbfs,
            ),
            is_functional::<T>() ==> if less(
                speech_probability,
                old(self).settings().vad_confidence_threshold,
            ) {
                old(self).ends_speech(final(self))
            } else {
                old(self).continues_speech(final(self), peak_dbfs, speech_level_dbfs)
            },
    {
        if is_less(speech_probability, self.parameters.vad_confidence_threshold) {
            // Not a speech frame.
            if self.adjacent_speech_frames_threshold > 1 {
                // Discard or confirm updates based on speech sequence length.
                if self.num_adjacent_speech_frames >= self.adjacent_speech_frames_threshold {
                    self.reliable_state = self.preliminary_state;
                } else if self.num_adjacent_speech_frames > 0 {
                    self.preliminary_state = self.reliable_state;
                }
            }
            self.num_adjacent_speech_frames = 0;
        } else {
            // Speech frame observed.
            self.num_adjacent_speech_frames = self.num_adjacent_speech_frames + 1;
            self.preliminary_state.update(&self.parameters, peak_dbfs, speech_level_dbfs);
            if self.num_adjacent_speech_frames >= self.adjacent_speech_frames_threshold {
                // Preliminary state is now reliable.
                self.headroom_db = self.preliminary_state.headroom_db;
            }
        }
    }

    /// Resets internal state.
    pub fn reset(&mut self)
        ensures
            final(self).inv(),
            final(self).same_settings(old(self)),
            final(self).is_initial(),
    {
        self.num_adjacent_speech_frames = 0;
        self.headroom_db = self.initial_headroom_db;
        self.preliminary_state.reset(&self.parameters, self.initial_headroom_db);
        self.reliable_state.reset(&self.parameters, self.initial_headroom_db);
    }

    /// Whether the states follow each other by speech frames with the given peaks and
    /// levels.
    pub open spec fn is_speech(states: Seq<Self>, peaks_dbfs: Seq<T>, levels_dbfs: Seq<T>) -> bool {
        &&& states.len() > 0
        &&& forall|i: int|
            1 <= i < states.len() ==> {
                &&& (#[trigger] states[i]).same_settings(&states[0])
                &&& states[i - 1].continues_speech(
                    &states[i],
                    peaks_dbfs[i - 1],
                    levels_dbfs[i - 1],
                )
            }
    }

    /// Speech that was long enough is confirmed by the frame that ends it: what it led to
    /// is what shorter speech after it falls back to. The headroom that is recommended
    /// follows the speech from the threshold on.
    pub proof fn law_long_speech_is_kept(
        &self,
        next: &Self,
        peak_dbfs: T,
        level_dbfs: T,
        after: &Self,
    )
        requires
            self.continues_speech(next, peak_dbfs, level_dbfs),
            next.same_settings(self),
            next.ends_speech(after),
            1 < self.threshold() <= self.adjacent_frames() + 1,
        ensures
            after.reliable() == next.preliminary(),
            after.preliminary() == next.preliminary(),
            after.headroom() == next.preliminary().headroom_db,
            after.adjacent_frames() == 0,
    {
    }

    /// Speech too short for the threshold leaves no trace: the headroom does not
    /// change, and the frame that ends the speech restores the state before it.
    pub proof fn law_short_speech_is_forgotten(
        states: Seq<Self>,
        peaks_dbfs: Seq<T>,
        levels_dbfs: Seq<T>,
        after: Self,
    )
        requires
            Self::is_speech(states, peaks_dbfs, levels_dbfs),
            1 < states.len() <= states[0].threshold(),
            states[0].adjacent_frames() == 0,
            states[0].preliminary() == states[0].reliable(),
            states.last().ends_speech(&after),
        ensures
            after.preliminary() == states[0].preliminary(),
            after.reliable() == states[0].reliable(),
            after.headroom() == states[0].headroom(),
    {
        Self::lemma_short_speech(states, peaks_dbfs, levels_dbfs, states.len() - 1);
    }

    proof fn lemma_short_speech(
        states: Seq<Self>,
        peaks_dbfs: Seq<T>,
        levels_dbfs: Seq<T>,
        n: int,
    )
        requires
            Self::is_speech(states, peaks_dbfs, levels_dbfs),
            states.len() <= states[0].threshold(),
            states[0].adjacent_frames() == 0,
            0 <= n < states.len(),
        ensures
            states[n].same_settings(&states[0]),
            states[n].adjacent_frames() == n,
            states[n].reliable() == states[0].reliable(),
            states[n].headroom() == states[0].headroom(),
        decreases n,
    {
        if n > 0 {
            Self::lemma_short_speech(states, peaks_dbfs, levels_dbfs, n - 1);
        }
    }
}

pub fn create_saturation_protector<T: Real>(
    initial_headroom_db: T,
    adjacent_speech_frames_threshold: i32,
    parameters: SaturationProtectorParameters<T>,
) -> (protector: SaturationProtectorImpl<T>)
    requires
        is_total::<T>(),
    ensures
        protector.inv(),
        protector.settings() == parameters,
        protector.initial_headroom() == initial_headroom_db,
        protector.threshold() == adjacent_speech_frames_threshold,
        protector.is_initial(),
{
    SaturationProtectorImpl::new(initial_headroom_db, adjacent_speech_frames_threshold, parameters)
}

} // verus!
