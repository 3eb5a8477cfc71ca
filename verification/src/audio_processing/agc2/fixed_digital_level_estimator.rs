//! Fixed digital level estimator.
use crate::audio_processing::agc2::agc2_common::SUB_FRAMES_IN_FRAME;
use crate::audio_processing::arithmetic::{
    at_most, difference, is_functional, is_less, is_total, largest_magnitude, less, minus, negative,
    peak_beyond, plus, product, sum, times, zero, zero_of, Real,
};
use crate::audio_processing::ordered::{
    is_exact, is_number, is_one, is_ordered, law_largest_magnitude, lemma_mix, lemma_order,
    products_keep_order, sums_keep_order,
};
use vstd::array::array_fill_for_copy_types;
use vstd::prelude::*;
use vstd::slice::slice_subrange;

verus! {

/// Filter constants of the level estimate.
#[derive(Debug, Clone, Copy)]
pub struct LevelEstimatorParameters<T: Real> {
    pub one: T,
    pub attack_filter_constant: T,
    pub decay_filter_constant: T,
}

/// The samples of a sub-frame.
pub open spec fn sub_frame_of<T>(channel: Seq<T>, sub_frame: int, size: int) -> Seq<T> {
    channel.subrange(sub_frame * size, (sub_frame + 1) * size)
}

/// The largest magnitude in a sub-frame of the first `n` channels.
pub open spec fn sub_frame_peak<T: Real>(frame: Seq<Vec<T>>, sub_frame: int, size: int, n: int) -> T
    decreases n,
{
    if n <= 0 {
        zero_of()
    } else {
        largest_magnitude(
            sub_frame_peak(frame, sub_frame, size, n - 1),
            sub_frame_of(frame[n - 1]@, sub_frame, size),
            size,
        )
    }
}

/// The envelope, in which an increase happens one step earlier.
pub open spec fn look_ahead<T: Real>(peaks: Seq<T>) -> Seq<T> {
    Seq::new(
        peaks.len(),
        |i: int|
            if i + 1 < peaks.len() && less(peaks[i], peaks[i + 1]) {
                peaks[i + 1]
            } else {
                peaks[i]
            },
    )
}

/// The level after an envelope value: it rises by the attack and falls by the
/// decay constant.
pub open spec fn smoothed<T: Real>(p: LevelEstimatorParameters<T>, level: T, value: T) -> T {
    let constant = if less(level, value) {
        p.attack_filter_constant
    } else {
        p.decay_filter_constant
    };
    plus(times(value, minus(p.one, constant)), times(level, constant))
}

/// The level after the first `n` values of the envelope.
pub open spec fn level_after<T: Real>(
    p: LevelEstimatorParameters<T>,
    level: T,
    envelope: Seq<T>,
    n: int,
) -> T
    decreases n,
{
    if n <= 0 {
        level
    } else {
        smoothed(p, level_after(p, level, envelope, n - 1), envelope[n - 1])
    }
}

/// The peaks of the sub-frames.
pub open spec fn peaks_of<T: Real>(frame: Seq<Vec<T>>, size: int) -> Seq<T> {
    Seq::new(
        SUB_FRAMES_IN_FRAME as nat,
        |i: int| sub_frame_peak(frame, i, size, frame.len() as int),
    )
}

/// The levels of the sub-frames.
pub open spec fn levels_of<T: Real>(
    p: LevelEstimatorParameters<T>,
    level: T,
    frame: Seq<Vec<T>>,
    size: int,
) -> Seq<T> {
    Seq::new(
        SUB_FRAMES_IN_FRAME as nat,
        |i: int| level_after(p, level, look_ahead(peaks_of(frame, size)), i + 1),
    )
}

/// The peak of a sub-frame is no less than any of its samples and the opposite of any of
/// them, in whichever channel, and one of these or zero.
pub proof fn law_peak_is_over_all_channels<T: Real>(
    frame: Seq<Vec<T>>,
    sub_frame: int,
    size: int,
    n: int,
)
    requires
        is_ordered::<T>(),
        sums_keep_order::<T>(),
        0 <= n <= frame.len(),
        0 <= sub_frame,
        0 <= size,
        forall|ch: int|
            0 <= ch < frame.len() ==> (sub_frame + 1) * size <= (#[trigger] frame[ch])@.len(),
        forall|ch: int, i: int|
            0 <= ch < frame.len() && 0 <= i < frame[ch]@.len() ==> is_number(
                #[trigger] frame[ch]@[i],
            ),
    ensures
        at_most(zero_of(), sub_frame_peak(frame, sub_frame, size, n)),
        forall|ch: int, i: int|
            #![trigger frame[ch]@[i]]
            0 <= ch < n && sub_frame * size <= i < (sub_frame + 1) * size ==> at_most(
                frame[ch]@[i],
                sub_frame_peak(frame, sub_frame, size, n),
            ) && at_most(negative(frame[ch]@[i]), sub_frame_peak(frame, sub_frame, size, n)),
        sub_frame_peak(frame, sub_frame, size, n) == zero_of::<T>() || exists|ch: int, i: int|
            #![trigger frame[ch]@[i]]
            0 <= ch < n && sub_frame * size <= i < (sub_frame + 1) * size && (sub_frame_peak(
                frame,
                sub_frame,
                size,
                n,
            ) == frame[ch]@[i] || sub_frame_peak(frame, sub_frame, size, n) == negative(
                frame[ch]@[i],
            )),
    decreases n,
{
    let zero = zero_of::<T>();
    let now = sub_frame_peak(frame, sub_frame, size, n);
    lemma_order(zero, zero, zero);
    if n > 0 {
        let before = sub_frame_peak(frame, sub_frame, size, n - 1);
        let channel = frame[n - 1]@;
        let samples = sub_frame_of(channel, sub_frame, size);
        law_peak_is_over_all_channels(frame, sub_frame, size, n - 1);
        assert((sub_frame + 1) * size == sub_frame * size + size) by (nonlinear_arith);
        assert(0 <= sub_frame * size) by (nonlinear_arith)
            requires
                0 <= sub_frame,
                0 <= size,
        ;
        assert((sub_frame + 1) * size <= frame[n - 1]@.len());
        assert(samples.len() == size);
        assert forall|i: int| 0 <= i < samples.len() implies is_number(#[trigger] samples[i]) by {
            assert(samples[i] == frame[n - 1]@[sub_frame * size + i]);
        }
        lemma_order(zero, before, zero);
        law_largest_magnitude(before, samples, size);
        lemma_order(zero, before, now);
        assert forall|ch: int, i: int|
            #![trigger frame[ch]@[i]]
            0 <= ch < n && sub_frame * size <= i < (sub_frame + 1) * size implies at_most(
            frame[ch]@[i],
            now,
        ) && at_most(negative(frame[ch]@[i]), now) by {
            if ch == n - 1 {
                assert(samples[i - sub_frame * size] == frame[ch]@[i]);
            } else {
                lemma_order(frame[ch]@[i], before, now);
                lemma_order(negative(frame[ch]@[i]), before, now);
            }
        }
        if now == before {
            if before != zero {
                let (ch, i) = choose|ch: int, i: int|
                    #![trigger frame[ch]@[i]]
                    0 <= ch < n - 1 && sub_frame * size <= i < (sub_frame + 1) * size && (before
                        == frame[ch]@[i] || before == negative(frame[ch]@[i]));
                assert(now == frame[ch]@[i] || now == negative(frame[ch]@[i]));
            }
        } else {
            let i = choose|i: int|
                0 <= i < size && (now == #[trigger] samples[i] || now == negative(samples[i]));
            assert(frame[n - 1]@[sub_frame * size + i] == samples[i]);
        }
    }
}

/// The envelope is no less than the peak and the next one, and one of the two.
pub proof fn law_envelope_covers_peaks<T: Real>(peaks: Seq<T>, i: int)
    requires
        is_ordered::<T>(),
        0 <= i < peaks.len(),
        forall|k: int| 0 <= k < peaks.len() ==> is_number(#[trigger] peaks[k]),
    ensures
        look_ahead(peaks).len() == peaks.len(),
        at_most(peaks[i], look_ahead(peaks)[i]),
        i + 1 < peaks.len() ==> at_most(peaks[i + 1], look_ahead(peaks)[i]),
        look_ahead(peaks)[i] == peaks[i] || (i + 1 < peaks.len() && look_ahead(peaks)[i]
            == peaks[i + 1]),
{
    assert(is_number(peaks[i]));
    lemma_order(peaks[i], peaks[i], peaks[i]);
    if i + 1 < peaks.len() {
        assert(is_number(peaks[i + 1]));
        lemma_order(peaks[i], peaks[i + 1], peaks[i]);
    }
}

/// The level goes towards the value and not beyond it: the smaller the constant, which
/// is that of the attack if the level rises and that of the decay if not, the nearer it
/// comes. A steady value is its own level.
pub proof fn law_level_follows<T: Real>(p: LevelEstimatorParameters<T>, level: T, value: T)
    requires
        is_ordered::<T>(),
        sums_keep_order::<T>(),
        products_keep_order::<T>(),
        is_exact::<T>(),
        is_one(p.one),
        at_most(zero_of(), p.attack_filter_constant),
        at_most(p.attack_filter_constant, p.one),
        at_most(zero_of(), p.decay_filter_constant),
        at_most(p.decay_filter_constant, p.one),
    ensures
        at_most(level, value) ==> at_most(level, smoothed(p, level, value)) && at_most(
            smoothed(p, level, value),
            value,
        ),
        at_most(value, level) ==> at_most(value, smoothed(p, level, value)) && at_most(
            smoothed(p, level, value),
            level,
        ),
        less(level, value) ==> smoothed(p, level, value) == plus(
            value,
            times(minus(level, value), p.attack_filter_constant),
        ),
        less(value, level) ==> smoothed(p, level, value) == plus(
            value,
            times(minus(level, value), p.decay_filter_constant),
        ),
        level == value ==> smoothed(p, level, value) == value,
{
    lemma_order(level, value, level);
    lemma_order(value, level, value);
    if less(level, value) {
        lemma_mix(p.one, p.attack_filter_constant, level, value);
    } else {
        lemma_mix(p.one, p.decay_filter_constant, level, value);
    }
}

/// A frame with the same peak in all of its sub-frames, which the level has reached,
/// keeps it there.
pub proof fn law_steady_level<T: Real>(
    p: LevelEstimatorParameters<T>,
    level: T,
    frame: Seq<Vec<T>>,
    size: int,
)
    requires
        is_ordered::<T>(),
        sums_keep_order::<T>(),
        products_keep_order::<T>(),
        is_exact::<T>(),
        is_one(p.one),
        at_most(zero_of(), p.attack_filter_constant),
        at_most(p.attack_filter_constant, p.one),
        at_most(zero_of(), p.decay_filter_constant),
        at_most(p.decay_filter_constant, p.one),
        forall|i: int|
            0 <= i < SUB_FRAMES_IN_FRAME ==> #[trigger] sub_frame_peak(
                frame,
                i,
                size,
                frame.len() as int,
            ) == level,
    ensures
        levels_of(p, level, frame, size).len() == SUB_FRAMES_IN_FRAME,
        forall|i: int|
            0 <= i < SUB_FRAMES_IN_FRAME ==> #[trigger] levels_of(p, level, frame, size)[i]
                == level,
{
    let peaks = peaks_of(frame, size);
    let envelope = look_ahead(peaks);
    assert forall|i: int| 0 <= i < SUB_FRAMES_IN_FRAME implies #[trigger] envelope[i] == level by {
        assert(sub_frame_peak(frame, i, size, frame.len() as int) == level);
        if i + 1 < SUB_FRAMES_IN_FRAME {
            assert(sub_frame_peak(frame, i + 1, size, frame.len() as int) == level);
            assert(peaks[i + 1] == level);
        }
        assert(peaks[i] == level);
    }
    assert forall|i: int| 0 <= i < SUB_FRAMES_IN_FRAME implies #[trigger] levels_of(
        p,
        level,
        frame,
        size,
    )[i] == level by {
        lemma_steady_level(p, level, envelope, i + 1);
    }
}

proof fn lemma_steady_level<T: Real>(
    p: LevelEstimatorParameters<T>,
    level: T,
    envelope: Seq<T>,
    n: int,
)
    requires
        is_ordered::<T>(),
        sums_keep_order::<T>(),
        products_keep_order::<T>(),
        is_exact::<T>(),
        is_one(p.one),
        at_most(zero_of(), p.attack_filter_constant),
        at_most(p.attack_filter_constant, p.one),
        at_most(zero_of(), p.decay_filter_constant),
        at_most(p.decay_filter_constant, p.one),
        forall|i: int| 0 <= i < n ==> #[trigger] envelope[i] == level,
    ensures
        level_after(p, level, envelope, n) == level,
    decreases n,
{
    if n > 0 {
        lemma_steady_level(p, level, envelope, n - 1);
        law_level_follows(p, level, level);
    }
}

/// The level that each sub-frame starts from is that of the one before it, and the first
/// one's that of the frame before: each one follows its envelope value.
pub proof fn law_levels_follow_each_other<T: Real>(
    p: LevelEstimatorParameters<T>,
    level: T,
    frame: Seq<Vec<T>>,
    size: int,
    i: int,
)
    requires
        0 <= i < SUB_FRAMES_IN_FRAME,
    ensures
        levels_of(p, level, frame, size)[i] == smoothed(
            p,
            if i == 0 {
                level
            } else {
                levels_of(p, level, frame, size)[i - 1]
            },
            look_ahead(
                Seq::new(
                    SUB_FRAMES_IN_FRAME as nat,
                    |k: int| sub_frame_peak(frame, k, size, frame.len() as int),
                ),
            )[i],
        ),
{
    let peaks = Seq::new(
        SUB_FRAMES_IN_FRAME as nat,
        |k: int| sub_frame_peak(frame, k, size, frame.len() as int),
    );
    assert(peaks == peaks_of(frame, size));
    assert(level_after(p, level, look_ahead(peaks), 0) == level);
}

/// A number of samples that can be split into sub-frames of more than one sample.
pub open spec fn is_splittable(samples_per_channel: usize) -> bool {
    &&& samples_per_channel % SUB_FRAMES_IN_FRAME == 0
    &&& samples_per_channel / SUB_FRAMES_IN_FRAME > 1
}

/// Produces a smooth signal level estimate from an input audio stream.
pub struct FixedDigitalLevelEstimator<T: Real> {
    parameters: LevelEstimatorParameters<T>,
    filter_state_level: T,
    samples_in_frame: usize,
    samples_in_sub_frame: usize,
}

impl<T: Real> FixedDigitalLevelEstimator<T> {
    pub closed spec fn inv(&self) -> bool {
        &&& is_splittable(self.samples_in_frame)
        &&& self.samples_in_sub_frame == self.samples_in_frame / SUB_FRAMES_IN_FRAME
    }

    pub closed spec fn settings(&self) -> LevelEstimatorParameters<T> {
        self.parameters
    }

    pub closed spec fn level(&self) -> T {
        self.filter_state_level
    }

    pub closed spec fn frame_size(&self) -> usize {
        self.samples_in_frame
    }

    pub fn new(samples_per_channel: usize, parameters: LevelEstimatorParameters<T>) -> (estimator:
        Self)
        requires
            is_total::<T>(),
            is_splittable(samples_per_channel),
        ensures
            estimator.inv(),
            estimator.settings() == parameters,
            estimator.frame_size() == samples_per_channel,
            is_functional::<T>() ==> estimator.level() == zero_of::<T>(),
    {
        FixedDigitalLevelEstimator {
            parameters,
            filter_state_level: zero(),
            samples_in_frame: samples_per_channel,
            samples_in_sub_frame: samples_per_channel / SUB_FRAMES_IN_FRAME,
        }
    }

    /// Returns the levels of the sub-frames of a deinterleaved frame.
    pub fn compute_level(&mut self, float_frame: &[Vec<T>]) -> (levels: [T; SUB_FRAMES_IN_FRAME])
        requires
            is_total::<T>(),
            old(self).inv(),
            float_frame@.len() > 0,
            forall|ch: int|
                0 <= ch < float_frame@.len() ==> (#[trigger] float_frame@[ch])@.len() == old(
                    self).frame_size(),
        ensures
            final(self).inv(),
            final(self).settings() == old(self).settings(),
            final(self).frame_size() == old(self).frame_size(),
            final(self).level() == levels@[SUB_FRAMES_IN_FRAME - 1],
            is_functional::<T>() ==> levels@ == levels_of(
                old(self).settings(),
                old(self).level(),
                float_frame@,
                (old(self).frame_size() / SUB_FRAMES_IN_FRAME) as int,
            ),
    {
        let ghost size = self.samples_in_sub_frame as int;
        let ghost p = self.parameters;
        let ghost first = self.filter_state_level;
        // Max envelope without smoothing.
        let nothing: T = zero();
        let mut envelope: [T; SUB_FRAMES_IN_FRAME] = array_fill_for_copy_types(nothing);
        let mut ch: usize = 0;
        while ch < float_frame.len()
            invariant
                is_total::<T>(),
                self.inv(),
                *self == *old(self),
                size == self.samples_in_sub_frame,
                ch <= float_frame@.len(),
                forall|ch: int|
                    0 <= ch < float_frame@.len() ==> (#[trigger] float_frame@[ch])@.len()
                        == self.samples_in_frame,
                is_functional::<T>() ==> forall|i: int|
                    0 <= i < SUB_FRAMES_IN_FRAME ==> #[trigger] envelope@[i] == sub_frame_peak(
                        float_frame@,
                        i,
                        size,
                        ch as int,
                    ),
            decreases float_frame@.len() - ch,
        {
            let channel = &float_frame[ch];
            let mut sub_frame: usize = 0;
            let mut start: usize = 0;
            while sub_frame < SUB_FRAMES_IN_FRAME
                invariant
                    is_total::<T>(),
                    self.inv(),
                    *self == *old(self),
                    size == self.samples_in_sub_frame,
                    ch < float_frame@.len(),
                    *channel == float_frame@[ch as int],
                    channel@.len() == self.samples_in_frame,
                    sub_frame <= SUB_FRAMES_IN_FRAME,
                    start == sub_frame * size,
                    is_functional::<T>() ==> forall|i: int|
                        0 <= i < SUB_FRAMES_IN_FRAME ==> #[trigger] envelope@[i]
                            == sub_frame_peak(
                            float_frame@,
                            i,
                            size,
                            if i < sub_frame {
                                ch + 1
                            } else {
                                ch as int
                            },
                        ),
                decreases SUB_FRAMES_IN_FRAME - sub_frame,
            {
                assert((sub_frame + 1) * size == sub_frame * size + size && (sub_frame + 1) * size
                    <= SUB_FRAMES_IN_FRAME * size) by (nonlinear_arith)
                    requires
                        sub_frame + 1 <= SUB_FRAMES_IN_FRAME,
                        size >= 0,
                ;
                let end: usize = start + self.samples_in_sub_frame;
                let value = peak_beyond(
                    envelope[sub_frame],
                    slice_subrange(channel.as_slice(), start, end),
                );
                assert(channel@.subrange(start as int, end as int) =~= sub_frame_of(
                    float_frame@[ch as int]@,
                    sub_frame as int,
                    size,
                ));
                envelope[sub_frame] = value;
                start = end;
                sub_frame = sub_frame + 1;
            }
            ch = ch + 1;
        }
        let ghost peaks = peaks_of(float_frame@, size);
        assert(is_functional::<T>() ==> envelope@ =~= peaks);
        // Make sure envelope increases happen one step earlier.
        let mut i: usize = 0;
        while i < SUB_FRAMES_IN_FRAME - 1
            invariant
                i <= SUB_FRAMES_IN_FRAME - 1,
                peaks.len() == SUB_FRAMES_IN_FRAME,
                is_functional::<T>() ==> forall|k: int|
                    0 <= k < SUB_FRAMES_IN_FRAME ==> #[trigger] envelope@[k] == (if k < i {
                        look_ahead(peaks)[k]
                    } else {
                        peaks[k]
                    }),
            decreases SUB_FRAMES_IN_FRAME - i,
        {
            if is_less(envelope[i], envelope[i + 1]) {
                envelope[i] = envelope[i + 1];
            }
            i = i + 1;
        }
        let ghost advanced = look_ahead(peaks);
        assert(is_functional::<T>() ==> envelope@ =~= advanced);
        // Add attack / decay smoothing.
        i = 0;
        while i < SUB_FRAMES_IN_FRAME
            invariant
                is_total::<T>(),
                self.inv(),
                self.parameters == p,
                self.samples_in_frame == old(self).samples_in_frame,
                i <= SUB_FRAMES_IN_FRAME,
                i > 0 ==> self.filter_state_level == envelope@[i - 1],
                is_functional::<T>() ==> self.filter_state_level == level_after(
                    p,
                    first,
                    advanced,
                    i as int,
                ),
                is_functional::<T>() ==> forall|k: int|
                    0 <= k < SUB_FRAMES_IN_FRAME ==> #[trigger] envelope@[k] == (if k < i {
                        level_after(p, first, advanced, k + 1)
                    } else {
                        advanced[k]
                    }),
            decreases SUB_FRAMES_IN_FRAME - i,
        {
            let envelope_value = envelope[i];
            let constant = if is_less(self.filter_state_level, envelope_value) {
                self.parameters.attack_filter_constant
            } else {
                self.parameters.decay_filter_constant
            };
            let value = sum(
                product(envelope_value, difference(self.parameters.one, constant)),
                product(self.filter_state_level, constant),
            );
            envelope[i] = value;
            self.filter_state_level = value;
            i = i + 1;
        }
        assert(is_functional::<T>() ==> envelope@ =~= levels_of(p, first, float_frame@, size));
        envelope
    }

    pub fn set_samples_per_channel(&mut self, samples_per_channel: usize)
        requires
            is_splittable(samples_per_channel),
        ensures
            final(self).inv(),
            final(self).settings() == old(self).settings(),
            final(self).level() == old(self).level(),
            final(self).frame_size() == samples_per_channel,
    {
        self.samples_in_frame = samples_per_channel;
        self.samples_in_sub_frame = self.samples_in_frame / SUB_FRAMES_IN_FRAME;
    }

    pub fn reset(&mut self)
        requires
            is_total::<T>(),
            old(self).inv(),
        ensures
            final(self).inv(),
            final(self).settings() == old(self).settings(),
            final(self).frame_size() == old(self).frame_size(),
            is_functional::<T>() ==> final(self).level() == zero_of::<T>(),
    {
        self.filter_state_level = zero();
    }

    pub fn last_audio_level(&self) -> (level: T)
        ensures
            level == self.level(),
    {
        self.filter_state_level
    }
}

} // verus!
