//! Gain applier.
use crate::audio_processing::arithmetic::{
    apply, at_most, clamp, clamped, difference, image, is_at_most, is_functional, is_mapping,
    is_same, is_total, less, minus, negative, opposite, over, plus, product, quotient, same, sum,
    times, zero_of, Real,
};
use crate::audio_processing::ordered::{
    is_counting, is_exact, is_number, is_one, is_ordered, lemma_counting, lemma_exact, lemma_order,
    lemma_products, lemma_ramp, lemma_sums, products_keep_order, sums_keep_order,
};
use vstd::prelude::*;

verus! {

#[derive(Debug, Clone, Copy)]
pub struct GainApplierParameters<T: Real> {
    pub one: T,
    pub min_sample: T,
    pub max_sample: T,
}

/// Whether a gain changes no sample by more than a step of the sample range.
pub open spec fn is_close_to_one<T: Real>(p: GainApplierParameters<T>, gain: T) -> bool {
    &&& at_most(minus(p.one, over(p.one, p.max_sample)), gain)
    &&& at_most(gain, plus(p.one, over(p.one, p.max_sample)))
}

/// The gain at sample `i` of a ramp.
pub open spec fn ramp<T: Real>(first: T, increment: T, i: int) -> T
    decreases i,
{
    if i <= 0 {
        first
    } else {
        plus(ramp(first, increment, i - 1), increment)
    }
}

/// Sample `i` of a channel with the gain applied: nothing changes under a constant
/// gain close to one, and the gain ramps where it changed.
pub open spec fn with_gain<T: Real>(
    p: GainApplierParameters<T>,
    last_gain: T,
    gain: T,
    inverse_samples_per_channel: T,
    channel: Seq<T>,
    i: int,
) -> T {
    if same(last_gain, gain) {
        if is_close_to_one(p, gain) {
            channel[i]
        } else {
            times(channel[i], gain)
        }
    } else {
        times(
            channel[i],
            ramp(last_gain, times(minus(gain, last_gain), inverse_samples_per_channel), i),
        )
    }
}

/// A gain close to one changes no sample of the range by more than a step: with it and
/// without it a sample is the same up to one.
pub proof fn law_close_to_one<T: Real>(p: GainApplierParameters<T>, gain: T, sample: T)
    requires
        is_ordered::<T>(),
        sums_keep_order::<T>(),
        products_keep_order::<T>(),
        is_exact::<T>(),
        is_one(p.one),
        less(zero_of(), p.max_sample),
        at_most(zero_of(), sample),
        at_most(sample, p.max_sample),
        is_close_to_one(p, gain),
    ensures
        at_most(minus(sample, p.one), times(sample, gain)),
        at_most(times(sample, gain), plus(sample, p.one)),
{
    let zero = zero_of::<T>();
    let step = over(p.one, p.max_sample);
    let low = minus(p.one, step);
    let high = plus(p.one, step);
    assert(is_number(sample));
    assert(times(sample, p.one) == sample);
    lemma_order(zero, p.one, zero);
    lemma_order(zero, p.max_sample, zero);
    lemma_products(low, gain, sample);
    lemma_products(gain, high, sample);
    // No sample has more than one as its part of the step.
    lemma_exact(p.one, p.max_sample, zero);
    lemma_exact(step, p.max_sample, zero);
    lemma_products(p.one, p.max_sample, zero);
    lemma_products(sample, p.max_sample, step);
    lemma_exact(sample, step, zero);
    lemma_exact(p.one, step, sample);
    lemma_exact(p.one, negative(step), sample);
    lemma_exact(sample, p.one, zero);
    lemma_products(step, sample, zero);
    lemma_exact(step, sample, zero);
    lemma_exact(negative(step), sample, zero);
    let part = times(step, sample);
    assert(at_most(part, p.one));
    lemma_exact(sample, part, zero);
    assert(times(sample, high) == plus(sample, part));
    assert(times(sample, low) == minus(sample, part));
    lemma_sums(part, p.one, sample, sample);
    lemma_order(minus(sample, p.one), times(sample, low), times(sample, gain));
    lemma_order(times(sample, gain), times(sample, high), plus(sample, p.one));
}

/// A gain that does not keep to a step around one does not count as close to it.
pub proof fn law_not_close_to_one<T: Real>(p: GainApplierParameters<T>, gain: T)
    requires
        is_ordered::<T>(),
        less(gain, minus(p.one, over(p.one, p.max_sample))) || less(
            plus(p.one, over(p.one, p.max_sample)),
            gain,
        ),
    ensures
        !is_close_to_one(p, gain),
{
    lemma_order(gain, minus(p.one, over(p.one, p.max_sample)), gain);
    lemma_order(plus(p.one, over(p.one, p.max_sample)), gain, gain);
}

/// The ramp goes straight from the gain of the frame before, which the first sample has,
/// to the new one, which the first sample after the frame would have, and stays between
/// them.
pub proof fn law_ramp<T: Real>(
    p: GainApplierParameters<T>,
    number: spec_fn(int) -> T,
    last_gain: T,
    gain: T,
    samples: int,
    i: int,
)
    requires
        is_ordered::<T>(),
        sums_keep_order::<T>(),
        products_keep_order::<T>(),
        is_exact::<T>(),
        is_one(p.one),
        0 <= i <= samples,
        0 < samples,
        is_counting(p.one, number, samples),
    ensures
        ({
            let inverse = over(p.one, number(samples));
            let value = ramp(last_gain, times(minus(gain, last_gain), inverse), i);
            &&& i == 0 ==> value == last_gain
            &&& i == samples ==> value == gain
            &&& at_most(last_gain, gain) ==> at_most(last_gain, value) && at_most(value, gain)
            &&& at_most(gain, last_gain) ==> at_most(gain, value) && at_most(value, last_gain)
            &&& value == plus(
                last_gain,
                times(over(minus(gain, last_gain), number(samples)), number(i)),
            )
        }),
{
    let zero = zero_of::<T>();
    let inverse = over(p.one, number(samples));
    let d = minus(gain, last_gain);
    let increment = times(d, inverse);
    let size = number(samples);
    lemma_counting(p.one, number, samples, 0, samples);
    lemma_counting(p.one, number, samples, i, samples);
    lemma_counting(p.one, number, samples, 0, i);
    lemma_ramp_is_straight(p.one, number, samples, last_gain, increment, i);
    // The increment is the difference over the number of samples.
    lemma_exact(p.one, size, zero);
    lemma_exact(d, inverse, size);
    lemma_exact(inverse, size, zero);
    lemma_exact(d, size, inverse);
    lemma_exact(over(d, size), size, inverse);
    lemma_exact(size, inverse, zero);
    lemma_exact(over(d, size), p.one, zero);
    assert(is_number(over(d, size)));
    assert(times(over(d, size), p.one) == over(d, size));
    assert(increment == over(d, size));
    lemma_ramp(last_gain, gain, number(i), size);
}

proof fn lemma_ramp_is_straight<T: Real>(
    one: T,
    number: spec_fn(int) -> T,
    max: int,
    first: T,
    increment: T,
    i: int,
)
    requires
        is_exact::<T>(),
        is_one(one),
        is_counting(one, number, max),
        0 <= i <= max,
    ensures
        ramp(first, increment, i) == plus(first, times(increment, number(i))),
    decreases i,
{
    let zero = zero_of::<T>();
    if i > 0 {
        lemma_ramp_is_straight(one, number, max, first, increment, i - 1);
        let before = times(increment, number(i - 1));
        lemma_exact(number(i - 1), one, increment);
        assert(number(i) == plus(number(i - 1), one));
        assert(is_number(increment));
        assert(times(increment, one) == increment);
        lemma_exact(first, before, increment);
    } else {
        lemma_exact(increment, zero, zero);
        lemma_exact(first, zero, zero);
    }
}

/// A gain that does not change leaves each sample alone where it is close to one, and
/// scales it by the gain where it is not; one that changes scales the first sample by
/// the gain of the frame before.
pub proof fn law_gain_scales<T: Real>(
    p: GainApplierParameters<T>,
    last_gain: T,
    gain: T,
    inverse_samples_per_channel: T,
    channel: Seq<T>,
    i: int,
)
    ensures
        same(last_gain, gain) && is_close_to_one(p, gain) ==> with_gain(
            p,
            last_gain,
            gain,
            inverse_samples_per_channel,
            channel,
            i,
        ) == channel[i],
        same(last_gain, gain) && !is_close_to_one(p, gain) ==> with_gain(
            p,
            last_gain,
            gain,
            inverse_samples_per_channel,
            channel,
            i,
        ) == times(channel[i], gain),
        !same(last_gain, gain) && i == 0 ==> with_gain(
            p,
            last_gain,
            gain,
            inverse_samples_per_channel,
            channel,
            i,
        ) == times(channel[0], last_gain),
        !same(last_gain, gain) ==> with_gain(
            p,
            last_gain,
            gain,
            inverse_samples_per_channel,
            channel,
            i,
        ) == times(
            channel[i],
            ramp(last_gain, times(minus(gain, last_gain), inverse_samples_per_channel), i),
        ),
{
}

/// Applies a (possibly ramped) gain to deinterleaved floating-point frames.
pub struct GainApplier<T: Real> {
    parameters: GainApplierParameters<T>,
    /// Whether to clip samples after gain is applied.
    hard_clip_samples: bool,
    last_gain_factor: T,
    /// If this differs from `last_gain_factor`, gain ramps during next `apply_gain`.
    current_gain_factor: T,
    samples_per_channel: i32,
    inverse_samples_per_channel: T,
}

/// Whether every channel has as many samples as the first one, and that is not
/// none.
pub open spec fn is_frame<T>(signal: Seq<Vec<T>>) -> bool {
    &&& signal.len() > 0
    &&& 0 < signal[0]@.len() <= i32::MAX
    &&& forall|ch: int|
        0 <= ch < signal.len() ==> (#[trigger] signal[ch])@.len() == signal[0]@.len()
}

impl<T: Real> GainApplier<T> {
    pub closed spec fn settings(&self) -> GainApplierParameters<T> {
        self.parameters
    }

    pub closed spec fn clips(&self) -> bool {
        self.hard_clip_samples
    }

    pub closed spec fn last_gain(&self) -> T {
        self.last_gain_factor
    }

    pub closed spec fn gain(&self) -> T {
        self.current_gain_factor
    }

    pub closed spec fn num_samples(&self) -> i32 {
        self.samples_per_channel
    }

    pub closed spec fn inverse(&self) -> T {
        self.inverse_samples_per_channel
    }

    pub fn new(hard_clip_samples: bool, initial_gain_factor: T, parameters: GainApplierParameters<
        T,
    >) -> (applier: Self)
        requires
            is_total::<T>(),
        ensures
            applier.settings() == parameters,
            applier.clips() == hard_clip_samples,
            applier.last_gain() == initial_gain_factor,
            applier.gain() == initial_gain_factor,
            applier.num_samples() == -1,
            is_functional::<T>() ==> applier.inverse() == negative(parameters.one),
    {
        GainApplier {
            parameters,
            hard_clip_samples,
            last_gain_factor: initial_gain_factor,
            current_gain_factor: initial_gain_factor,
            samples_per_channel: -1,
            inverse_samples_per_channel: opposite(parameters.one),
        }
    }

    /// Applies the gain; `number` gives the number for an integer.
    pub fn apply_gain<N: Fn(i32) -> T>(&mut self, signal: &mut [Vec<T>], number: &N)
        requires
            is_total::<T>(),
            is_frame(old(signal)@),
            forall|n: i32| call_requires(number, (n,)),
        ensures
            final(self).settings() == old(self).settings(),
            final(self).clips() == old(self).clips(),
            final(self).last_gain() == old(self).gain(),
            final(self).gain() == old(self).gain(),
            final(self).num_samples() == old(signal)@[0]@.len(),
            final(self).num_samples() == old(self).num_samples() ==> final(self).inverse() == old(
                self).inverse(),
            is_functional::<T>() && is_mapping(*number) && final(self).num_samples() != old(
                self).num_samples() ==> final(self).inverse() == over(
                old(self).settings().one,
                image(*number, final(self).num_samples()),
            ),
            final(signal)@.len() == old(signal)@.len(),
            forall|ch: int|
                0 <= ch < old(signal)@.len() ==> (#[trigger] final(signal)@[ch])@.len() == old(
                    signal)@[ch]@.len(),
            is_functional::<T>() ==> forall|ch: int, i: int|
                0 <= ch < old(signal)@.len() && 0 <= i < old(signal)@[ch]@.len()
                    ==> #[trigger] final(signal)@[ch]@[i] == ({
                    let sample = with_gain(
                        old(self).settings(),
                        old(self).last_gain(),
                        old(self).gain(),
                        final(self).inverse(),
                        old(signal)@[ch]@,
                        i,
                    );
                    if old(self).clips() {
                        clamped(
                            sample,
                            old(self).settings().min_sample,
                            old(self).settings().max_sample,
                        )
                    } else {
                        sample
                    }
                }),
    {
        let samples_per_channel: i32 = signal[0].len() as i32;
        if samples_per_channel != self.samples_per_channel {
            self.initialize(samples_per_channel, number);
        }
        let ghost before = signal@;
        let mut ch: usize = 0;
        while ch < signal.len()
            invariant
                is_total::<T>(),
                ch <= signal@.len() == before.len(),
                self.parameters == old(self).parameters,
                self.hard_clip_samples == old(self).hard_clip_samples,
                self.last_gain_factor == old(self).last_gain_factor,
                self.current_gain_factor == old(self).current_gain_factor,
                forall|c: int| ch <= c < before.len() ==> signal@[c] == before[c],
                forall|c: int| 0 <= c < ch ==> (#[trigger] signal@[c])@.len() == before[c]@.len(),
                is_functional::<T>() ==> forall|c: int, i: int|
                    0 <= c < ch && 0 <= i < before[c]@.len() ==> #[trigger] signal@[c]@[i]
                        == self.processed(before[c]@, i),
            decreases signal@.len() - ch,
        {
            self.process_channel(&mut signal[ch]);
            ch = ch + 1;
        }
        self.last_gain_factor = self.current_gain_factor;
    }

    /// Sample `i` of a channel after processing.
    closed spec fn processed(&self, channel: Seq<T>, i: int) -> T {
        let sample = with_gain(
            self.parameters,
            self.last_gain_factor,
            self.current_gain_factor,
            self.inverse_samples_per_channel,
            channel,
            i,
        );
        if self.hard_clip_samples {
            clamped(sample, self.parameters.min_sample, self.parameters.max_sample)
        } else {
            sample
        }
    }

    fn process_channel(&self, channel: &mut Vec<T>)
        requires
            is_total::<T>(),
        ensures
            final(channel)@.len() == old(channel)@.len(),
            is_functional::<T>() ==> forall|i: int|
                0 <= i < old(channel)@.len() ==> #[trigger] final(channel)@[i] == self.processed(
                    old(channel)@,
                    i,
                ),
    {
        let ghost before = channel@;
        let constant = is_same(self.last_gain_factor, self.current_gain_factor);
        let unchanged = constant && gain_close_to_one(&self.parameters, self.current_gain_factor);
        let increment = product(
            difference(self.current_gain_factor, self.last_gain_factor),
            self.inverse_samples_per_channel,
        );
        let mut gain = self.last_gain_factor;
        let mut i: usize = 0;
        while i < channel.len()
            invariant
                is_total::<T>(),
                i <= channel@.len() == before.len(),
                is_functional::<T>() ==> {
                    &&& constant == same(self.last_gain_factor, self.current_gain_factor)
                    &&& unchanged == (constant && is_close_to_one(
                        self.parameters,
                        self.current_gain_factor,
                    ))
                    &&& increment == times(
                        minus(self.current_gain_factor, self.last_gain_factor),
                        self.inverse_samples_per_channel,
                    )
                    &&& !constant ==> gain == ramp(self.last_gain_factor, increment, i as int)
                },
                forall|k: int| i <= k < before.len() ==> channel@[k] == before[k],
                is_functional::<T>() ==> forall|k: int|
                    0 <= k < i ==> #[trigger] channel@[k] == self.processed(before, k),
            decreases channel@.len() - i,
        {
            let sample = if unchanged {
                channel[i]
            } else if constant {
                product(channel[i], self.current_gain_factor)
            } else {
                product(channel[i], gain)
            };
            if !constant {
                gain = sum(gain, increment);
            }
            channel[i] = if self.hard_clip_samples {
                clamp(sample, self.parameters.min_sample, self.parameters.max_sample)
            } else {
                sample
            };
            i = i + 1;
        }
    }

    pub fn set_gain_factor(&mut self, gain_factor: T)
        requires
            is_functional::<T>() ==> less(zero_of::<T>(), gain_factor),
        ensures
            final(self).settings() == old(self).settings(),
            final(self).clips() == old(self).clips(),
            final(self).last_gain() == old(self).last_gain(),
            final(self).num_samples() == old(self).num_samples(),
            final(self).inverse() == old(self).inverse(),
            final(self).gain() == gain_factor,
    {
        self.current_gain_factor = gain_factor;
    }

    pub fn get_gain_factor(&self) -> (gain_factor: T)
        ensures
            gain_factor == self.gain(),
    {
        self.current_gain_factor
    }

    fn initialize<N: Fn(i32) -> T>(&mut self, samples_per_channel: i32, number: &N)
        requires
            is_total::<T>(),
            forall|n: i32| call_requires(number, (n,)),
        ensures
            final(self).settings() == old(self).settings(),
            final(self).clips() == old(self).clips(),
            final(self).last_gain() == old(self).last_gain(),
            final(self).gain() == old(self).gain(),
            final(self).num_samples() == samples_per_channel,
            is_functional::<T>() && is_mapping(*number) ==> final(self).inverse() == over(
                old(self).settings().one,
                image(*number, samples_per_channel),
            ),
    {
        self.samples_per_channel = samples_per_channel;
        self.inverse_samples_per_channel =
        quotient(self.parameters.one, apply(number, samples_per_channel));
    }
}

fn gain_close_to_one<T: Real>(p: &GainApplierParameters<T>, gain_factor: T) -> (close: bool)
    requires
        is_total::<T>(),
    ensures
        is_functional::<T>() ==> close == is_close_to_one(*p, gain_factor),
{
    let step = quotient(p.one, p.max_sample);
    is_at_most(difference(p.one, step), gain_factor) && is_at_most(gain_factor, sum(p.one, step))
}

} // verus!
