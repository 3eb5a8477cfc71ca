//! Frame-wise clipping prediction and clipped level step estimation.
use crate::audio_processing::agc2::clipping_predictor_level_buffer::{
    partial_metrics, ClippingPredictorLevelBuffer, Level,
};
use crate::audio_processing::agc2::gain_map::{
    compute_volume_update, volume_update, MAX_INPUT_VOLUME,
};
use crate::audio_processing::arithmetic::{
    apply, at_most, difference, energy, energy_of, image, is_at_most, is_functional, is_less,
    is_mapping, is_total, largest_magnitude, less, minus, negative, over, peak_beyond, plus, product,
    quotient, sum, times, zero, zero_of, Real,
};
use crate::audio_processing::ordered::{
    is_exact, is_number, is_ordered, law_largest_magnitude, lemma_exact, lemma_order,
    lemma_products, lemma_sums, products_keep_order, sums_keep_order,
};
use vstd::prelude::*;

verus! {

/// The largest change of the gain that is asked for, in dB.
pub const CLIPPING_PREDICTOR_MAX_GAIN_CHANGE: i32 = 15;

#[derive(Debug, Clone, Copy, PartialEq, Eq, Structural)]
pub enum ClippingPredictorMode {
    ClippingEventPrediction,
    AdaptiveStepClippingPeakPrediction,
    FixedStepClippingPeakPrediction,
}

#[derive(Debug, Clone, Copy)]
pub struct ClippingPredictorConfig<T: Real> {
    pub enabled: bool,
    pub mode: ClippingPredictorMode,
    pub window_length: i32,
    pub reference_window_length: i32,
    pub reference_window_delay: i32,
    pub clipping_threshold: T,
    pub crest_factor_margin: T,
}

/// The numbers that levels are computed with.
#[derive(Debug, Clone, Copy)]
pub struct LevelParameters<T: Real> {
    pub one: T,
    pub twenty: T,
    pub min_level_dbfs: T,
}

/// The functions that levels are computed with.
pub struct LevelFunctions<N, L, R, C> {
    /// Gives the number for an integer.
    pub number: N,
    pub log10: L,
    /// The square root.
    pub root: R,
    /// Gives the least integer that is not below a number.
    pub ceil: C,
}

/// The level in dBFS of a sample.
pub open spec fn sample_dbfs<T: Real>(p: LevelParameters<T>, log10: spec_fn(T) -> T, v: T) -> T {
    if at_most(v, p.one) {
        p.min_level_dbfs
    } else {
        plus(times(p.twenty, log10(v)), p.min_level_dbfs)
    }
}

/// The crest factor in dB: how far the peak is beyond the root mean square.
pub open spec fn crest_factor_of<T: Real>(
    p: LevelParameters<T>,
    log10: spec_fn(T) -> T,
    root: spec_fn(T) -> T,
    level: Level<T>,
) -> T {
    minus(sample_dbfs(p, log10, level.max), sample_dbfs(p, log10, root(level.average)))
}

/// The level of a channel.
pub open spec fn level_of<T: Real>(channel: Seq<T>, num_samples: T) -> Level<T> {
    Level {
        average: over(energy(channel), num_samples),
        max: largest_magnitude(zero_of(), channel, channel.len() as int),
    }
}

/// No sample has a level below the least; those up to one have the least, and a larger
/// one has no lower a level.
pub proof fn law_level_rises<T: Real>(
    p: LevelParameters<T>,
    log10: spec_fn(T) -> T,
    low: T,
    high: T,
)
    requires
        is_ordered::<T>(),
        sums_keep_order::<T>(),
        products_keep_order::<T>(),
        is_exact::<T>(),
        at_most(zero_of(), p.twenty),
        at_most(low, high),
        forall|a: T, b: T| at_most(a, b) ==> #[trigger] at_most(log10(a), log10(b)),
        log10(p.one) == zero_of::<T>(),
    ensures
        at_most(p.min_level_dbfs, sample_dbfs(p, log10, low)),
        at_most(low, p.one) ==> sample_dbfs(p, log10, low) == p.min_level_dbfs,
        less(p.one, low) ==> minus(sample_dbfs(p, log10, low), p.min_level_dbfs) == times(
            p.twenty,
            log10(low),
        ),
        at_most(sample_dbfs(p, log10, low), sample_dbfs(p, log10, high)),
{
    let zero = zero_of::<T>();
    let least = p.min_level_dbfs;
    assert(is_number(least) && is_number(low) && is_number(high) && is_number(p.one));
    lemma_order(least, least, least);
    lemma_order(low, p.one, low);
    lemma_order(p.one, low, high);
    lemma_order(high, p.one, high);
    lemma_order(p.one, high, p.one);
    lemma_order(low, high, p.one);
    let x = times(p.twenty, log10(low));
    let y = times(p.twenty, log10(high));
    assert(at_most(log10(low), log10(high)));
    lemma_products(log10(low), log10(high), p.twenty);
    lemma_sums(x, y, least, least);
    lemma_exact(least, zero, zero);
    lemma_exact(zero, least, zero);
    lemma_exact(x, least, zero);
    lemma_exact(least, x, zero);
    lemma_exact(plus(x, least), least, zero);
    assert(minus(plus(x, least), least) == x) by {
        lemma_exact(x, least, negative(least));
        lemma_exact(least, negative(least), zero);
        lemma_exact(x, zero, zero);
    }
    if less(p.one, low) {
        assert(at_most(log10(p.one), log10(low)));
        lemma_products(p.twenty, log10(low), zero);
        lemma_sums(zero, x, least, least);
    }
    if less(p.one, high) {
        assert(at_most(log10(p.one), log10(high)));
        lemma_products(p.twenty, log10(high), zero);
        lemma_sums(zero, y, least, least);
    }
}

/// The peak is above the root mean square by the crest factor.
pub proof fn law_crest_factor<T: Real>(
    p: LevelParameters<T>,
    log10: spec_fn(T) -> T,
    root: spec_fn(T) -> T,
    level: Level<T>,
)
    requires
        is_exact::<T>(),
    ensures
        plus(
            sample_dbfs(p, log10, root(level.average)),
            crest_factor_of(p, log10, root, level),
        ) == sample_dbfs(p, log10, level.max),
{
    lemma_exact(
        sample_dbfs(p, log10, root(level.average)),
        sample_dbfs(p, log10, level.max),
        zero_of(),
    );
}

/// The level of a channel has a maximum of no less than any sample or its opposite, and
/// one of these or zero, and as many times its average as there are samples is the
/// energy.
pub proof fn law_level_of_channel<T: Real>(channel: Seq<T>, num_samples: T)
    requires
        is_ordered::<T>(),
        sums_keep_order::<T>(),
        is_exact::<T>(),
        less(zero_of(), num_samples),
    ensures
        times(level_of(channel, num_samples).average, num_samples) == energy(channel),
        forall|i: int|
            #![trigger channel[i]]
            0 <= i < channel.len() ==> at_most(channel[i], level_of(channel, num_samples).max)
                && at_most(
                negative(channel[i]),
                level_of(channel, num_samples).max,
            ),
        level_of(channel, num_samples).max == zero_of::<T>() || exists|i: int|
            0 <= i < channel.len() && (level_of(channel, num_samples).max == #[trigger] channel[i]
                || level_of(channel, num_samples).max
                == negative(channel[i])),
{
    lemma_exact(energy(channel), num_samples, zero_of());
    assert(is_number(zero_of::<T>()));
    law_largest_magnitude(zero_of(), channel, channel.len() as int);
}

fn float_s16_to_dbfs<T: Real, N, L: Fn(T) -> T, R, C>(
    p: &LevelParameters<T>,
    f: &LevelFunctions<N, L, R, C>,
    v: T,
) -> (level: T)
    requires
        is_total::<T>(),
        forall|a: T| call_requires(f.log10, (a,)),
    ensures
        is_functional::<T>() && is_mapping(f.log10) ==> level == sample_dbfs(
            *p,
            |a: T| image(f.log10, a),
            v,
        ),
{
    if is_at_most(v, p.one) {
        return p.min_level_dbfs;
    }
    sum(product(p.twenty, apply(&f.log10, v)), p.min_level_dbfs)
}

fn compute_crest_factor<T: Real, N, L: Fn(T) -> T, R: Fn(T) -> T, C>(
    p: &LevelParameters<T>,
    f: &LevelFunctions<N, L, R, C>,
    level: Level<T>,
) -> (crest_factor: T)
    requires
        is_total::<T>(),
        forall|a: T| call_requires(f.log10, (a,)),
        forall|a: T| call_requires(f.root, (a,)),
    ensures
        is_functional::<T>() && is_mapping(f.log10) && is_mapping(f.root) ==> crest_factor
            == crest_factor_of(*p, |a: T| image(f.log10, a), |a: T| image(f.root, a), level),
{
    difference(
        float_s16_to_dbfs(p, f, level.max),
        float_s16_to_dbfs(p, f, apply(&f.root, level.average)),
    )
}

/// The nearest integer from `low` to `high`.
pub open spec fn nearest(a: int, low: int, high: int) -> int {
    if a < low {
        low
    } else if a > high {
        high
    } else {
        a
    }
}

fn clamp_level(a: i32, low: i32, high: i32) -> (r: i32)
    requires
        low <= high,
    ensures
        r == nearest(a as int, low as int, high as int),
{
    if a < low {
        low
    } else if a > high {
        high
    } else {
        a
    }
}

/// By how much a microphone level is lowered if it is lowered by `step`, within the
/// limits; not at all if it would not go down.
pub open spec fn lowering(level: int, step: int, min_mic_level: int, max_mic_level: int) -> Option<
    i32,
> {
    let lowered = level - nearest(level - step, min_mic_level, max_mic_level);
    if lowered > 0 {
        Some(lowered as i32)
    } else {
        None
    }
}

/// A level goes down by the step, but not below its minimum; one at or below the minimum
/// stays.
pub proof fn law_lowering(level: int, step: int, min_mic_level: int, max_mic_level: int)
    requires
        0 <= min_mic_level <= max_mic_level,
        0 <= level <= max_mic_level <= i32::MAX,
        0 <= step,
    ensures
        lowering(level, step, min_mic_level, max_mic_level) is Some <==> level > min_mic_level
            && step > 0,
        lowering(level, step, min_mic_level, max_mic_level) matches Some(s) ==> {
            &&& 0 < s <= step
            &&& min_mic_level <= level - s
            &&& s == step || level - s == min_mic_level
        },
{
}

/// The step by which a level is lowered, within the limits.
pub fn lower_level(level: i32, step: i32, min_mic_level: i32, max_mic_level: i32) -> (lowered:
    Option<i32>)
    requires
        0 <= level <= MAX_INPUT_VOLUME,
        0 <= step <= MAX_INPUT_VOLUME,
        0 <= min_mic_level <= max_mic_level <= MAX_INPUT_VOLUME,
    ensures
        lowered == lowering(
            level as int,
            step as int,
            min_mic_level as int,
            max_mic_level as int,
        ),
        lowered matches Some(s) ==> 0 < s <= level && min_mic_level <= level - s,
{
    let new_level: i32 = clamp_level(level - step, min_mic_level, max_mic_level);
    if level > new_level {
        Some(level - new_level)
    } else {
        None
    }
}

/// The change of the gain, in dB, that a peak at the given level asks for.
pub open spec fn asked_gain_change(peak_dbfs: int) -> int {
    nearest(-peak_dbfs, -CLIPPING_PREDICTOR_MAX_GAIN_CHANGE, 0)
}

/// A peak above full scale asks for as much less gain as it is above, up to the largest
/// change, and any other peak for no change.
pub proof fn law_asked_gain_change(peak_dbfs: int)
    ensures
        peak_dbfs <= 0 ==> asked_gain_change(peak_dbfs) == 0,
        0 <= peak_dbfs <= 15 ==> peak_dbfs + asked_gain_change(peak_dbfs) == 0,
        peak_dbfs >= 15 ==> asked_gain_change(peak_dbfs) == -15,
{
}

/// How far a level goes down for a peak at the given level, at least the default
/// step.
pub open spec fn adaptive_step_of(
    peak_dbfs: int,
    level: int,
    default_step: int,
    min_mic_level: int,
    max_mic_level: int,
) -> int {
    let lowered = level - volume_update(
        asked_gain_change(peak_dbfs),
        level,
        min_mic_level,
        max_mic_level,
    );
    if lowered > default_step {
        lowered
    } else {
        default_step
    }
}

/// The adaptive step is no less than the default one, and takes the level at least as far
/// down as the gain has to change for the peak; it is one of the two.
pub proof fn law_adaptive_step(
    peak_dbfs: int,
    level: int,
    default_step: int,
    min_mic_level: int,
    max_mic_level: int,
)
    ensures
        ({
            let step = adaptive_step_of(
                peak_dbfs,
                level,
                default_step,
                min_mic_level,
                max_mic_level,
            );
            let wanted = volume_update(
                asked_gain_change(peak_dbfs),
                level,
                min_mic_level,
                max_mic_level,
            );
            &&& default_step <= step
            &&& level - step <= wanted
            &&& step == default_step || level - step == wanted
        }),
{
}

/// The step for a peak that is expected at the given level.
pub fn adaptive_step(
    peak_dbfs: i32,
    level: i32,
    default_step: i32,
    min_mic_level: i32,
    max_mic_level: i32,
) -> (step: i32)
    requires
        0 <= level <= max_mic_level <= MAX_INPUT_VOLUME,
        1 <= default_step <= MAX_INPUT_VOLUME,
        0 <= min_mic_level,
    ensures
        default_step <= step <= MAX_INPUT_VOLUME,
        step == adaptive_step_of(
            peak_dbfs as int,
            level as int,
            default_step as int,
            min_mic_level as int,
            max_mic_level as int,
        ),
{
    let estimated_gain_change: i32 = if peak_dbfs >= CLIPPING_PREDICTOR_MAX_GAIN_CHANGE {
        -CLIPPING_PREDICTOR_MAX_GAIN_CHANGE
    } else if peak_dbfs <= 0 {
        0
    } else {
        -peak_dbfs
    };
    let new_volume: i32 = compute_volume_update(
        estimated_gain_change,
        level,
        min_mic_level,
        max_mic_level,
    );
    assert(estimated_gain_change == asked_gain_change(peak_dbfs as int));
    if level - new_volume > default_step {
        level - new_volume
    } else {
        default_step
    }
}

/// Lengths and delay of the windows that are compared.
#[derive(Debug, Clone, Copy, PartialEq, Eq, Structural)]
pub struct Windows {
    pub window_length: i32,
    pub reference_window_length: i32,
    pub reference_window_delay: i32,
}

impl Windows {
    pub open spec fn is_valid(self) -> bool {
        &&& self.window_length > 0
        &&& self.reference_window_length > 0
        &&& self.reference_window_delay >= 0
        &&& self.reference_window_length + self.reference_window_delay > self.window_length
        &&& self.reference_window_length + self.reference_window_delay <= i32::MAX
    }
}

/// The levels of the most recent frames.
pub struct LevelHistory<T: Real> {
    ch_buffers: Vec<ClippingPredictorLevelBuffer<T>>,
    windows: Windows,
}

impl<T: Real> LevelHistory<T> {
    pub closed spec fn inv(&self) -> bool {
        &&& self.windows.is_valid()
        &&& forall|ch: int|
            0 <= ch < self.ch_buffers@.len() ==> {
                &&& (#[trigger] self.ch_buffers@[ch]).inv()
                &&& self.ch_buffers@[ch].max_len() == self.windows.reference_window_length
                    + self.windows.reference_window_delay
            }
    }

    pub closed spec fn windows(&self) -> Windows {
        self.windows
    }

    pub closed spec fn num_channels(&self) -> nat {
        self.ch_buffers@.len()
    }

    /// The levels of a channel, the oldest one first.
    pub closed spec fn levels(&self, ch: int) -> Seq<Level<T>> {
        self.ch_buffers@[ch]@
    }

    /// How many levels are held of a channel.
    pub open spec fn max_len(&self) -> int {
        self.windows().reference_window_length + self.windows().reference_window_delay
    }

    fn new(num_channels: i32, windows: Windows) -> (history: Self)
        requires
            is_total::<T>(),
            num_channels > 0,
            windows.is_valid(),
        ensures
            history.inv(),
            history.windows() == windows,
            history.num_channels() == num_channels,
            forall|ch: int|
                0 <= ch < num_channels ==> #[trigger] history.levels(ch) == Seq::<Level<T>>::empty(),
    {
        let buffer_length: i32 = windows.reference_window_delay + windows.reference_window_length;
        let mut ch_buffers: Vec<ClippingPredictorLevelBuffer<T>> = Vec::new();
        let mut ch: i32 = 0;
        while ch < num_channels
            invariant
                is_total::<T>(),
                0 <= ch <= num_channels,
                ch_buffers@.len() == ch,
                buffer_length == windows.reference_window_delay + windows.reference_window_length,
                buffer_length >= 1,
                forall|c: int|
                    0 <= c < ch ==> {
                        &&& (#[trigger] ch_buffers@[c]).inv()
                        &&& ch_buffers@[c].max_len() == buffer_length
                        &&& ch_buffers@[c]@ == Seq::<Level<T>>::empty()
                    },
            decreases num_channels - ch,
        {
            ch_buffers.push(ClippingPredictorLevelBuffer::new(buffer_length));
            ch = ch + 1;
        }
        LevelHistory { ch_buffers, windows }
    }

    fn reset(&mut self)
        requires
            old(self).inv(),
        ensures
            final(self).inv(),
            final(self).windows() == old(self).windows(),
            final(self).num_channels() == old(self).num_channels(),
            forall|ch: int|
                0 <= ch < old(self).num_channels() ==> #[trigger] final(self).levels(ch)
                    == Seq::<Level<T>>::empty(),
    {
        let mut ch: usize = 0;
        while ch < self.ch_buffers.len()
            invariant
                self.inv(),
                ch <= self.ch_buffers@.len() == old(self).ch_buffers@.len(),
                self.windows == old(self).windows,
                forall|c: int| 0 <= c < ch ==> #[trigger] self.ch_buffers@[c]@ == Seq::<
                    Level<T>,
                >::empty(),
            decreases self.ch_buffers@.len() - ch,
        {
            self.ch_buffers[ch].reset();
            ch = ch + 1;
        }
    }

    /// Whether `after` is `self` with one more level in each channel.
    pub open spec fn is_followed_by(
        &self,
        after: &Self,
        number: spec_fn(i32) -> T,
        frame: Seq<Vec<T>>,
    ) -> bool {
        forall|ch: int|
            0 <= ch < self.num_channels() ==> #[trigger] after.levels(ch) == ({
                let level = level_of(frame[ch]@, number(frame[0]@.len() as i32));
                if self.levels(ch).len() == self.max_len() {
                    self.levels(ch).skip(1).push(level)
                } else {
                    self.levels(ch).push(level)
                }
            })
    }

    fn analyze<N: Fn(i32) -> T>(&mut self, frame: &[Vec<T>], number: &N)
        requires
            is_total::<T>(),
            old(self).inv(),
            frame@.len() == old(self).num_channels(),
            frame@.len() > 0,
            0 < frame@[0]@.len() <= i32::MAX,
            forall|n: i32| call_requires(number, (n,)),
        ensures
            final(self).inv(),
            final(self).windows() == old(self).windows(),
            final(self).num_channels() == old(self).num_channels(),
            is_functional::<T>() && is_mapping(*number) ==> old(self).is_followed_by(
                final(self),
                |n: i32| image(*number, n),
                frame@,
            ),
    {
        let ghost exact = is_functional::<T>() && is_mapping(*number);
        let samples_per_channel = apply(number, frame[0].len() as i32);
        let mut channel: usize = 0;
        while channel < frame.len()
            invariant
                is_total::<T>(),
                self.inv(),
                channel <= frame@.len() == self.ch_buffers@.len() == old(self).ch_buffers@.len(),
                self.windows == old(self).windows,
                exact ==> is_functional::<T>() && samples_per_channel == image(
                    *number,
                    frame@[0]@.len() as i32,
                ),
                forall|c: int|
                    channel <= c < frame@.len() ==> self.ch_buffers@[c] == old(self).ch_buffers@[c],
                exact ==> forall|c: int|
                    0 <= c < channel ==> #[trigger] self.ch_buffers@[c]@ == ({
                        let level = level_of(
                            frame@[c]@,
                            image(*number, frame@[0]@.len() as i32),
                        );
                        if old(self).ch_buffers@[c]@.len() == old(self).max_len() {
                            old(self).ch_buffers@[c]@.skip(1).push(level)
                        } else {
                            old(self).ch_buffers@[c]@.push(level)
                        }
                    }),
            decreases frame@.len() - channel,
        {
            let samples = frame[channel].as_slice();
            let level = Level {
                average: quotient(energy_of(samples), samples_per_channel),
                max: peak_beyond(zero(), samples),
            };
            self.ch_buffers[channel].push(level);
            channel = channel + 1;
        }
    }

    /// The metrics over the most recent window.
    pub open spec fn metrics(&self, number: spec_fn(i32) -> T, ch: int) -> Level<T> {
        partial_metrics(number, self.levels(ch), 0, self.windows().window_length)
    }

    /// The metrics over the reference window.
    pub open spec fn reference_metrics(&self, number: spec_fn(i32) -> T, ch: int) -> Level<T> {
        partial_metrics(
            number,
            self.levels(ch),
            self.windows().reference_window_delay,
            self.windows().reference_window_length,
        )
    }

    /// The metrics over the most recent and the reference window of a channel, once
    /// both were filled.
    fn compute_metrics<N: Fn(i32) -> T>(&self, channel: usize, number: &N) -> (metrics: Option<
        (Level<T>, Level<T>),
    >)
        requires
            is_total::<T>(),
            self.inv(),
            channel < self.num_channels(),
            forall|n: i32| call_requires(number, (n,)),
        ensures
            metrics is Some <==> self.levels(channel as int).len() >= self.max_len(),
            is_functional::<T>() && is_mapping(*number) ==> (metrics matches Some(m) ==> {
                &&& m.0 == self.metrics(|n: i32| image(*number, n), channel as int)
                &&& m.1 == self.reference_metrics(|n: i32| image(*number, n), channel as int)
            }),
    {
        let buffer = &self.ch_buffers[channel];
        assert(self.ch_buffers@[channel as int].inv());
        match buffer.compute_partial_metrics(0, self.windows.window_length, number) {
            None => None,
            Some(metrics) => match buffer.compute_partial_metrics(
                self.windows.reference_window_delay,
                self.windows.reference_window_length,
                number,
            ) {
                None => None,
                Some(reference_metrics) => Some((metrics, reference_metrics)),
            },
        }
    }
}

proof fn lemma_other_side<T: Real>(a: T, b: T, m: T)
    requires
        is_ordered::<T>(),
        sums_keep_order::<T>(),
        is_exact::<T>(),
    ensures
        less(a, minus(b, m)) == less(m, minus(b, a)),
{
    assert(is_number(a) && is_number(b) && is_number(m));
    assert(is_number(minus(b, m)) && is_number(minus(b, a)));
    lemma_order(a, minus(b, m), a);
    lemma_order(minus(b, m), a, a);
    lemma_order(m, minus(b, a), m);
    lemma_order(minus(b, a), m, m);
    lemma_exact(b, m, zero_of());
    lemma_exact(b, a, zero_of());
    lemma_sums(minus(b, m), a, b, b);
    lemma_sums(minus(b, a), m, b, b);
}

/// Predicts clipping, by what a mode looks at.
pub struct ClippingPredictor<T: Real> {
    parameters: LevelParameters<T>,
    history: LevelHistory<T>,
    mode: ClippingPredictorMode,
    clipping_threshold: T,
    crest_factor_margin: T,
}

/// Whether all functions accept every argument.
pub open spec fn are_callable<
    T: Real,
    N: Fn(i32) -> T,
    L: Fn(T) -> T,
    R: Fn(T) -> T,
    C: Fn(T) -> i32,
>(f: LevelFunctions<N, L, R, C>) -> bool {
    &&& forall|n: i32| call_requires(f.number, (n,))
    &&& forall|a: T| call_requires(f.log10, (a,))
    &&& forall|a: T| call_requires(f.root, (a,))
    &&& forall|a: T| call_requires(f.ceil, (a,))
}

/// Whether equal arguments give equal results.
pub open spec fn are_mappings<
    T: Real,
    N: Fn(i32) -> T,
    L: Fn(T) -> T,
    R: Fn(T) -> T,
    C: Fn(T) -> i32,
>(f: LevelFunctions<N, L, R, C>) -> bool {
    is_mapping(f.number) && is_mapping(f.log10) && is_mapping(f.root) && is_mapping(f.ceil)
}

impl<T: Real> ClippingPredictor<T> {
    pub closed spec fn inv(&self) -> bool {
        self.history.inv()
    }

    pub closed spec fn settings(&self) -> LevelParameters<T> {
        self.parameters
    }

    pub closed spec fn mode(&self) -> ClippingPredictorMode {
        self.mode
    }

    pub closed spec fn threshold(&self) -> T {
        self.clipping_threshold
    }

    pub closed spec fn margin(&self) -> T {
        self.crest_factor_margin
    }

    pub closed spec fn view(&self) -> LevelHistory<T> {
        self.history
    }

    pub open spec fn same_settings(&self, other: &Self) -> bool {
        &&& self.settings() == other.settings()
        &&& self.mode() == other.mode()
        &&& self.threshold() == other.threshold()
        &&& self.margin() == other.margin()
        &&& self@.windows() == other@.windows()
        &&& self@.num_channels() == other@.num_channels()
    }

    /// Forgets all levels.
    pub fn reset(&mut self)
        requires
            old(self).inv(),
        ensures
            final(self).inv(),
            final(self).same_settings(old(self)),
            forall|ch: int|
                0 <= ch < old(self)@.num_channels() ==> #[trigger] final(self)@.levels(ch)
                    == Seq::<Level<T>>::empty(),
    {
        self.history.reset();
    }

    /// Takes in the levels of a frame.
    pub fn analyze<N: Fn(i32) -> T, L: Fn(T) -> T, R: Fn(T) -> T, C: Fn(T) -> i32>(
        &mut self,
        frame: &[Vec<T>],
        f: &LevelFunctions<N, L, R, C>,
    )
        requires
            is_total::<T>(),
            are_callable(*f),
            old(self).inv(),
            frame@.len() == old(self)@.num_channels(),
            frame@.len() > 0,
            0 < frame@[0]@.len() <= i32::MAX,
        ensures
            final(self).inv(),
            final(self).same_settings(old(self)),
            is_functional::<T>() && are_mappings(*f) ==> old(self)@.is_followed_by(
                &final(self)@,
                |n: i32| image(f.number, n),
                frame@,
            ),
    {
        self.history.analyze(frame, &f.number);
    }

    /// Whether the current crest factor is so far below the one before that a peak
    /// beyond the threshold was probably clipped.
    pub open spec fn event_is_predicted(
        &self,
        number: spec_fn(i32) -> T,
        log10: spec_fn(T) -> T,
        root: spec_fn(T) -> T,
        ch: int,
    ) -> bool {
        let p = self.settings();
        let metrics = self@.metrics(number, ch);
        &&& self@.levels(ch).len() >= self@.max_len()
        &&& !at_most(sample_dbfs(p, log10, metrics.max), self.threshold())
        &&& less(
            crest_factor_of(p, log10, root, metrics),
            minus(
                crest_factor_of(p, log10, root, self@.reference_metrics(number, ch)),
                self.margin(),
            ),
        )
    }

    /// The peak that the current average and the crest factor before would give.
    pub open spec fn projected_peak(
        &self,
        number: spec_fn(i32) -> T,
        log10: spec_fn(T) -> T,
        root: spec_fn(T) -> T,
        ch: int,
    ) -> T {
        let p = self.settings();
        plus(
            crest_factor_of(p, log10, root, self@.reference_metrics(number, ch)),
            sample_dbfs(p, log10, root(self@.metrics(number, ch).average)),
        )
    }

    /// Whether the peak and the projected peak are beyond the threshold.
    pub open spec fn peak_is_predicted(
        &self,
        number: spec_fn(i32) -> T,
        log10: spec_fn(T) -> T,
        root: spec_fn(T) -> T,
        ch: int,
    ) -> bool {
        &&& self@.levels(ch).len() >= self@.max_len()
        &&& !at_most(
            sample_dbfs(self.settings(), log10, self@.metrics(number, ch).max),
            self.threshold(),
        )
        &&& less(self.threshold(), self.projected_peak(number, log10, root, ch))
    }

    /// A clipping event is predicted if and only if the reference window was filled, the
    /// peak is above the threshold, and the crest factor has fallen by more than the
    /// margin.
    pub proof fn law_event_prediction(
        &self,
        number: spec_fn(i32) -> T,
        log10: spec_fn(T) -> T,
        root: spec_fn(T) -> T,
        ch: int,
    )
        requires
            is_ordered::<T>(),
            sums_keep_order::<T>(),
            is_exact::<T>(),
        ensures
            ({
                let p = self.settings();
                let now = self@.metrics(number, ch);
                let before = self@.reference_metrics(number, ch);
                self.event_is_predicted(number, log10, root, ch) == (self@.levels(ch).len()
                    >= self@.windows().reference_window_length
                    + self@.windows().reference_window_delay && less(
                    self.threshold(),
                    sample_dbfs(p, log10, now.max),
                ) && less(
                    self.margin(),
                    minus(
                        crest_factor_of(p, log10, root, before),
                        crest_factor_of(p, log10, root, now),
                    ),
                ))
            }),
    {
        let p = self.settings();
        let now = self@.metrics(number, ch);
        let a = crest_factor_of(p, log10, root, now);
        let b = crest_factor_of(p, log10, root, self@.reference_metrics(number, ch));
        let m = self.margin();
        let peak = sample_dbfs(p, log10, now.max);
        assert(is_number(peak) && is_number(self.threshold()));
        lemma_order(peak, self.threshold(), peak);
        lemma_order(self.threshold(), peak, self.threshold());
        lemma_other_side(a, b, m);
    }

    /// The projected peak is as far above the current root mean square as the peak
    /// before was above the one before.
    pub proof fn law_projected_peak(
        &self,
        number: spec_fn(i32) -> T,
        log10: spec_fn(T) -> T,
        root: spec_fn(T) -> T,
        ch: int,
    )
        requires
            is_exact::<T>(),
        ensures
            ({
                let p = self.settings();
                let now = self@.metrics(number, ch);
                let before = self@.reference_metrics(number, ch);
                minus(
                    self.projected_peak(number, log10, root, ch),
                    sample_dbfs(p, log10, root(now.average)),
                ) == minus(
                    sample_dbfs(p, log10, before.max),
                    sample_dbfs(p, log10, root(before.average)),
                )
            }),
    {
        let p = self.settings();
        let crest = crest_factor_of(p, log10, root, self@.reference_metrics(number, ch));
        let rms = sample_dbfs(p, log10, root(self@.metrics(number, ch).average));
        let opposite = negative(rms);
        lemma_exact(crest, rms, opposite);
        lemma_exact(rms, opposite, zero_of());
        lemma_exact(crest, zero_of(), zero_of());
        lemma_exact(plus(crest, rms), rms, zero_of());
    }

    /// A peak is predicted if and only if the reference window was filled and both the
    /// current and the projected peak are above the threshold.
    pub proof fn law_peak_prediction(
        &self,
        number: spec_fn(i32) -> T,
        log10: spec_fn(T) -> T,
        root: spec_fn(T) -> T,
        ch: int,
    )
        requires
            is_ordered::<T>(),
            is_number(self.threshold()),
            is_number(sample_dbfs(self.settings(), log10, self@.metrics(number, ch).max)),
        ensures
            self.peak_is_predicted(number, log10, root, ch) == (self@.levels(ch).len()
                >= self@.windows().reference_window_length + self@.windows().reference_window_delay
                && less(
                self.threshold(),
                sample_dbfs(self.settings(), log10, self@.metrics(number, ch).max),
            ) && less(self.threshold(), self.projected_peak(number, log10, root, ch))),
    {
        let peak = sample_dbfs(self.settings(), log10, self@.metrics(number, ch).max);
        lemma_order(peak, self.threshold(), peak);
        lemma_order(self.threshold(), peak, self.threshold());
    }

    fn predict_clipping_event<N: Fn(i32) -> T, L: Fn(T) -> T, R: Fn(T) -> T, C: Fn(T) -> i32>(
        &self,
        channel: usize,
        f: &LevelFunctions<N, L, R, C>,
    ) -> (predicted: bool)
        requires
            is_total::<T>(),
            are_callable(*f),
            self.inv(),
            channel < self@.num_channels(),
        ensures
            predicted ==> self@.levels(channel as int).len() >= self@.max_len(),
            is_functional::<T>() && are_mappings(*f) ==> predicted == self.event_is_predicted(
                |n: i32| image(f.number, n),
                |a: T| image(f.log10, a),
                |a: T| image(f.root, a),
                channel as int,
            ),
    {
        match self.history.compute_metrics(channel, &f.number) {
            None => false,
            Some((metrics, reference_metrics)) => {
                if is_at_most(
                    float_s16_to_dbfs(&self.parameters, f, metrics.max),
                    self.clipping_threshold,
                ) {
                    return false;
                }
                let crest_factor = compute_crest_factor(&self.parameters, f, metrics);
                let reference_crest_factor = compute_crest_factor(
                    &self.parameters,
                    f,
                    reference_metrics,
                );
                is_less(crest_factor, difference(reference_crest_factor, self.crest_factor_margin))
            },
        }
    }

    /// The peak that is expected, if it and the current peak are beyond the
    /// threshold.
    fn predict_peak<N: Fn(i32) -> T, L: Fn(T) -> T, R: Fn(T) -> T, C: Fn(T) -> i32>(
        &self,
        channel: usize,
        f: &LevelFunctions<N, L, R, C>,
    ) -> (peak: Option<T>)
        requires
            is_total::<T>(),
            are_callable(*f),
            self.inv(),
            channel < self@.num_channels(),
        ensures
            peak is Some ==> self@.levels(channel as int).len() >= self@.max_len(),
            is_functional::<T>() && are_mappings(*f) ==> {
                let number = |n: i32| image(f.number, n);
                let log10 = |a: T| image(f.log10, a);
                let root = |a: T| image(f.root, a);
                &&& peak is Some <==> self.peak_is_predicted(number, log10, root, channel as int)
                &&& peak matches Some(v) ==> v == self.projected_peak(
                    number,
                    log10,
                    root,
                    channel as int,
                )
            },
    {
        match self.history.compute_metrics(channel, &f.number) {
            None => None,
            Some((metrics, reference_metrics)) => {
                if is_at_most(
                    float_s16_to_dbfs(&self.parameters, f, metrics.max),
                    self.clipping_threshold,
                ) {
                    return None;
                }
                let reference_crest_factor = compute_crest_factor(
                    &self.parameters,
                    f,
                    reference_metrics,
                );
                let average = float_s16_to_dbfs(
                    &self.parameters,
                    f,
                    apply(&f.root, metrics.average),
                );
                let projected_peak = sum(reference_crest_factor, average);
                if is_less(self.clipping_threshold, projected_peak) {
                    Some(projected_peak)
                } else {
                    None
                }
            },
        }
    }

    /// Whether clipping is predicted.
    pub open spec fn is_predicted(
        &self,
        number: spec_fn(i32) -> T,
        log10: spec_fn(T) -> T,
        root: spec_fn(T) -> T,
        ch: int,
    ) -> bool {
        if self.mode() == ClippingPredictorMode::ClippingEventPrediction {
            self.event_is_predicted(number, log10, root, ch)
        } else {
            self.peak_is_predicted(number, log10, root, ch)
        }
    }

    /// By how much to lower the level of a channel: not at all if clipping is not
    /// predicted or the level is at its minimum.
    pub open spec fn level_step(
        &self,
        number: spec_fn(i32) -> T,
        log10: spec_fn(T) -> T,
        root: spec_fn(T) -> T,
        ceil: spec_fn(T) -> i32,
        ch: int,
        level: int,
        default_step: int,
        min_mic_level: int,
        max_mic_level: int,
    ) -> Option<i32> {
        if level <= min_mic_level || !self.is_predicted(number, log10, root, ch) {
            None
        } else if self.mode() == ClippingPredictorMode::AdaptiveStepClippingPeakPrediction {
            lowering(
                level,
                adaptive_step_of(
                    ceil(self.projected_peak(number, log10, root, ch)) as int,
                    level,
                    default_step,
                    min_mic_level,
                    max_mic_level,
                ),
                min_mic_level,
                max_mic_level,
            )
        } else {
            lowering(level, default_step, min_mic_level, max_mic_level)
        }
    }

    /// A level above its minimum is lowered just if clipping is predicted, by the event or
    /// by the peak as the mode says, and never below the minimum: by the default step, or
    /// by no less in the mode with adaptive steps, or down to the minimum.
    pub proof fn law_level_step(
        &self,
        number: spec_fn(i32) -> T,
        log10: spec_fn(T) -> T,
        root: spec_fn(T) -> T,
        ceil: spec_fn(T) -> i32,
        ch: int,
        level: int,
        default_step: int,
        min_mic_level: int,
        max_mic_level: int,
    )
        requires
            0 <= min_mic_level <= max_mic_level,
            0 <= level <= max_mic_level <= i32::MAX,
            0 < default_step,
        ensures
            ({
                let predicted = if self.mode() is ClippingEventPrediction {
                    self.event_is_predicted(number, log10, root, ch)
                } else {
                    self.peak_is_predicted(number, log10, root, ch)
                };
                let step = self.level_step(
                    number,
                    log10,
                    root,
                    ceil,
                    ch,
                    level,
                    default_step,
                    min_mic_level,
                    max_mic_level,
                );
                &&& step is Some <==> predicted && level > min_mic_level
                &&& step matches Some(s) ==> {
                    &&& 0 < s
                    &&& min_mic_level <= level - s
                    &&& level - s == min_mic_level || default_step <= s
                    &&& self.mode() !is AdaptiveStepClippingPeakPrediction ==> s <= default_step
                    &&& self.mode() is AdaptiveStepClippingPeakPrediction ==> level - s
                        == min_mic_level || level - s <= volume_update(
                        asked_gain_change(
                            ceil(self.projected_peak(number, log10, root, ch)) as int,
                        ),
                        level,
                        min_mic_level,
                        max_mic_level,
                    )
                }
            }),
    {
        let step = if self.mode() is AdaptiveStepClippingPeakPrediction {
            adaptive_step_of(
                ceil(self.projected_peak(number, log10, root, ch)) as int,
                level,
                default_step,
                min_mic_level,
                max_mic_level,
            )
        } else {
            default_step
        };
        law_adaptive_step(
            ceil(self.projected_peak(number, log10, root, ch)) as int,
            level,
            default_step,
            min_mic_level,
            max_mic_level,
        );
        law_lowering(level, step, min_mic_level, max_mic_level);
    }

    /// By how much to lower the level of a channel, if clipping is predicted.
    pub fn estimate_clipped_level_step<
        N: Fn(i32) -> T,
        L: Fn(T) -> T,
        R: Fn(T) -> T,
        C: Fn(T) -> i32,
    >(
        &self,
        channel: i32,
        level: i32,
        default_step: i32,
        min_mic_level: i32,
        max_mic_level: i32,
        f: &LevelFunctions<N, L, R, C>,
    ) -> (step: Option<i32>)
        requires
            is_total::<T>(),
            are_callable(*f),
            self.inv(),
            0 <= channel < self@.num_channels(),
            0 <= level <= MAX_INPUT_VOLUME,
            1 <= default_step <= MAX_INPUT_VOLUME,
            0 <= min_mic_level <= max_mic_level <= MAX_INPUT_VOLUME,
            self.mode() == ClippingPredictorMode::AdaptiveStepClippingPeakPrediction ==> level
                <= max_mic_level,
        ensures
            level <= min_mic_level ==> step is None,
            step matches Some(s) ==> 0 < s <= level && min_mic_level <= level - s,
            self@.levels(channel as int).len() < self@.max_len() ==> step is None,
            is_functional::<T>() && are_mappings(*f) ==> step == self.level_step(
                |n: i32| image(f.number, n),
                |a: T| image(f.log10, a),
                |a: T| image(f.root, a),
                |a: T| image(f.ceil, a),
                channel as int,
                level as int,
                default_step as int,
                min_mic_level as int,
                max_mic_level as int,
            ),
    {
        if level <= min_mic_level {
            return None;
        }
        let channel: usize = channel as usize;
        match self.mode {
            ClippingPredictorMode::ClippingEventPrediction => {
                if self.predict_clipping_event(channel, f) {
                    lower_level(level, default_step, min_mic_level, max_mic_level)
                } else {
                    None
                }
            },
            ClippingPredictorMode::AdaptiveStepClippingPeakPrediction => match self.predict_peak(
                channel,
                f,
            ) {
                None => None,
                Some(peak) => {
                    let step: i32 = adaptive_step(
                        apply(&f.ceil, peak),
                        level,
                        default_step,
                        min_mic_level,
                        max_mic_level,
                    );
                    lower_level(level, step, min_mic_level, max_mic_level)
                },
            },
            ClippingPredictorMode::FixedStepClippingPeakPrediction => match self.predict_peak(
                channel,
                f,
            ) {
                None => None,
                Some(_) => lower_level(level, default_step, min_mic_level, max_mic_level),
            },
        }
    }
}

/// The windows of a configuration.
pub open spec fn windows_of<T: Real>(config: ClippingPredictorConfig<T>) -> Windows {
    Windows {
        window_length: config.window_length,
        reference_window_length: config.reference_window_length,
        reference_window_delay: config.reference_window_delay,
    }
}

/// The predictor that is asked for, if it is enabled. Peaks are compared to the
/// integer part of the threshold, which `truncate` gives.
pub fn create_clipping_predictor<T: Real, N: Fn(i32) -> T, I: Fn(T) -> i32>(
    num_channels: i32,
    config: ClippingPredictorConfig<T>,
    parameters: LevelParameters<T>,
    number: &N,
    truncate: &I,
) -> (predictor: Option<ClippingPredictor<T>>)
    requires
        is_total::<T>(),
        config.enabled ==> num_channels > 0 && windows_of(config).is_valid(),
        forall|n: i32| call_requires(number, (n,)),
        forall|a: T| call_requires(truncate, (a,)),
    ensures
        predictor is Some <==> config.enabled,
        predictor matches Some(p) ==> {
            &&& p.inv()
            &&& p.settings() == parameters
            &&& p.mode() == config.mode
            &&& p.margin() == config.crest_factor_margin
            &&& p@.windows() == windows_of(config)
            &&& p@.num_channels() == num_channels
            &&& forall|ch: int|
                0 <= ch < num_channels ==> #[trigger] p@.levels(ch) == Seq::<Level<T>>::empty()
            &&& config.mode == ClippingPredictorMode::ClippingEventPrediction ==> p.threshold()
                == config.clipping_threshold
            &&& config.mode != ClippingPredictorMode::ClippingEventPrediction && is_mapping(*number)
                && is_mapping(*truncate) ==> p.threshold() == image(
                *number,
                image(*truncate, config.clipping_threshold),
            )
        },
{
    if !config.enabled {
        return None;
    }
    let clipping_threshold = match config.mode {
        ClippingPredictorMode::ClippingEventPrediction => config.clipping_threshold,
        _ => apply(number, apply(truncate, config.clipping_threshold)),
    };
    let windows = Windows {
        window_length: config.window_length,
        reference_window_length: config.reference_window_length,
        reference_window_delay: config.reference_window_delay,
    };
    Some(
        ClippingPredictor {
            parameters,
            history: LevelHistory::new(num_channels, windows),
            mode: config.mode,
            clipping_threshold,
            crest_factor_margin: config.crest_factor_margin,
        },
    )
}

/// A predictor that has seen fewer frames than its reference window reaches back
/// predicts nothing.
pub proof fn law_no_prediction_at_first<T: Real>(
    predictor: ClippingPredictor<T>,
    number: spec_fn(i32) -> T,
    log10: spec_fn(T) -> T,
    root: spec_fn(T) -> T,
    ch: int,
)
    requires
        predictor@.levels(ch).len() < predictor@.max_len(),
    ensures
        !predictor.is_predicted(number, log10, root, ch),
{
}

} // verus!
