//! Limiter.
use crate::audio_processing::agc2::agc2_common::{
    MAXIMAL_NUMBER_OF_SAMPLES_PER_CHANNEL, SUB_FRAMES_IN_FRAME,
};
use crate::audio_processing::agc2::fixed_digital_level_estimator::{
    is_splittable, law_steady_level, levels_of, sub_frame_peak, FixedDigitalLevelEstimator,
    LevelEstimatorParameters,
};
use crate::audio_processing::agc2::interpolated_gain_curve::{
    no_look_ups, one_if, GainCurveParameters, GainCurveRegion, InterpolatedGainCurve, Stats,
};
use crate::audio_processing::arithmetic::{
    apply, at_most, clamp, clamped, difference, image, is_functional, is_less, is_mapping, is_total,
    less, minus, over, plus, product, quotient, sum, times, zero_of, Real,
};
use crate::audio_processing::ordered::{
    is_exact, is_number, is_one, is_ordered, law_clamped, lemma_exact, lemma_order, lemma_products,
    lemma_ramp, lemma_same_factor, lemma_sums, products_keep_order, sums_keep_order,
};
use vstd::array::array_fill_for_copy_types;
use vstd::prelude::*;

verus! {

/// Number of scaling factors at the ends of the sub-frames.
pub const NUM_SCALING_FACTORS: usize = 21;

#[derive(Debug, Clone, Copy)]
pub struct SampleRange<T: Real> {
    pub one: T,
    pub min_sample: T,
    pub max_sample: T,
}

/// The functions that a limiter works with.
pub struct LimiterFunctions<N, P> {
    /// Gives the number for an integer.
    pub number: N,
    /// The power by which the first sub-frame of an attack is interpolated.
    pub attack_power: P,
}

/// The factor on sample `j` of a sub-frame of `size` samples. It goes straight from
/// the factor at the start to the one at the end, but in an attack, where the factor
/// falls in the first sub-frame, it falls fast at first.
pub open spec fn sample_factor<T: Real>(
    one: T,
    number: spec_fn(usize) -> T,
    attack_power: spec_fn(T) -> T,
    factors: Seq<T>,
    size: usize,
    sub_frame: int,
    j: usize,
) -> T {
    let start = factors[sub_frame];
    let end = factors[sub_frame + 1];
    if sub_frame == 0 && less(end, start) {
        plus(
            times(attack_power(minus(one, over(number(j), number(size)))), minus(start, end)),
            end,
        )
    } else {
        plus(start, times(over(minus(end, start), number(size)), number(j)))
    }
}

/// The factors on the samples of a sub-frame go from the one at its start, which the
/// first sample has, towards the one at its end, and stay between them. Where the two
/// are the same, all samples have it.
pub proof fn law_factors_are_between<T: Real>(
    one: T,
    number: spec_fn(usize) -> T,
    attack_power: spec_fn(T) -> T,
    factors: Seq<T>,
    size: usize,
    sub_frame: int,
    j: usize,
)
    requires
        is_ordered::<T>(),
        sums_keep_order::<T>(),
        products_keep_order::<T>(),
        is_exact::<T>(),
        is_one(one),
        less(zero_of(), number(size)),
        at_most(zero_of(), number(j)),
        at_most(number(j), number(size)),
        number(0) == zero_of::<T>(),
        forall|a: T|
            at_most(zero_of(), a) && at_most(a, one) ==> at_most(
                zero_of(),
                #[trigger] attack_power(a),
            ) && at_most(attack_power(a), one),
        attack_power(one) == one,
    ensures
        ({
            let start = factors[sub_frame];
            let end = factors[sub_frame + 1];
            let factor = sample_factor(one, number, attack_power, factors, size, sub_frame, j);
            &&& at_most(start, end) ==> at_most(start, factor) && at_most(factor, end)
            &&& at_most(end, start) ==> at_most(end, factor) && at_most(factor, start)
            &&& j == 0 ==> factor == start
            &&& start == end ==> factor == start
            &&& sub_frame != 0 && number(j) == number(size) ==> factor == end
        }),
{
    let zero = zero_of::<T>();
    let start = factors[sub_frame];
    let end = factors[sub_frame + 1];
    let part = over(number(j), number(size));
    let factor = sample_factor(one, number, attack_power, factors, size, sub_frame, j);
    lemma_ramp(start, end, number(j), number(size));
    lemma_order(end, start, end);
    lemma_order(start, end, start);
    if sub_frame == 0 && less(end, start) {
        let d = minus(start, end);
        let rest = minus(one, part);
        let share = attack_power(rest);
        // The part of the sub-frame before the sample lies between none and all of it.
        lemma_products(number(j), number(size), number(size));
        lemma_products(number(j), number(size), zero);
        assert(is_number(over(number(size), number(size))));
        lemma_sums(zero, part, one, one);
        lemma_sums(part, one, zero, zero);
        lemma_exact(one, zero, zero);
        lemma_sums(one, one, zero, zero);
        lemma_sums(zero, zero, zero, zero);
        lemma_order(rest, minus(one, zero), one);
        assert(at_most(zero, rest) && at_most(rest, one));
        assert(at_most(zero, share) && at_most(share, one));
        lemma_sums(end, start, zero, zero);
        lemma_products(zero, share, d);
        lemma_products(share, one, d);
        lemma_exact(zero, d, zero);
        lemma_exact(d, one, zero);
        assert(times(d, one) == d);
        lemma_sums(zero, times(share, d), end, end);
        lemma_sums(times(share, d), d, end, end);
        lemma_exact(end, zero, zero);
        lemma_exact(zero, end, zero);
        lemma_exact(start, end, zero);
        if j == 0 {
            lemma_products(zero, number(size), zero);
            lemma_order(part, zero, part);
            assert(rest == one) by {
                // Nothing of the sub-frame lies before its first sample.
                lemma_exact(zero, number(size), zero);
                lemma_exact(part, number(size), zero);
                lemma_exact(one, number(size), part);
                lemma_exact(over(one, number(size)), number(size), part);
                lemma_exact(number(size), part, zero);
                lemma_exact(over(one, number(size)), zero, zero);
                assert(times(part, one) == part);
                lemma_exact(part, one, zero);
                assert(part == zero);
                lemma_exact(one, zero, zero);
            }
        }
    }
}

/// The factors at the ends of the sub-frames.
pub open spec fn scaling_factors_of<T: Real>(
    curve: GainCurveParameters<T>,
    last_factor: T,
    levels: Seq<T>,
) -> Seq<T> {
    seq![last_factor] + levels.map_values(|level: T| curve.gain(level))
}

/// How many of the first `n` levels lie in a region.
pub open spec fn look_ups_in<T: Real>(
    curve: GainCurveParameters<T>,
    levels: Seq<T>,
    region: GainCurveRegion,
    n: int,
) -> int
    decreases n,
{
    if n <= 0 {
        0
    } else {
        look_ups_in(curve, levels, region, n - 1) + if curve.region(levels[n - 1]) == region {
            1int
        } else {
            0int
        }
    }
}

/// The region of the last one of the first `n` levels.
pub open spec fn region_after<T: Real>(
    curve: GainCurveParameters<T>,
    first: GainCurveRegion,
    levels: Seq<T>,
    n: int,
) -> GainCurveRegion {
    if n <= 0 {
        first
    } else {
        curve.region(levels[n - 1])
    }
}

/// How long the region has stayed the same after the first `n` levels.
pub open spec fn duration_after<T: Real>(
    curve: GainCurveParameters<T>,
    stats: Stats,
    levels: Seq<T>,
    n: int,
) -> int
    decreases n,
{
    if n <= 0 {
        stats.region_duration_frames as int
    } else if curve.region(levels[n - 1]) == region_after(curve, stats.region, levels, n - 1) {
        duration_after(curve, stats, levels, n - 1) + 1
    } else {
        0
    }
}

/// One more level is one more look-up in its region and in no other one; the region is
/// then its own, and has lasted one look-up longer if it was the region before.
pub proof fn law_one_more_look_up<T: Real>(
    curve: GainCurveParameters<T>,
    stats: Stats,
    levels: Seq<T>,
    region: GainCurveRegion,
    n: int,
)
    requires
        0 <= n < levels.len(),
    ensures
        look_ups_in(curve, levels, region, 0) == 0,
        region == curve.region(levels[n]) ==> look_ups_in(curve, levels, region, n + 1)
            == look_ups_in(curve, levels, region, n) + 1,
        region != curve.region(levels[n]) ==> look_ups_in(curve, levels, region, n + 1)
            == look_ups_in(curve, levels, region, n),
        region_after(curve, stats.region, levels, n + 1) == curve.region(levels[n]),
        region_after(curve, stats.region, levels, 0) == stats.region,
        duration_after(curve, stats, levels, 0) == stats.region_duration_frames,
        region_after(curve, stats.region, levels, n) == curve.region(levels[n]) ==> duration_after(
            curve,
            stats,
            levels,
            n + 1,
        ) == duration_after(curve, stats, levels, n) + 1,
        region_after(curve, stats.region, levels, n) != curve.region(levels[n]) ==> duration_after(
            curve,
            stats,
            levels,
            n + 1,
        ) == 0,
{
}

/// Whether `after` counts the look-ups of the first `n` levels.
pub open spec fn counts_levels<T: Real>(
    curve: GainCurveParameters<T>,
    before: Stats,
    after: Stats,
    levels: Seq<T>,
    n: int,
) -> bool {
    &&& n > 0 ==> after.available
    &&& after.region == region_after(curve, before.region, levels, n)
    &&& after.region_duration_frames == duration_after(curve, before, levels, n)
    &&& forall|r: GainCurveRegion| #[trigger]
        after.look_ups(r) == before.look_ups(r) + look_ups_in(curve, levels, r, n)
}

pub struct Limiter<T: Real> {
    range: SampleRange<T>,
    interp_gain_curve: InterpolatedGainCurve<T>,
    level_estimator: FixedDigitalLevelEstimator<T>,
    last_scaling_factor: T,
}

impl<T: Real> Limiter<T> {
    pub closed spec fn inv(&self) -> bool {
        &&& self.level_estimator.inv()
        &&& is_splittable(self.level_estimator.frame_size())
        &&& self.level_estimator.frame_size() <= MAXIMAL_NUMBER_OF_SAMPLES_PER_CHANNEL
    }

    pub closed spec fn sample_range(&self) -> SampleRange<T> {
        self.range
    }

    pub closed spec fn curve(&self) -> GainCurveParameters<T> {
        self.interp_gain_curve.curve()
    }

    pub closed spec fn stats(&self) -> Stats {
        self.interp_gain_curve.counts()
    }

    pub closed spec fn level_settings(&self) -> LevelEstimatorParameters<T> {
        self.level_estimator.settings()
    }

    pub closed spec fn level(&self) -> T {
        self.level_estimator.level()
    }

    pub closed spec fn frame_size(&self) -> usize {
        self.level_estimator.frame_size()
    }

    pub closed spec fn last_factor(&self) -> T {
        self.last_scaling_factor
    }

    pub open spec fn same_settings(&self, other: &Self) -> bool {
        &&& self.sample_range() == other.sample_range()
        &&& self.curve() == other.curve()
        &&& self.level_settings() == other.level_settings()
    }

    /// Whether the look-ups of another frame can be counted.
    pub open spec fn has_room(&self) -> bool {
        &&& self.stats().look_ups_identity_region <= usize::MAX - SUB_FRAMES_IN_FRAME
        &&& self.stats().look_ups_knee_region <= usize::MAX - SUB_FRAMES_IN_FRAME
        &&& self.stats().look_ups_limiter_region <= usize::MAX - SUB_FRAMES_IN_FRAME
        &&& self.stats().look_ups_saturation_region <= usize::MAX - SUB_FRAMES_IN_FRAME
        &&& self.stats().region_duration_frames <= i64::MAX - SUB_FRAMES_IN_FRAME
    }

    pub fn new(
        samples_per_channel: usize,
        range: SampleRange<T>,
        curve: GainCurveParameters<T>,
        level: LevelEstimatorParameters<T>,
    ) -> (limiter: Self)
        requires
            is_total::<T>(),
            is_splittable(samples_per_channel),
            samples_per_channel <= MAXIMAL_NUMBER_OF_SAMPLES_PER_CHANNEL,
        ensures
            limiter.inv(),
            limiter.sample_range() == range,
            limiter.curve() == curve,
            limiter.stats() == no_look_ups(),
            limiter.has_room(),
            limiter.level_settings() == level,
            limiter.frame_size() == samples_per_channel,
            limiter.last_factor() == range.one,
            is_functional::<T>() ==> limiter.level() == zero_of::<T>(),
    {
        Limiter {
            range,
            interp_gain_curve: InterpolatedGainCurve::new(curve),
            level_estimator: FixedDigitalLevelEstimator::new(samples_per_channel, level),
            last_scaling_factor: range.one,
        }
    }

    /// The factors at the ends of the sub-frames of a signal.
    pub open spec fn factors(&self, signal: Seq<Vec<T>>) -> Seq<T> {
        scaling_factors_of(
            self.curve(),
            self.last_factor(),
            levels_of(
                self.level_settings(),
                self.level(),
                signal,
                (self.frame_size() / SUB_FRAMES_IN_FRAME) as int,
            ),
        )
    }

    /// The factor at the end of a sub-frame is the gain that the curve has for the level
    /// of the sub-frame, so the level is not above the full scale with it, and a level
    /// above the largest input level has a factor of less than one. The factor at the
    /// start of the frame is the one that the frame before ended with.
    pub proof fn law_level_is_limited(&self, signal: Seq<Vec<T>>, sub_frame: int)
        requires
            is_ordered::<T>(),
            sums_keep_order::<T>(),
            products_keep_order::<T>(),
            is_exact::<T>(),
            is_one(self.curve().one),
            less(zero_of(), self.curve().x@[0]),
            at_most(self.curve().x@[0], self.curve().input_level_scaling_factor),
            at_most(
                self.curve().input_level_scaling_factor,
                self.curve().max_input_level_linear,
            ),
            self.curve().segments_keep_below(self.curve().input_level_scaling_factor),
            0 <= sub_frame < SUB_FRAMES_IN_FRAME,
        ensures
            self.factors(signal).len() == SUB_FRAMES_IN_FRAME + 1,
            self.factors(signal)[0] == self.last_factor(),
            ({
                let level = levels_of(
                    self.level_settings(),
                    self.level(),
                    signal,
                    (self.frame_size() / SUB_FRAMES_IN_FRAME) as int,
                )[sub_frame];
                let factor = self.factors(signal)[sub_frame + 1];
                let full_scale = self.curve().input_level_scaling_factor;
                &&& at_most(times(factor, level), full_scale)
                &&& at_most(level, self.curve().x@[0]) ==> factor == self.curve().one
                &&& less(self.curve().x@[0], level) && at_most(
                    self.curve().max_input_level_linear,
                    level,
                ) ==> factor == over(full_scale, level) && times(factor, level) == full_scale
                &&& less(self.curve().max_input_level_linear, level) ==> less(
                    factor,
                    self.curve().one,
                )
            }),
    {
        let levels = levels_of(
            self.level_settings(),
            self.level(),
            signal,
            (self.frame_size() / SUB_FRAMES_IN_FRAME) as int,
        );
        let curve = self.curve();
        assert(is_number(levels[sub_frame]));
        assert forall|i: int| 0 <= i < curve.x@.len() implies is_number(#[trigger] curve.x@[i]) by {
        }
        lemma_order(
            curve.x@[0],
            curve.input_level_scaling_factor,
            curve.max_input_level_linear,
        );
        curve.law_gain(levels[sub_frame], 0);
        curve.law_gain_keeps_below_full_scale(levels[sub_frame]);
    }

    /// A steady signal above the largest input level, which the limiter has settled on,
    /// has all its samples scaled by one factor of less than one, which takes its level
    /// to the full scale.
    pub proof fn law_steady_signal(
        &self,
        signal: Seq<Vec<T>>,
        number: spec_fn(usize) -> T,
        attack_power: spec_fn(T) -> T,
        ch: int,
        i: int,
    ) -> (factor: T)
        requires
            is_ordered::<T>(),
            sums_keep_order::<T>(),
            products_keep_order::<T>(),
            is_exact::<T>(),
            self.inv(),
            is_one(self.curve().one),
            self.sample_range().one == self.curve().one,
            self.level_settings().one == self.curve().one,
            less(zero_of(), self.curve().x@[0]),
            at_most(self.curve().x@[0], self.curve().input_level_scaling_factor),
            at_most(
                self.curve().input_level_scaling_factor,
                self.curve().max_input_level_linear,
            ),
            self.curve().segments_keep_below(self.curve().input_level_scaling_factor),
            at_most(zero_of(), self.level_settings().attack_filter_constant),
            at_most(self.level_settings().attack_filter_constant, self.curve().one),
            at_most(zero_of(), self.level_settings().decay_filter_constant),
            at_most(self.level_settings().decay_filter_constant, self.curve().one),
            less(zero_of(), number((self.frame_size() / SUB_FRAMES_IN_FRAME) as usize)),
            forall|n: usize|
                n <= self.frame_size() / SUB_FRAMES_IN_FRAME ==> at_most(
                    zero_of(),
                    #[trigger] number(n),
                ) && at_most(
                    number(n),
                    number((self.frame_size() / SUB_FRAMES_IN_FRAME) as usize),
                ),
            number(0) == zero_of::<T>(),
            forall|a: T|
                at_most(zero_of(), a) && at_most(a, self.curve().one) ==> at_most(
                    zero_of(),
                    #[trigger] attack_power(a),
                ) && at_most(attack_power(a), self.curve().one),
            attack_power(self.curve().one) == self.curve().one,
            less(self.curve().max_input_level_linear, self.level()),
            times(self.last_factor(), self.level()) == self.curve().input_level_scaling_factor,
            forall|k: int|
                0 <= k < SUB_FRAMES_IN_FRAME ==> #[trigger] sub_frame_peak(
                    signal,
                    k,
                    (self.frame_size() / SUB_FRAMES_IN_FRAME) as int,
                    signal.len() as int,
                ) == self.level(),
            0 <= ch < signal.len(),
            0 <= i < self.frame_size(),
        ensures
            less(factor, self.curve().one),
            times(factor, self.level()) == self.curve().input_level_scaling_factor,
            limited_sample(
                self.sample_range(),
                number,
                attack_power,
                self.factors(signal),
                (self.frame_size() / SUB_FRAMES_IN_FRAME) as usize,
                signal[ch]@,
                i,
            ) == clamped(
                times(signal[ch]@[i], factor),
                self.sample_range().min_sample,
                self.sample_range().max_sample,
            ),
    {
        let size = (self.frame_size() / SUB_FRAMES_IN_FRAME) as usize;
        let level = self.level();
        let curve = self.curve();
        let scale = curve.input_level_scaling_factor;
        let factor = self.last_factor();
        let factors = self.factors(signal);
        let sub_frame = i / (size as int);
        let j = (i % (size as int)) as usize;
        law_steady_level(self.level_settings(), level, signal, size as int);
        assert(0 <= sub_frame < SUB_FRAMES_IN_FRAME) by (nonlinear_arith)
            requires
                0 <= i < SUB_FRAMES_IN_FRAME * size,
                size > 0,
                sub_frame == i / (size as int),
        ;
        assert(0 <= i % (size as int) < size);
        self.law_level_is_limited(signal, sub_frame);
        if sub_frame > 0 {
            self.law_level_is_limited(signal, sub_frame - 1);
        }
        lemma_order(curve.x@[0], scale, curve.max_input_level_linear);
        lemma_order(curve.x@[0], curve.max_input_level_linear, level);
        lemma_order(zero_of(), curve.x@[0], level);
        lemma_order(curve.max_input_level_linear, level, level);
        // Only one factor takes the level to the full scale.
        lemma_exact(scale, level, over(scale, level));
        lemma_same_factor(curve.one, factor, over(scale, level), level);
        law_factors_are_between(curve.one, number, attack_power, factors, size, sub_frame, j);
        factor
    }

    /// Limits the level of a signal.
    pub fn process<N: Fn(usize) -> T, P: Fn(T) -> T>(
        &mut self,
        signal: &mut [Vec<T>],
        f: &LimiterFunctions<N, P>,
    )
        requires
            is_total::<T>(),
            old(self).inv(),
            old(self).has_room(),
            old(signal)@.len() > 0,
            forall|ch: int|
                0 <= ch < old(signal)@.len() ==> (#[trigger] old(signal)@[ch])@.len() == old(
                    self).frame_size(),
            forall|n: usize| call_requires(f.number, (n,)),
            forall|a: T| call_requires(f.attack_power, (a,)),
        ensures
            final(self).inv(),
            final(self).same_settings(old(self)),
            final(self).frame_size() == old(self).frame_size(),
            old(self).stats().has_grown(final(self).stats(), SUB_FRAMES_IN_FRAME as int),
            final(signal)@.len() == old(signal)@.len(),
            forall|ch: int|
                0 <= ch < old(signal)@.len() ==> (#[trigger] final(signal)@[ch])@.len() == old(
                    self).frame_size(),
            is_functional::<T>() ==> {
                &&& final(self).last_factor() == old(self).factors(
                    old(signal)@,
                )[SUB_FRAMES_IN_FRAME as int]
                &&& final(self).level() == levels_of(
                    old(self).level_settings(),
                    old(self).level(),
                    old(signal)@,
                    (old(self).frame_size() / SUB_FRAMES_IN_FRAME) as int,
                )[SUB_FRAMES_IN_FRAME - 1]
                &&& at_most(final(self).level(), old(self).curve().x@[0]) ==> final(
                    self).last_factor() == old(self).curve().one
                &&& !at_most(final(self).level(), old(self).curve().x@[0]) && at_most(
                    old(self).curve().max_input_level_linear,
                    final(self).level(),
                ) ==> final(self).last_factor() == over(
                    old(self).curve().input_level_scaling_factor,
                    final(self).level(),
                )
                &&& counts_levels(
                    old(self).curve(),
                    old(self).stats(),
                    final(self).stats(),
                    levels_of(
                        old(self).level_settings(),
                        old(self).level(),
                        old(signal)@,
                        (old(self).frame_size() / SUB_FRAMES_IN_FRAME) as int,
                    ),
                    SUB_FRAMES_IN_FRAME as int,
                )
            },
            is_functional::<T>() && is_mapping(f.number) && is_mapping(f.attack_power) ==> forall|
                ch: int,
                i: int,
            |
                0 <= ch < old(signal)@.len() && 0 <= i < old(self).frame_size()
                    ==> #[trigger] final(signal)@[ch]@[i] == limited_sample(
                    old(self).sample_range(),
                    |n: usize| image(f.number, n),
                    |a: T| image(f.attack_power, a),
                    old(self).factors(old(signal)@),
                    (old(self).frame_size() / SUB_FRAMES_IN_FRAME) as usize,
                    old(signal)@[ch]@,
                    i,
                ),
    {
        let ghost before = signal@;
        let ghost wanted = self.factors(before);
        let samples_per_channel: usize = signal[0].len();
        assert(before[0]@.len() == samples_per_channel);
        let level_estimate = self.level_estimator.compute_level(signal);
        let mut scaling_factors: [T; NUM_SCALING_FACTORS] = array_fill_for_copy_types(
            self.last_scaling_factor,
        );
        let ghost counted = self.interp_gain_curve.counts();
        let mut i: usize = 0;
        while i < SUB_FRAMES_IN_FRAME
            invariant
                is_total::<T>(),
                i <= SUB_FRAMES_IN_FRAME,
                counted == old(self).stats(),
                old(self).has_room(),
                self.range == old(self).range,
                self.last_scaling_factor == old(self).last_scaling_factor,
                self.interp_gain_curve.curve() == old(self).curve(),
                self.level_estimator.inv(),
                self.level_estimator.settings() == old(self).level_settings(),
                self.level_estimator.frame_size() == old(self).frame_size(),
                self.level_estimator.level() == level_estimate@[SUB_FRAMES_IN_FRAME - 1],
                counted.has_grown(self.interp_gain_curve.counts(), i as int),
                scaling_factors@[0] == old(self).last_scaling_factor,
                is_functional::<T>() ==> counts_levels(
                    old(self).curve(),
                    counted,
                    self.interp_gain_curve.counts(),
                    level_estimate@,
                    i as int,
                ),
                is_functional::<T>() ==> forall|k: int|
                    0 <= k < i ==> #[trigger] scaling_factors@[k + 1] == old(self).curve().gain(
                        level_estimate@[k],
                    ),
            decreases SUB_FRAMES_IN_FRAME - i,
        {
            let ghost stats = self.interp_gain_curve.counts();
            let gain = self.interp_gain_curve.look_up_gain_to_apply(level_estimate[i]);
            proof {
                let after = self.interp_gain_curve.counts();
                assert forall|r: GainCurveRegion| #[trigger]
                    after.look_ups(r) == stats.look_ups(r) + one_if(r == after.region) by {}
                if is_functional::<T>() {
                    assert forall|r: GainCurveRegion| #[trigger]
                        after.look_ups(r) == counted.look_ups(r) + look_ups_in(
                            old(self).curve(),
                            level_estimate@,
                            r,
                            i + 1,
                        ) by {
                        assert(stats.look_ups(r) == counted.look_ups(r) + look_ups_in(
                            old(self).curve(),
                            level_estimate@,
                            r,
                            i as int,
                        ));
                    }
                }
            }
            scaling_factors[i + 1] = gain;
            i = i + 1;
        }
        proof {
            if is_functional::<T>() {
                assert forall|k: int| 0 <= k < NUM_SCALING_FACTORS implies scaling_factors@[k]
                    == wanted[k] by {
                    if k > 0 {
                        assert(scaling_factors@[(k - 1) + 1] == self.interp_gain_curve.curve().gain(
                            level_estimate@[k - 1],
                        ));
                    }
                }
                assert(scaling_factors@ =~= wanted);
            }
        }
        let per_sample = compute_per_sample_subframe_factors(
            self.range.one,
            &scaling_factors,
            samples_per_channel,
            f,
        );
        let mut ch: usize = 0;
        while ch < signal.len()
            invariant
                is_total::<T>(),
                ch <= signal@.len() == before.len(),
                per_sample@.len() == samples_per_channel,
                forall|c: int|
                    0 <= c < before.len() ==> (#[trigger] before[c])@.len() == samples_per_channel,
                forall|c: int| ch <= c < before.len() ==> signal@[c] == before[c],
                forall|c: int|
                    0 <= c < ch ==> (#[trigger] signal@[c])@.len() == samples_per_channel,
                is_functional::<T>() ==> forall|c: int, i: int|
                    0 <= c < ch && 0 <= i < samples_per_channel ==> #[trigger] signal@[c]@[i]
                        == clamped(
                        times(before[c]@[i], per_sample@[i]),
                        self.range.min_sample,
                        self.range.max_sample,
                    ),
            decreases signal@.len() - ch,
        {
            assert(before[ch as int]@.len() == samples_per_channel);
            scale_samples(&self.range, per_sample.as_slice(), &mut signal[ch]);
            ch = ch + 1;
        }
        self.last_scaling_factor = scaling_factors[SUB_FRAMES_IN_FRAME];
    }

    pub fn get_gain_curve_stats(&self) -> (stats: Stats)
        ensures
            stats == self.stats(),
    {
        self.interp_gain_curve.get_stats()
    }

    pub fn set_samples_per_channel(&mut self, samples_per_channel: usize)
        requires
            is_splittable(samples_per_channel),
            samples_per_channel <= MAXIMAL_NUMBER_OF_SAMPLES_PER_CHANNEL,
        ensures
            final(self).inv(),
            final(self).same_settings(old(self)),
            final(self).stats() == old(self).stats(),
            final(self).level() == old(self).level(),
            final(self).last_factor() == old(self).last_factor(),
            final(self).frame_size() == samples_per_channel,
    {
        self.level_estimator.set_samples_per_channel(samples_per_channel);
    }

    /// Forgets the level; the factor of the last sample is kept.
    pub fn reset(&mut self)
        requires
            is_total::<T>(),
            old(self).inv(),
        ensures
            final(self).inv(),
            final(self).same_settings(old(self)),
            final(self).stats() == old(self).stats(),
            final(self).last_factor() == old(self).last_factor(),
            final(self).frame_size() == old(self).frame_size(),
            is_functional::<T>() ==> final(self).level() == zero_of::<T>(),
    {
        self.level_estimator.reset();
    }

    pub fn last_audio_level(&self) -> (level: T)
        ensures
            level == self.level(),
    {
        self.level_estimator.last_audio_level()
    }
}

/// A limited sample is within the range, and a sample that is in it with its factor is
/// not limited.
pub proof fn law_sample_is_in_range<T: Real>(
    range: SampleRange<T>,
    number: spec_fn(usize) -> T,
    attack_power: spec_fn(T) -> T,
    factors: Seq<T>,
    size: usize,
    channel: Seq<T>,
    i: int,
)
    requires
        is_ordered::<T>(),
        at_most(range.min_sample, range.max_sample),
        is_number(
            times(
                channel[i],
                sample_factor(
                    range.one,
                    number,
                    attack_power,
                    factors,
                    size,
                    i / (size as int),
                    (i % (size as int)) as usize,
                ),
            ),
        ),
    ensures
        ({
            let limited = limited_sample(range, number, attack_power, factors, size, channel, i);
            let scaled = times(
                channel[i],
                sample_factor(
                    range.one,
                    number,
                    attack_power,
                    factors,
                    size,
                    i / (size as int),
                    (i % (size as int)) as usize,
                ),
            );
            &&& at_most(range.min_sample, limited)
            &&& at_most(limited, range.max_sample)
            &&& at_most(range.min_sample, scaled) && at_most(scaled, range.max_sample) ==> limited
                == scaled
        }),
{
    law_clamped(
        times(
            channel[i],
            sample_factor(
                range.one,
                number,
                attack_power,
                factors,
                size,
                i / (size as int),
                (i % (size as int)) as usize,
            ),
        ),
        range.min_sample,
        range.max_sample,
    );
}

/// Sample `i` of a channel after the limiter.
pub open spec fn limited_sample<T: Real>(
    range: SampleRange<T>,
    number: spec_fn(usize) -> T,
    attack_power: spec_fn(T) -> T,
    factors: Seq<T>,
    size: usize,
    channel: Seq<T>,
    i: int,
) -> T {
    clamped(
        times(
            channel[i],
            sample_factor(
                range.one,
                number,
                attack_power,
                factors,
                size,
                i / (size as int),
                (i % (size as int)) as usize,
            ),
        ),
        range.min_sample,
        range.max_sample,
    )
}

/// The factors on the samples of a frame.
fn compute_per_sample_subframe_factors<T: Real, N: Fn(usize) -> T, P: Fn(T) -> T>(
    one: T,
    scaling_factors: &[T; NUM_SCALING_FACTORS],
    samples_per_channel: usize,
    f: &LimiterFunctions<N, P>,
) -> (per_sample: Vec<T>)
    requires
        is_total::<T>(),
        is_splittable(samples_per_channel),
        forall|n: usize| call_requires(f.number, (n,)),
        forall|a: T| call_requires(f.attack_power, (a,)),
    ensures
        per_sample@.len() == samples_per_channel,
        is_functional::<T>() && is_mapping(f.number) && is_mapping(f.attack_power) ==> forall|
            i: int,
        |
            0 <= i < samples_per_channel ==> #[trigger] per_sample@[i] == ({
                let size = (samples_per_channel / SUB_FRAMES_IN_FRAME) as usize;
                sample_factor(
                    one,
                    |n: usize| image(f.number, n),
                    |a: T| image(f.attack_power, a),
                    scaling_factors@,
                    size,
                    i / (size as int),
                    (i % (size as int)) as usize,
                )
            }),
{
    let ghost exact = is_functional::<T>() && is_mapping(f.number) && is_mapping(f.attack_power);
    let ghost number = |n: usize| image(f.number, n);
    let ghost attack_power = |a: T| image(f.attack_power, a);
    let size: usize = samples_per_channel / SUB_FRAMES_IN_FRAME;
    let size_number = apply(&f.number, size);
    let is_attack = is_less(scaling_factors[1], scaling_factors[0]);
    let mut per_sample: Vec<T> = Vec::new();
    let mut sub_frame: usize = 0;
    while sub_frame < SUB_FRAMES_IN_FRAME
        invariant
            is_total::<T>(),
            forall|n: usize| call_requires(f.number, (n,)),
            forall|a: T| call_requires(f.attack_power, (a,)),
            exact == (is_functional::<T>() && is_mapping(f.number) && is_mapping(f.attack_power)),
            number == (|n: usize| image(f.number, n)),
            attack_power == (|a: T| image(f.attack_power, a)),
            exact ==> size_number == number(size),
            exact ==> is_attack == less(scaling_factors@[1], scaling_factors@[0]),
            size > 1,
            sub_frame <= SUB_FRAMES_IN_FRAME,
            per_sample@.len() == sub_frame * size,
            exact ==> forall|i: int|
                0 <= i < sub_frame * size ==> #[trigger] per_sample@[i] == sample_factor(
                    one,
                    number,
                    attack_power,
                    scaling_factors@,
                    size,
                    i / (size as int),
                    (i % (size as int)) as usize,
                ),
        decreases SUB_FRAMES_IN_FRAME - sub_frame,
    {
        let start = scaling_factors[sub_frame];
        let end = scaling_factors[sub_frame + 1];
        let diff = quotient(difference(end, start), size_number);
        let mut j: usize = 0;
        while j < size
            invariant
                is_total::<T>(),
                forall|n: usize| call_requires(f.number, (n,)),
                forall|a: T| call_requires(f.attack_power, (a,)),
                exact == (is_functional::<T>() && is_mapping(f.number) && is_mapping(
                    f.attack_power,
                )),
                number == (|n: usize| image(f.number, n)),
                attack_power == (|a: T| image(f.attack_power, a)),
                exact ==> size_number == number(size),
                exact ==> is_attack == less(scaling_factors@[1], scaling_factors@[0]),
                exact ==> diff == over(minus(end, start), size_number),
                start == scaling_factors@[sub_frame as int],
                end == scaling_factors@[sub_frame + 1],
                size > 1,
                sub_frame < SUB_FRAMES_IN_FRAME,
                j <= size,
                per_sample@.len() == sub_frame * size + j,
                exact ==> forall|i: int|
                    0 <= i < sub_frame * size + j ==> #[trigger] per_sample@[i] == sample_factor(
                        one,
                        number,
                        attack_power,
                        scaling_factors@,
                        size,
                        i / (size as int),
                        (i % (size as int)) as usize,
                    ),
            decreases size - j,
        {
            let factor = if is_attack && sub_frame == 0 {
                let t = quotient(apply(&f.number, j), size_number);
                sum(
                    product(apply(&f.attack_power, difference(one, t)), difference(start, end)),
                    end,
                )
            } else {
                sum(start, product(diff, apply(&f.number, j)))
            };
            proof {
                let i = sub_frame * size + j;
                assert(i / (size as int) == sub_frame && i % (size as int) == j)
                    by (nonlinear_arith)
                    requires
                        i == sub_frame * size + j,
                        0 <= j < size,
                        0 <= sub_frame,
                ;
            }
            per_sample.push(factor);
            j = j + 1;
        }
        assert((sub_frame + 1) * size == sub_frame * size + size) by (nonlinear_arith);
        sub_frame = sub_frame + 1;
    }
    assert(sub_frame * size == samples_per_channel) by (nonlinear_arith)
        requires
            sub_frame == 20,
            size == samples_per_channel / 20,
            samples_per_channel % 20 == 0,
    ;
    per_sample
}

/// Scales the samples of a channel within the sample range.
fn scale_samples<T: Real>(
    range: &SampleRange<T>,
    per_sample_scaling_factors: &[T],
    channel: &mut Vec<T>,
)
    requires
        is_total::<T>(),
        old(channel)@.len() == per_sample_scaling_factors@.len(),
    ensures
        final(channel)@.len() == old(channel)@.len(),
        is_functional::<T>() ==> forall|i: int|
            0 <= i < old(channel)@.len() ==> #[trigger] final(channel)@[i] == clamped(
                times(old(channel)@[i], per_sample_scaling_factors@[i]),
                range.min_sample,
                range.max_sample,
            ),
{
    let ghost before = channel@;
    let mut i: usize = 0;
    while i < channel.len()
        invariant
            is_total::<T>(),
            i <= channel@.len() == before.len() == per_sample_scaling_factors@.len(),
            forall|k: int| i <= k < before.len() ==> channel@[k] == before[k],
            is_functional::<T>() ==> forall|k: int|
                0 <= k < i ==> #[trigger] channel@[k] == clamped(
                    times(before[k], per_sample_scaling_factors@[k]),
                    range.min_sample,
                    range.max_sample,
                ),
        decreases channel@.len() - i,
    {
        let scaled = clamp(
            product(channel[i], per_sample_scaling_factors[i]),
            range.min_sample,
            range.max_sample,
        );
        channel[i] = scaled;
        i = i + 1;
    }
}

} // verus!
