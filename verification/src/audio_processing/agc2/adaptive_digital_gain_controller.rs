//! Adaptive digital gain controller.
use crate::audio_processing::agc2::gain_applier::{
    is_frame, with_gain, GainApplier, GainApplierParameters,
};
use crate::audio_processing::arithmetic::{
    apply, at_most, clamp, clamped, difference, image, is_at_most, is_functional, is_less,
    is_mapping, is_same, is_total, larger, less, maximum, minimum, minus, negative, opposite, over,
    plus, product, quotient, same, smaller, sum, times, zero, zero_of, Real,
};
use crate::audio_processing::ordered::{
    is_exact, is_number, is_ordered, law_clamped, law_larger, law_smaller,
    lemma_exact, lemma_order, lemma_products, lemma_sums, products_keep_order, sums_keep_order,
};
use vstd::prelude::*;

verus! {

/// How many calls there are between two reports of the gain.
pub const CALLS_PER_GAIN_LOG: i32 = 1000;

#[derive(Debug, Clone, Copy)]
pub struct AdaptiveDigitalConfig<T: Real> {
    pub max_gain_db: T,
    pub headroom_db: T,
    pub max_gain_change_db_per_second: T,
    pub max_output_noise_level_dbfs: T,
    pub initial_gain_db: T,
}

#[derive(Debug, Clone, Copy)]
pub struct FrameInfo<T: Real> {
    pub speech_probability: T,
    pub speech_level_dbfs: T,
    pub speech_level_reliable: bool,
    pub noise_rms_dbfs: T,
    pub headroom_db: T,
    pub limiter_envelope_dbfs: T,
}

/// The numbers that the controller works with.
#[derive(Debug, Clone, Copy)]
pub struct GainControllerParameters<T: Real> {
    pub samples: GainApplierParameters<T>,
    pub ten: T,
    pub twenty: T,
    pub frame_duration_ms: T,
    pub second_ms: T,
    pub vad_confidence_threshold: T,
    /// At what limiter levels to start decreasing the gain.
    pub limiter_threshold_dbfs: T,
    /// No speech is below this level.
    pub min_speech_level_dbfs: T,
    /// No maximum of the noise is below this level.
    pub min_noise_level_dbfs: T,
}

/// Whether a frame of 10 ms can have this many samples.
pub open spec fn is_frame_size(samples_per_channel: int) -> bool {
    ||| samples_per_channel == 80
    ||| samples_per_channel == 160
    ||| samples_per_channel == 320
    ||| samples_per_channel == 480
}

/// Whether a configuration lets the gain change, and bounds the noise by a level.
pub open spec fn is_valid_config<T: Real>(
    p: GainControllerParameters<T>,
    config: AdaptiveDigitalConfig<T>,
) -> bool {
    &&& less(
        zero_of(),
        over(times(config.max_gain_change_db_per_second, p.frame_duration_ms), p.second_ms),
    )
    &&& at_most(p.min_noise_level_dbfs, config.max_output_noise_level_dbfs)
    &&& at_most(config.max_output_noise_level_dbfs, zero_of())
}

/// Whether the levels of a frame can be.
pub open spec fn is_valid_info<T: Real>(
    p: GainControllerParameters<T>,
    info: FrameInfo<T>,
) -> bool {
    at_most(p.min_speech_level_dbfs, info.speech_level_dbfs) && less(zero_of(), info.headroom_db)
}

/// The functions that the controller works with.
pub struct GainControllerFunctions<N, P> {
    /// Gives the number for an integer.
    pub number: N,
    /// Raises the first number to the power of the second.
    pub power: P,
}

/// The ratio for a gain in dB.
pub open spec fn ratio_of<T: Real>(
    p: GainControllerParameters<T>,
    power: spec_fn((T, T)) -> T,
    gain_db: T,
) -> T {
    power((p.ten, over(gain_db, p.twenty)))
}

/// The gain that lifts a level to the headroom, up to the maximum.
pub open spec fn gain_for_level<T: Real>(config: AdaptiveDigitalConfig<T>, level_dbfs: T) -> T {
    if less(level_dbfs, negative(plus(config.headroom_db, config.max_gain_db))) {
        config.max_gain_db
    } else if less(level_dbfs, negative(config.headroom_db)) {
        minus(negative(config.headroom_db), level_dbfs)
    } else {
        zero_of()
    }
}

/// The gain, up to what lifts the noise to its maximum.
pub open spec fn noise_limited_gain<T: Real>(
    gain_db: T,
    noise_level_dbfs: T,
    max_output_noise_level_dbfs: T,
) -> T {
    smaller(gain_db, larger(minus(max_output_noise_level_dbfs, noise_level_dbfs), zero_of()))
}

/// The gain, up to what lifts the level before the gain to the limiter threshold if
/// the speech level is not reliable.
pub open spec fn confidence_limited_gain<T: Real>(
    p: GainControllerParameters<T>,
    gain_db: T,
    last_gain_db: T,
    limiter_level_dbfs: T,
    is_confident: bool,
) -> T {
    if is_confident || at_most(limiter_level_dbfs, p.limiter_threshold_dbfs) {
        gain_db
    } else {
        smaller(
            larger(
                minus(p.limiter_threshold_dbfs, minus(limiter_level_dbfs, last_gain_db)),
                zero_of(),
            ),
            gain_db,
        )
    }
}

/// The change towards a gain, within its bounds.
pub open spec fn gain_change<T: Real>(
    target_gain_db: T,
    last_gain_db: T,
    increase_allowed: bool,
    max_decrease_db: T,
    max_increase_db: T,
) -> T {
    let wanted = minus(target_gain_db, last_gain_db);
    clamped(
        if increase_allowed {
            wanted
        } else {
            smaller(wanted, zero_of())
        },
        negative(max_decrease_db),
        max_increase_db,
    )
}

/// A larger gain has no smaller a ratio, and 20 dB more ten times the ratio, if the
/// power is one.
pub proof fn law_ratio<T: Real>(
    p: GainControllerParameters<T>,
    power: spec_fn((T, T)) -> T,
    one: T,
    low_db: T,
    high_db: T,
)
    requires
        is_ordered::<T>(),
        products_keep_order::<T>(),
        less(zero_of(), p.twenty),
        is_number(over(low_db, p.twenty)),
        is_number(over(high_db, p.twenty)),
        at_most(low_db, high_db),
        forall|a: T, b: T| at_most(a, b) ==> #[trigger] at_most(power((p.ten, a)), power((p.ten, b))),
        forall|a: T| #[trigger] power((p.ten, plus(a, one))) == times(p.ten, power((p.ten, a))),
    ensures
        at_most(ratio_of(p, power, low_db), ratio_of(p, power, high_db)),
        over(high_db, p.twenty) == plus(over(low_db, p.twenty), one) ==> ratio_of(p, power, high_db)
            == times(p.ten, ratio_of(p, power, low_db)),
{
    lemma_products(low_db, high_db, p.twenty);
    let a = over(low_db, p.twenty);
    let b = over(high_db, p.twenty);
    assert(at_most(a, b));
    assert(at_most(power((p.ten, a)), power((p.ten, b))));
}

/// The gain for a level is not negative and at most the maximum. It lifts no level above
/// the headroom, and lifts every level to it that the maximum suffices for.
pub proof fn law_gain_reaches_headroom<T: Real>(config: AdaptiveDigitalConfig<T>, level_dbfs: T)
    requires
        is_ordered::<T>(),
        sums_keep_order::<T>(),
        is_exact::<T>(),
        at_most(zero_of(), config.max_gain_db),
        is_number(level_dbfs),
        is_number(config.headroom_db),
        is_number(plus(config.headroom_db, config.max_gain_db)),
        is_number(plus(level_dbfs, config.max_gain_db)),
        is_number(minus(negative(config.headroom_db), level_dbfs)),
    ensures
        at_most(zero_of(), gain_for_level(config, level_dbfs)),
        at_most(gain_for_level(config, level_dbfs), config.max_gain_db),
        less(zero_of(), gain_for_level(config, level_dbfs)) ==> at_most(
            plus(level_dbfs, gain_for_level(config, level_dbfs)),
            negative(config.headroom_db),
        ),
        less(gain_for_level(config, level_dbfs), config.max_gain_db) ==> at_most(
            negative(config.headroom_db),
            plus(level_dbfs, gain_for_level(config, level_dbfs)),
        ),
{
    let zero = zero_of::<T>();
    let (h, m, l) = (config.headroom_db, config.max_gain_db, level_dbfs);
    let bottom = negative(plus(h, m));
    let top = negative(h);
    lemma_order(zero, m, zero);
    lemma_order(zero, zero, m);
    lemma_order(m, m, m);
    lemma_sums(plus(h, m), h, zero, zero);
    lemma_sums(h, h, zero, zero);
    lemma_order(l, bottom, l);
    lemma_order(bottom, l, bottom);
    lemma_order(l, top, l);
    lemma_order(top, l, top);
    lemma_order(top, top, top);
    lemma_sums(l, bottom, m, m);
    lemma_sums(bottom, l, top, top);
    lemma_sums(l, top, zero, zero);
    lemma_exact(h, m, zero);
    lemma_exact(top, negative(m), m);
    lemma_exact(negative(m), m, zero);
    lemma_exact(m, negative(m), zero);
    lemma_exact(m, zero, zero);
    lemma_exact(top, h, m);
    lemma_exact(h, top, zero);
    lemma_exact(zero, m, zero);
    lemma_exact(top, zero, zero);
    lemma_exact(top, bottom, zero);
    lemma_exact(l, top, zero);
    lemma_exact(l, zero, zero);
    assert(plus(bottom, m) == top);
    assert(minus(top, bottom) == m);
    assert(plus(l, minus(top, l)) == top);
    assert(plus(l, zero) == l);
}

/// The noise limited gain is one of the wanted gain and what lifts the noise to its
/// maximum, or zero where the noise is above that, and no more than either. So the noise
/// does not exceed the maximum with the gain where it does not without.
pub proof fn law_noise_stays_below_maximum<T: Real>(
    gain_db: T,
    noise_level_dbfs: T,
    max_output_noise_level_dbfs: T,
)
    requires
        is_ordered::<T>(),
        sums_keep_order::<T>(),
        is_number(gain_db),
        is_number(minus(max_output_noise_level_dbfs, noise_level_dbfs)),
    ensures
        ({
            let limited = noise_limited_gain(
                gain_db,
                noise_level_dbfs,
                max_output_noise_level_dbfs,
            );
            let room = minus(max_output_noise_level_dbfs, noise_level_dbfs);
            &&& at_most(limited, gain_db)
            &&& less(zero_of(), limited) ==> at_most(limited, room)
            &&& limited == gain_db || limited == room || (limited == zero_of::<T>() && at_most(
                room,
                zero_of(),
            ))
            &&& at_most(zero_of(), gain_db) ==> at_most(zero_of(), limited)
            &&& less(limited, gain_db) ==> at_most(room, limited)
            &&& at_most(noise_level_dbfs, max_output_noise_level_dbfs) && same(
                plus(noise_level_dbfs, room),
                max_output_noise_level_dbfs,
            ) && is_number(plus(noise_level_dbfs, limited)) ==> at_most(
                plus(noise_level_dbfs, limited),
                max_output_noise_level_dbfs,
            )
        }),
{
    let zero = zero_of::<T>();
    let (noise, max) = (noise_level_dbfs, max_output_noise_level_dbfs);
    let room = minus(max, noise);
    let bound = larger(room, zero);
    let limited = noise_limited_gain(gain_db, noise, max);
    lemma_order(zero, zero, zero);
    law_larger(room, zero);
    law_smaller(gain_db, bound);
    lemma_sums(noise, max, zero, zero);
    lemma_sums(limited, room, noise, zero);
    lemma_sums(max, noise, zero, zero);
    lemma_order(zero, room, zero);
    lemma_order(room, zero, room);
    lemma_order(limited, zero, room);
    lemma_order(limited, bound, room);
    lemma_order(zero, limited, zero);
    lemma_order(limited, gain_db, limited);
    lemma_order(limited, room, zero);
    lemma_order(plus(noise, limited), plus(noise, room), max);
    if is_number(plus(noise, limited)) && same(plus(noise, room), max) {
        lemma_order(plus(noise, room), max, plus(noise, room));
        assert(at_most(room, bound));
        if at_most(noise, max) {
            assert(at_most(zero, room));
            assert(at_most(limited, room));
        }
    }
}

/// The gain is limited only where the speech level is not reliable and the limiter level
/// is above its threshold; then it does not lift the level before the gain above the
/// threshold, nor is it negative on that account.
pub proof fn law_limiter_level_bounds_gain<T: Real>(
    p: GainControllerParameters<T>,
    gain_db: T,
    last_gain_db: T,
    limiter_level_dbfs: T,
    is_confident: bool,
)
    requires
        is_ordered::<T>(),
        sums_keep_order::<T>(),
        is_number(gain_db),
        is_number(minus(p.limiter_threshold_dbfs, minus(limiter_level_dbfs, last_gain_db))),
    ensures
        ({
            let limited = confidence_limited_gain(
                p,
                gain_db,
                last_gain_db,
                limiter_level_dbfs,
                is_confident,
            );
            let room = minus(p.limiter_threshold_dbfs, minus(limiter_level_dbfs, last_gain_db));
            &&& is_confident ==> limited == gain_db
            &&& at_most(limiter_level_dbfs, p.limiter_threshold_dbfs) ==> limited == gain_db
            &&& at_most(limited, gain_db)
            &&& at_most(zero_of(), gain_db) ==> at_most(zero_of(), limited)
            &&& !is_confident && less(p.limiter_threshold_dbfs, limiter_level_dbfs) ==> {
                &&& less(zero_of(), limited) ==> at_most(limited, room)
                &&& less(limited, gain_db) ==> at_most(room, limited)
                &&& is_number(plus(minus(limiter_level_dbfs, last_gain_db), limited)) && same(
                    plus(minus(limiter_level_dbfs, last_gain_db), room),
                    p.limiter_threshold_dbfs,
                ) && less(zero_of(), limited) ==> at_most(
                    plus(minus(limiter_level_dbfs, last_gain_db), limited),
                    p.limiter_threshold_dbfs,
                )
            }
        }),
{
    let zero = zero_of::<T>();
    let before = minus(limiter_level_dbfs, last_gain_db);
    let room = minus(p.limiter_threshold_dbfs, before);
    let bound = larger(room, zero);
    let limited = confidence_limited_gain(
        p,
        gain_db,
        last_gain_db,
        limiter_level_dbfs,
        is_confident,
    );
    lemma_order(zero, zero, zero);
    lemma_order(gain_db, gain_db, gain_db);
    law_larger(room, zero);
    law_smaller(bound, gain_db);
    lemma_order(zero, room, zero);
    lemma_order(room, zero, room);
    lemma_order(limited, zero, room);
    lemma_order(limited, bound, room);
    lemma_order(zero, limited, zero);
    lemma_order(limited, gain_db, limited);
    lemma_order(limited, room, zero);
    lemma_order(p.limiter_threshold_dbfs, limiter_level_dbfs, zero);
    lemma_sums(limited, room, before, zero);
    let threshold = p.limiter_threshold_dbfs;
    lemma_order(plus(before, limited), plus(before, room), threshold);
    lemma_order(plus(before, room), threshold, zero);
}

/// The gain changes towards the target and not beyond it, as far as the bounds let it,
/// and does not increase while it may not.
pub proof fn law_gain_moves_to_target<T: Real>(
    target_gain_db: T,
    last_gain_db: T,
    increase_allowed: bool,
    max_decrease_db: T,
    max_increase_db: T,
)
    requires
        is_ordered::<T>(),
        sums_keep_order::<T>(),
        is_number(minus(target_gain_db, last_gain_db)),
        at_most(zero_of(), max_decrease_db),
        at_most(zero_of(), max_increase_db),
    ensures
        ({
            let change = gain_change(
                target_gain_db,
                last_gain_db,
                increase_allowed,
                max_decrease_db,
                max_increase_db,
            );
            let wanted = minus(target_gain_db, last_gain_db);
            &&& at_most(negative(max_decrease_db), change)
            &&& at_most(change, max_increase_db)
            &&& !increase_allowed ==> at_most(change, zero_of())
            &&& at_most(last_gain_db, target_gain_db) ==> at_most(zero_of(), change) && at_most(
                change,
                wanted,
            )
            &&& at_most(target_gain_db, last_gain_db) ==> at_most(wanted, change) && at_most(
                change,
                zero_of(),
            )
            &&& increase_allowed && less(zero_of(), wanted) ==> change == wanted || change
                == max_increase_db
            &&& less(wanted, zero_of()) ==> change == wanted || change == negative(max_decrease_db)
        }),
{
    let zero = zero_of::<T>();
    let wanted = minus(target_gain_db, last_gain_db);
    let allowed = if increase_allowed {
        wanted
    } else {
        smaller(wanted, zero)
    };
    let low = negative(max_decrease_db);
    let change = clamped(allowed, low, max_increase_db);
    lemma_order(zero, zero, zero);
    lemma_order(wanted, wanted, wanted);
    lemma_sums(zero, max_decrease_db, zero, zero);
    lemma_order(low, negative(zero), zero);
    lemma_order(low, zero, max_increase_db);
    law_smaller(wanted, zero);
    lemma_order(allowed, zero, allowed);
    law_clamped(allowed, low, max_increase_db);
    lemma_sums(last_gain_db, target_gain_db, zero, zero);
    lemma_sums(target_gain_db, last_gain_db, zero, zero);
    lemma_order(allowed, low, max_increase_db);
    lemma_order(max_increase_db, allowed, zero);
    lemma_order(wanted, zero, max_increase_db);
    lemma_order(zero, wanted, zero);
    lemma_order(low, wanted, zero);
    lemma_order(low, zero, wanted);
    lemma_order(max_increase_db, wanted, zero);
    lemma_order(zero, max_increase_db, wanted);
    lemma_order(zero, low, allowed);
    lemma_order(wanted, low, zero);
    lemma_order(allowed, max_increase_db, allowed);
    lemma_order(low, allowed, low);
}

fn db_to_ratio<T: Real, N, P: Fn((T, T)) -> T>(
    p: &GainControllerParameters<T>,
    f: &GainControllerFunctions<N, P>,
    v: T,
) -> (ratio: T)
    requires
        is_total::<T>(),
        forall|a: (T, T)| call_requires(f.power, (a,)),
    ensures
        is_functional::<T>() && is_mapping(f.power) ==> ratio == ratio_of(
            *p,
            |a: (T, T)| image(f.power, a),
            v,
        ),
{
    apply(&f.power, (p.ten, quotient(v, p.twenty)))
}

fn compute_gain_db<T: Real>(input_level_dbfs: T, config: &AdaptiveDigitalConfig<T>) -> (gain: T)
    requires
        is_total::<T>(),
    ensures
        is_functional::<T>() ==> gain == gain_for_level(*config, input_level_dbfs),
{
    // If level is very low, apply maximum gain.
    if is_less(input_level_dbfs, opposite(sum(config.headroom_db, config.max_gain_db))) {
        return config.max_gain_db;
    }
    // Level is below -headroom, boost it to -headroom.
    if is_less(input_level_dbfs, opposite(config.headroom_db)) {
        return difference(opposite(config.headroom_db), input_level_dbfs);
    }
    // Level is too high and we can't boost.
    zero()
}

fn limit_gain_by_noise<T: Real>(
    target_gain_db: T,
    input_noise_level_dbfs: T,
    max_output_noise_level_dbfs: T,
) -> (gain: T)
    requires
        is_total::<T>(),
    ensures
        is_functional::<T>() ==> gain == noise_limited_gain(
            target_gain_db,
            input_noise_level_dbfs,
            max_output_noise_level_dbfs,
        ),
        is_functional::<T>() && is_ordered::<T>() && is_number(target_gain_db) && is_number(
            minus(max_output_noise_level_dbfs, input_noise_level_dbfs),
        ) ==> at_most(gain, target_gain_db) && (less(zero_of(), gain) ==> at_most(
            gain,
            minus(max_output_noise_level_dbfs, input_noise_level_dbfs),
        )),
{
    proof {
        if is_ordered::<T>() && is_number(target_gain_db) && is_number(
            minus(max_output_noise_level_dbfs, input_noise_level_dbfs),
        ) {
            let room = minus(max_output_noise_level_dbfs, input_noise_level_dbfs);
            let bound = larger(room, zero_of());
            lemma_order(zero_of::<T>(), zero_of(), zero_of());
            law_larger(room, zero_of());
            law_smaller(target_gain_db, bound);
            let limited = smaller(target_gain_db, bound);
            lemma_order(zero_of(), limited, bound);
            lemma_order(limited, bound, room);
        }
    }
    let max_allowed_gain_db = difference(max_output_noise_level_dbfs, input_noise_level_dbfs);
    minimum(target_gain_db, maximum(max_allowed_gain_db, zero()))
}

fn limit_gain_by_low_confidence<T: Real>(
    p: &GainControllerParameters<T>,
    target_gain_db: T,
    last_gain_db: T,
    limiter_audio_level_dbfs: T,
    estimate_is_confident: bool,
) -> (gain: T)
    requires
        is_total::<T>(),
    ensures
        is_functional::<T>() ==> gain == confidence_limited_gain(
            *p,
            target_gain_db,
            last_gain_db,
            limiter_audio_level_dbfs,
            estimate_is_confident,
        ),
{
    if estimate_is_confident || is_at_most(limiter_audio_level_dbfs, p.limiter_threshold_dbfs) {
        return target_gain_db;
    }
    let limiter_level_dbfs_before_gain = difference(limiter_audio_level_dbfs, last_gain_db);
    let new_target_gain_db = maximum(
        difference(p.limiter_threshold_dbfs, limiter_level_dbfs_before_gain),
        zero(),
    );
    minimum(new_target_gain_db, target_gain_db)
}

fn compute_gain_change_this_frame_db<T: Real>(
    target_gain_db: T,
    last_gain_db: T,
    gain_increase_allowed: bool,
    max_gain_decrease_db: T,
    max_gain_increase_db: T,
) -> (change: T)
    requires
        is_total::<T>(),
    ensures
        is_functional::<T>() ==> change == gain_change(
            target_gain_db,
            last_gain_db,
            gain_increase_allowed,
            max_gain_decrease_db,
            max_gain_increase_db,
        ),
{
    let mut target_gain_difference_db = difference(target_gain_db, last_gain_db);
    if !gain_increase_allowed {
        target_gain_difference_db = minimum(target_gain_difference_db, zero());
    }
    clamp(target_gain_difference_db, opposite(max_gain_decrease_db), max_gain_increase_db)
}

pub struct AdaptiveDigitalGainController<T: Real> {
    parameters: GainControllerParameters<T>,
    gain_applier: GainApplier<T>,
    config: AdaptiveDigitalConfig<T>,
    adjacent_speech_frames_threshold: i32,
    max_gain_change_db_per_10ms: T,
    calls_since_last_gain_log: i32,
    frames_to_gain_increase_allowed: i32,
    last_gain_db: T,
}

impl<T: Real> AdaptiveDigitalGainController<T> {
    pub closed spec fn inv(&self) -> bool {
        &&& 1 <= self.adjacent_speech_frames_threshold
        &&& 0 <= self.frames_to_gain_increase_allowed <= self.adjacent_speech_frames_threshold
        &&& 0 <= self.calls_since_last_gain_log < CALLS_PER_GAIN_LOG
        &&& !self.gain_applier.clips()
    }

    pub closed spec fn numbers(&self) -> GainControllerParameters<T> {
        self.parameters
    }

    pub closed spec fn settings(&self) -> AdaptiveDigitalConfig<T> {
        self.config
    }

    pub closed spec fn applier(&self) -> GainApplier<T> {
        self.gain_applier
    }

    pub closed spec fn speech_threshold(&self) -> i32 {
        self.adjacent_speech_frames_threshold
    }

    /// The largest change of the gain in a frame.
    pub closed spec fn max_change(&self) -> T {
        self.max_gain_change_db_per_10ms
    }

    /// Speech frames until the gain may increase.
    pub closed spec fn frames_to_increase(&self) -> i32 {
        self.frames_to_gain_increase_allowed
    }

    pub closed spec fn gain_db(&self) -> T {
        self.last_gain_db
    }

    pub closed spec fn calls(&self) -> i32 {
        self.calls_since_last_gain_log
    }

    pub open spec fn same_settings(&self, other: &Self) -> bool {
        &&& self.numbers() == other.numbers()
        &&& self.settings() == other.settings()
        &&& self.speech_threshold() == other.speech_threshold()
        &&& self.max_change() == other.max_change()
    }

    pub fn new<N: Fn(i32) -> T, P: Fn((T, T)) -> T>(
        config: AdaptiveDigitalConfig<T>,
        adjacent_speech_frames_threshold: i32,
        parameters: GainControllerParameters<T>,
        f: &GainControllerFunctions<N, P>,
    ) -> (controller: Self)
        requires
            is_total::<T>(),
            adjacent_speech_frames_threshold >= 1,
            is_functional::<T>() ==> is_valid_config(parameters, config),
            forall|a: (T, T)| call_requires(f.power, (a,)),
        ensures
            controller.inv(),
            controller.numbers() == parameters,
            controller.settings() == config,
            controller.speech_threshold() == adjacent_speech_frames_threshold,
            controller.frames_to_increase() == adjacent_speech_frames_threshold,
            controller.gain_db() == config.initial_gain_db,
            controller.calls() == 0,
            controller.applier().settings() == parameters.samples,
            !controller.applier().clips(),
            controller.applier().num_samples() == -1,
            is_functional::<T>() ==> controller.max_change() == over(
                times(config.max_gain_change_db_per_second, parameters.frame_duration_ms),
                parameters.second_ms,
            ),
            is_functional::<T>() && is_mapping(f.power) ==> {
                let ratio = ratio_of(
                    parameters,
                    |a: (T, T)| image(f.power, a),
                    config.initial_gain_db,
                );
                controller.applier().gain() == ratio && controller.applier().last_gain() == ratio
            },
    {
        let max_gain_change_db_per_10ms = quotient(
            product(config.max_gain_change_db_per_second, parameters.frame_duration_ms),
            parameters.second_ms,
        );
        let initial_ratio = db_to_ratio(&parameters, f, config.initial_gain_db);
        AdaptiveDigitalGainController {
            parameters,
            gain_applier: GainApplier::new(false, initial_ratio, parameters.samples),
            config,
            adjacent_speech_frames_threshold,
            max_gain_change_db_per_10ms,
            calls_since_last_gain_log: 0,
            frames_to_gain_increase_allowed: adjacent_speech_frames_threshold,
            last_gain_db: config.initial_gain_db,
        }
    }

    /// The gain that a frame asks for.
    pub open spec fn target_gain(&self, info: FrameInfo<T>) -> T {
        confidence_limited_gain(
            self.numbers(),
            noise_limited_gain(
                gain_for_level(self.settings(), plus(info.speech_level_dbfs, info.headroom_db)),
                info.noise_rms_dbfs,
                self.settings().max_output_noise_level_dbfs,
            ),
            self.gain_db(),
            info.limiter_envelope_dbfs,
            info.speech_level_reliable,
        )
    }

    /// Speech frames until the gain may increase, after a frame: a frame without
    /// speech starts the count over.
    pub open spec fn frames_after(&self, is_speech: bool) -> int {
        if !is_speech {
            self.speech_threshold() as int
        } else if self.frames_to_increase() > 0 {
            self.frames_to_increase() - 1
        } else {
            0
        }
    }

    /// The change of the gain in a frame. The first frame that may increase the gain
    /// makes up for the frames before it.
    pub open spec fn change(
        &self,
        number: spec_fn(i32) -> T,
        info: FrameInfo<T>,
        is_speech: bool,
    ) -> T {
        let frames = self.frames_after(is_speech);
        gain_change(
            self.target_gain(info),
            self.gain_db(),
            frames == 0,
            self.max_change(),
            if frames == 0 && self.frames_to_increase() > 0 {
                times(self.max_change(), number(self.speech_threshold()))
            } else {
                self.max_change()
            },
        )
    }

    /// Chooses the gain for a frame and applies it. A change to a ratio that is not
    /// positive, as of a gain too low for the number type, leaves the applied gain as it
    /// was.
    pub fn process<N: Fn(i32) -> T, P: Fn((T, T)) -> T>(
        &mut self,
        info: &FrameInfo<T>,
        frame: &mut [Vec<T>],
        f: &GainControllerFunctions<N, P>,
    )
        requires
            is_total::<T>(),
            old(self).inv(),
            is_frame(old(frame)@),
            is_frame_size(old(frame)@[0]@.len() as int),
            is_functional::<T>() ==> is_valid_info(old(self).numbers(), *info),
            forall|n: i32| call_requires(f.number, (n,)),
            forall|a: (T, T)| call_requires(f.power, (a,)),
        ensures
            final(self).inv(),
            final(self).same_settings(old(self)),
            final(self).calls() == (old(self).calls() + 1) % (CALLS_PER_GAIN_LOG as int),
            final(self).frames_to_increase() == old(self).frames_after(true) || final(
                self).frames_to_increase() == old(self).frames_after(false),
            final(frame)@.len() == old(frame)@.len(),
            forall|ch: int|
                0 <= ch < old(frame)@.len() ==> (#[trigger] final(frame)@[ch])@.len() == old(
                    frame)@[ch]@.len(),
            is_functional::<T>() && is_mapping(f.number) && is_mapping(f.power) ==> {
                let number = |n: i32| image(f.number, n);
                let is_speech = !less(
                    info.speech_probability,
                    old(self).numbers().vad_confidence_threshold,
                );
                let change = old(self).change(number, *info, is_speech);
                let ratio = ratio_of(
                    old(self).numbers(),
                    |a: (T, T)| image(f.power, a),
                    plus(old(self).gain_db(), change),
                );
                &&& final(self).frames_to_increase() == old(self).frames_after(is_speech)
                &&& final(self).gain_db() == plus(old(self).gain_db(), change)
                &&& final(self).applier().gain() == (if !same(change, zero_of()) && less(
                    zero_of(),
                    ratio,
                ) {
                    ratio
                } else {
                    old(self).applier().gain()
                })
                &&& final(self).applier().last_gain() == final(self).applier().gain()
                &&& final(self).applier().num_samples() != old(self).applier().num_samples()
                    ==> final(self).applier().inverse() == over(
                    old(self).applier().settings().one,
                    number(final(self).applier().num_samples()),
                )
                &&& forall|ch: int, i: int|
                    0 <= ch < old(frame)@.len() && 0 <= i < old(frame)@[ch]@.len()
                        ==> #[trigger] final(frame)@[ch]@[i] == with_gain(
                        old(self).applier().settings(),
                        old(self).applier().last_gain(),
                        final(self).applier().gain(),
                        final(self).applier().inverse(),
                        old(frame)@[ch]@,
                        i,
                    )
            },
            final(self).applier().settings() == old(self).applier().settings(),
            final(self).applier().num_samples() == old(frame)@[0]@.len(),
            final(self).applier().num_samples() == old(self).applier().num_samples()
                ==> final(self).applier().inverse() == old(self).applier().inverse(),
            !final(self).applier().clips(),
    {
        // Compute level used to select desired gain.
        let input_level_dbfs = sum(info.speech_level_dbfs, info.headroom_db);
        let target_gain_db = limit_gain_by_low_confidence(
            &self.parameters,
            limit_gain_by_noise(
                compute_gain_db(input_level_dbfs, &self.config),
                info.noise_rms_dbfs,
                self.config.max_output_noise_level_dbfs,
            ),
            self.last_gain_db,
            info.limiter_envelope_dbfs,
            info.speech_level_reliable,
        );
        // Forbid increasing gain until enough adjacent speech frames are observed.
        let mut first_confident_speech_frame = false;
        if is_less(info.speech_probability, self.parameters.vad_confidence_threshold) {
            self.frames_to_gain_increase_allowed = self.adjacent_speech_frames_threshold;
        } else if self.frames_to_gain_increase_allowed > 0 {
            self.frames_to_gain_increase_allowed = self.frames_to_gain_increase_allowed - 1;
            first_confident_speech_frame = self.frames_to_gain_increase_allowed == 0;
        }
        let gain_increase_allowed = self.frames_to_gain_increase_allowed == 0;
        let mut max_gain_increase_db = self.max_gain_change_db_per_10ms;
        if first_confident_speech_frame {
            max_gain_increase_db =
            product(max_gain_increase_db, apply(&f.number, self.adjacent_speech_frames_threshold));
        }
        let gain_change_this_frame_db = compute_gain_change_this_frame_db(
            target_gain_db,
            self.last_gain_db,
            gain_increase_allowed,
            self.max_gain_change_db_per_10ms,
            max_gain_increase_db,
        );
        let gain_db = sum(self.last_gain_db, gain_change_this_frame_db);
        if !is_same(gain_change_this_frame_db, zero()) {
            let ratio = db_to_ratio(&self.parameters, f, gain_db);
            if is_less(zero(), ratio) {
                self.gain_applier.set_gain_factor(ratio);
            }
        }
        self.gain_applier.apply_gain(frame, &f.number);
        self.last_gain_db = gain_db;
        self.calls_since_last_gain_log = self.calls_since_last_gain_log + 1;
        if self.calls_since_last_gain_log == CALLS_PER_GAIN_LOG {
            self.calls_since_last_gain_log = 0;
        }
    }

    /// A gain may increase only after as many speech frames in a row as the
    /// threshold: a frame without speech forbids it, and each speech frame brings it
    /// one frame closer.
    pub proof fn law_increase_needs_speech(&self, is_speech: bool)
        requires
            self.inv(),
        ensures
            !is_speech ==> self.frames_after(is_speech) >= 1,
            is_speech ==> self.frames_after(is_speech) >= self.frames_to_increase() - 1,
            0 <= self.frames_after(is_speech) <= self.speech_threshold(),
            !is_speech ==> self.frames_after(is_speech) == self.speech_threshold(),
            is_speech && self.frames_to_increase() == 0 ==> self.frames_after(is_speech) == 0,
            is_speech && self.frames_to_increase() > 0 ==> self.frames_after(is_speech)
                < self.frames_to_increase(),
    {
    }

    /// The gain that a frame asks for is between zero and the maximum. Where it is
    /// positive, it lifts the noise at most to its maximum, and the limiter level at most
    /// to its threshold while the speech level is not reliable.
    pub proof fn law_target_gain(&self, info: FrameInfo<T>)
        requires
            is_ordered::<T>(),
            sums_keep_order::<T>(),
            is_exact::<T>(),
            at_most(zero_of(), self.settings().max_gain_db),
            is_number(self.settings().headroom_db),
            is_number(plus(self.settings().headroom_db, self.settings().max_gain_db)),
            is_number(
                plus(
                    plus(info.speech_level_dbfs, info.headroom_db),
                    self.settings().max_gain_db,
                ),
            ),
            is_number(
                minus(
                    negative(self.settings().headroom_db),
                    plus(info.speech_level_dbfs, info.headroom_db),
                ),
            ),
            is_number(minus(self.settings().max_output_noise_level_dbfs, info.noise_rms_dbfs)),
            is_number(
                minus(
                    self.numbers().limiter_threshold_dbfs,
                    minus(info.limiter_envelope_dbfs, self.gain_db()),
                ),
            ),
        ensures
            at_most(zero_of(), self.target_gain(info)),
            at_most(self.target_gain(info), self.settings().max_gain_db),
            less(zero_of(), self.target_gain(info)) ==> at_most(
                self.target_gain(info),
                minus(self.settings().max_output_noise_level_dbfs, info.noise_rms_dbfs),
            ),
            less(zero_of(), self.target_gain(info)) && !info.speech_level_reliable && less(
                self.numbers().limiter_threshold_dbfs,
                info.limiter_envelope_dbfs,
            ) ==> at_most(
                self.target_gain(info),
                minus(
                    self.numbers().limiter_threshold_dbfs,
                    minus(info.limiter_envelope_dbfs, self.gain_db()),
                ),
            ),
    {
        let zero = zero_of::<T>();
        let config = self.settings();
        let level = plus(info.speech_level_dbfs, info.headroom_db);
        let room = minus(config.max_output_noise_level_dbfs, info.noise_rms_dbfs);
        let for_level = gain_for_level(config, level);
        let for_noise = noise_limited_gain(
            for_level,
            info.noise_rms_dbfs,
            config.max_output_noise_level_dbfs,
        );
        let target = self.target_gain(info);
        lemma_sums(negative(config.headroom_db), level, zero, zero);
        law_gain_reaches_headroom(config, level);
        lemma_order(zero, for_level, config.max_gain_db);
        law_noise_stays_below_maximum(
            for_level,
            info.noise_rms_dbfs,
            config.max_output_noise_level_dbfs,
        );
        lemma_order(zero, for_noise, for_level);
        law_limiter_level_bounds_gain(
            self.numbers(),
            for_noise,
            self.gain_db(),
            info.limiter_envelope_dbfs,
            info.speech_level_reliable,
        );
        lemma_order(target, for_noise, for_level);
        lemma_order(target, for_level, config.max_gain_db);
        lemma_order(zero, target, for_noise);
        lemma_order(target, for_noise, room);
    }

    /// A frame without speech does not increase the gain, and no frame changes it by more
    /// than the largest change, except that the first frame that may increase it makes up
    /// for the frames before it.
    pub proof fn law_change_is_bounded(
        &self,
        number: spec_fn(i32) -> T,
        info: FrameInfo<T>,
        is_speech: bool,
    )
        requires
            is_ordered::<T>(),
            sums_keep_order::<T>(),
            self.inv(),
            is_number(minus(self.target_gain(info), self.gain_db())),
            at_most(zero_of(), self.max_change()),
            at_most(zero_of(), times(self.max_change(), number(self.speech_threshold()))),
        ensures
            !is_speech ==> at_most(self.change(number, info, is_speech), zero_of()),
            self.frames_to_increase() > 1 ==> at_most(
                self.change(number, info, is_speech),
                zero_of(),
            ),
            at_most(negative(self.max_change()), self.change(number, info, is_speech)),
            self.frames_to_increase() == 0 ==> at_most(
                self.change(number, info, is_speech),
                self.max_change(),
            ),
            self.frames_to_increase() == 1 && is_speech ==> at_most(
                self.change(number, info, is_speech),
                times(self.max_change(), number(self.speech_threshold())),
            ),
            at_most(self.gain_db(), self.target_gain(info)) ==> at_most(
                zero_of(),
                self.change(number, info, is_speech),
            ) && at_most(
                self.change(number, info, is_speech),
                minus(self.target_gain(info), self.gain_db()),
            ),
            less(minus(self.target_gain(info), self.gain_db()), zero_of()) ==> self.change(
                number,
                info,
                is_speech,
            ) == minus(self.target_gain(info), self.gain_db()) || self.change(
                number,
                info,
                is_speech,
            ) == negative(self.max_change()),
            is_speech && self.frames_to_increase() == 0 && less(
                zero_of(),
                minus(self.target_gain(info), self.gain_db()),
            ) ==> self.change(number, info, is_speech) == minus(
                self.target_gain(info),
                self.gain_db(),
            ) || self.change(number, info, is_speech) == self.max_change(),
            is_speech && self.frames_to_increase() == 1 && less(
                zero_of(),
                minus(self.target_gain(info), self.gain_db()),
            ) ==> self.change(number, info, is_speech) == minus(
                self.target_gain(info),
                self.gain_db(),
            ) || self.change(number, info, is_speech) == times(
                self.max_change(),
                number(self.speech_threshold()),
            ),
    {
        let frames = self.frames_after(is_speech);
        let makes_up = times(self.max_change(), number(self.speech_threshold()));
        law_gain_moves_to_target(
            self.target_gain(info),
            self.gain_db(),
            frames == 0,
            self.max_change(),
            if frames == 0 && self.frames_to_increase() > 0 {
                makes_up
            } else {
                self.max_change()
            },
        );
        let change = self.change(number, info, is_speech);
        lemma_order(change, zero_of(), self.max_change());
    }
}

} // verus!
