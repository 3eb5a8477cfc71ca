//! Primitives of the pitch search.
//!
//! A lag of the pitch buffer counts from its most recent frame back; an inverted
//! lag counts from the start of the buffer.
use crate::audio_processing::agc2::rnn_vad::common::{
    BUF_SIZE_12_KHZ, BUF_SIZE_24_KHZ, FRAME_SIZE_20_MS_12_KHZ, FRAME_SIZE_20_MS_24_KHZ,
    INITIAL_NUM_LAGS_24_KHZ, MAX_PITCH_24_KHZ, MAX_PITCH_48_KHZ, MIN_PITCH_24_KHZ,
    MIN_PITCH_48_KHZ, NUM_LAGS_12_KHZ, REFINE_NUM_LAGS_24_KHZ,
};
use crate::audio_processing::arithmetic::{
    apply, at_most, difference, dot, dot_product, energy, energy_of, image, is_at_most,
    is_functional, is_less, is_mapping, is_total, larger, less, maximum, minimum, minus,
    multiply_add, negative, opposite, over, plus, plus_product, product, quotient, smaller, sum,
    times, zero, zero_of, Real,
};
use vstd::array::array_fill_for_copy_types;
use vstd::prelude::*;
use vstd::slice::slice_subrange;

verus! {

/// Radius of the search around a candidate, in lags.
pub const PITCH_NEIGHBORHOOD_RADIUS: usize = 2;

/// Number of period divisors for which there is a sub-harmonic multiplier.
pub const NUM_PERIOD_DIVISORS: usize = 14;

pub const SUB_HARMONIC_MULTIPLIERS: [i32; NUM_PERIOD_DIVISORS] = [
    3,
    2,
    3,
    2,
    5,
    2,
    3,
    2,
    3,
    2,
    5,
    2,
    3,
    2,
];

pub const INITIAL_PITCH_PERIOD_THRESHOLDS: [i32; NUM_PERIOD_DIVISORS] = [
    20,
    45,
    80,
    125,
    180,
    245,
    320,
    405,
    500,
    605,
    720,
    845,
    980,
    1125,
];

/// Top-2 pitch-period candidates (inverted lag units).
#[derive(Debug, Copy, Clone, PartialEq, Eq, Structural)]
pub struct CandidatePitchPeriods {
    pub best: i32,
    pub second_best: i32,
}

/// A pitch period and how pronounced it is.
#[derive(Debug, Copy, Clone)]
pub struct PitchInfo<T: Real> {
    pub period: i32,
    pub strength: T,
}

/// The numbers that the pitch search works with.
#[derive(Debug, Copy, Clone)]
pub struct PitchSearchParameters<T: Real> {
    pub one: T,
    pub half: T,
    /// Slope above which the peak is moved towards a neighbour.
    pub interpolation_slope: T,
    /// Share of the initial strength that an alternative period has to reach, and
    /// the least strength for it.
    pub initial_share: T,
    pub least_strength: T,
    /// The same for short periods.
    pub short_initial_share: T,
    pub short_least_strength: T,
}

/// Inclusive range of inverted lags.
#[derive(Debug, Copy, Clone, PartialEq, Eq, Structural)]
pub struct LagRange {
    pub min: usize,
    pub max: usize,
}

/// Performs 2x decimation without anti-aliasing filtering.
pub fn decimate_2x<T: Copy>(src: &[T; BUF_SIZE_24_KHZ], dst: &mut [T; BUF_SIZE_12_KHZ])
    ensures
        final(dst)@ == Seq::new(BUF_SIZE_12_KHZ as nat, |i: int| src@[2 * i]),
{
    let mut i: usize = 0;
    while i < BUF_SIZE_12_KHZ
        invariant
            i <= BUF_SIZE_12_KHZ,
            forall|k: int| 0 <= k < i ==> dst@[k] == src@[2 * k],
        decreases BUF_SIZE_12_KHZ - i,
    {
        dst[i] = src[2 * i];
        i = i + 1;
    }
    assert(dst@ =~= Seq::new(BUF_SIZE_12_KHZ as nat, |i: int| src@[2 * i]));
}

/// Correlation of the most recent frame with the one at an inverted lag.
pub open spec fn auto_correlation<T: Real>(pitch_buffer: Seq<T>, inverted_lag: int) -> T {
    dot(
        pitch_buffer.subrange(MAX_PITCH_24_KHZ as int, BUF_SIZE_24_KHZ as int),
        pitch_buffer.subrange(inverted_lag, inverted_lag + FRAME_SIZE_20_MS_24_KHZ),
        FRAME_SIZE_20_MS_24_KHZ as int,
    )
}

pub fn compute_auto_correlation_24k<T: Real>(
    inverted_lag: usize,
    pitch_buffer: &[T; BUF_SIZE_24_KHZ],
) -> (correlation: T)
    requires
        is_total::<T>(),
        inverted_lag < REFINE_NUM_LAGS_24_KHZ,
    ensures
        is_functional::<T>() ==> correlation == auto_correlation(
            pitch_buffer@,
            inverted_lag as int,
        ),
{
    let x = slice_subrange(pitch_buffer.as_slice(), MAX_PITCH_24_KHZ, BUF_SIZE_24_KHZ);
    let y = slice_subrange(
        pitch_buffer.as_slice(),
        inverted_lag,
        inverted_lag + FRAME_SIZE_20_MS_24_KHZ,
    );
    dot_product(x, y)
}

/// By how many samples at twice the rate a peak is off, towards the neighbour
/// that is nearly as high.
pub open spec fn interpolation_offset<T: Real>(slope: T, prev: T, curr: T, next: T) -> int {
    if less(times(slope, minus(curr, prev)), minus(next, prev)) {
        1
    } else if less(times(slope, minus(curr, next)), minus(prev, next)) {
        -1
    } else {
        0
    }
}

pub fn get_pitch_pseudo_interpolation_offset<T: Real>(slope: T, prev: T, curr: T, next: T) -> (offset:
    i32)
    requires
        is_total::<T>(),
    ensures
        -1 <= offset <= 1,
        is_functional::<T>() ==> offset == interpolation_offset(slope, prev, curr, next),
{
    if is_less(product(slope, difference(curr, prev)), difference(next, prev)) {
        1
    } else if is_less(product(slope, difference(curr, next)), difference(prev, next)) {
        -1
    } else {
        0
    }
}

/// The period at 48 kHz for a lag at 24 kHz, refined from the pitch buffer.
pub open spec fn interpolated_period<T: Real>(slope: T, pitch_buffer: Seq<T>, lag: int) -> int {
    let inverted_lag = MAX_PITCH_24_KHZ - lag;
    2 * lag + if 0 < lag < MAX_PITCH_24_KHZ {
        interpolation_offset(
            slope,
            auto_correlation(pitch_buffer, inverted_lag + 1),
            auto_correlation(pitch_buffer, inverted_lag),
            auto_correlation(pitch_buffer, inverted_lag - 1),
        )
    } else {
        0
    }
}

pub fn pitch_pseudo_interpolation_lag_pitch_buf<T: Real>(
    slope: T,
    lag: i32,
    pitch_buffer: &[T; BUF_SIZE_24_KHZ],
) -> (period: i32)
    requires
        is_total::<T>(),
        i32::MIN <= 2 * lag <= i32::MAX,
    ensures
        2 * lag - 1 <= period <= 2 * lag + 1,
        lag >= MAX_PITCH_24_KHZ ==> period == 2 * lag,
        is_functional::<T>() ==> period == interpolated_period(slope, pitch_buffer@, lag as int),
{
    let mut offset: i32 = 0;
    if lag > 0 && (lag as usize) < MAX_PITCH_24_KHZ {
        let inverted_lag: usize = MAX_PITCH_24_KHZ - lag as usize;
        offset = get_pitch_pseudo_interpolation_offset(
            slope,
            compute_auto_correlation_24k(inverted_lag + 1, pitch_buffer),
            compute_auto_correlation_24k(inverted_lag, pitch_buffer),
            compute_auto_correlation_24k(inverted_lag - 1, pitch_buffer),
        );
    }
    2 * lag + offset
}

/// The inverted lags around a candidate.
pub open spec fn neighborhood(inverted_lag: int) -> LagRange {
    LagRange {
        min: (if inverted_lag < PITCH_NEIGHBORHOOD_RADIUS {
            0
        } else {
            inverted_lag - PITCH_NEIGHBORHOOD_RADIUS
        }) as usize,
        max: (if inverted_lag + PITCH_NEIGHBORHOOD_RADIUS < INITIAL_NUM_LAGS_24_KHZ {
            inverted_lag + PITCH_NEIGHBORHOOD_RADIUS
        } else {
            INITIAL_NUM_LAGS_24_KHZ - 1
        }) as usize,
    }
}

pub fn create_inverted_lag_range(inverted_lag: usize) -> (range: LagRange)
    requires
        inverted_lag + PITCH_NEIGHBORHOOD_RADIUS <= usize::MAX,
    ensures
        range == neighborhood(inverted_lag as int),
{
    LagRange {
        min: inverted_lag.saturating_sub(PITCH_NEIGHBORHOOD_RADIUS),
        max: if inverted_lag + PITCH_NEIGHBORHOOD_RADIUS < INITIAL_NUM_LAGS_24_KHZ {
            inverted_lag + PITCH_NEIGHBORHOOD_RADIUS
        } else {
            INITIAL_NUM_LAGS_24_KHZ - 1
        },
    }
}

/// The inverted lags of a range, in order.
pub open spec fn lags_of(range: LagRange) -> Seq<usize> {
    Seq::new(
        (if range.min <= range.max {
            range.max + 1 - range.min
        } else {
            0
        }) as nat,
        |i: int| (range.min + i) as usize,
    )
}

/// The table with the correlations in a range filled in, and zeros at its ends.
pub open spec fn with_correlations<T: Real>(
    table: Seq<T>,
    pitch_buffer: Seq<T>,
    range: LagRange,
) -> Seq<T> {
    Seq::new(
        table.len(),
        |k: int|
            if range.min <= k <= range.max {
                auto_correlation(pitch_buffer, k)
            } else if k == range.min - 1 || k == range.max + 1 {
                zero_of()
            } else {
                table[k]
            },
    )
}

fn compute_auto_correlation_range<T: Real>(
    inverted_lags: LagRange,
    pitch_buffer: &[T; BUF_SIZE_24_KHZ],
    auto_correlation: &mut [T; INITIAL_NUM_LAGS_24_KHZ],
    inverted_lags_index: &mut Vec<usize>,
)
    requires
        is_total::<T>(),
        inverted_lags.min <= inverted_lags.max + 1 <= INITIAL_NUM_LAGS_24_KHZ,
    ensures
        final(inverted_lags_index)@ == old(inverted_lags_index)@ + lags_of(inverted_lags),
        is_functional::<T>() ==> final(auto_correlation)@ == with_correlations(
            old(auto_correlation)@,
            pitch_buffer@,
            inverted_lags,
        ),
{
    let ghost table = auto_correlation@;
    let ghost listed = inverted_lags_index@;
    let nothing: T = zero();
    if inverted_lags.min > 0 {
        auto_correlation[inverted_lags.min - 1] = nothing;
    }
    if inverted_lags.max < INITIAL_NUM_LAGS_24_KHZ - 1 {
        auto_correlation[inverted_lags.max + 1] = nothing;
    }
    let mut inverted_lag: usize = inverted_lags.min;
    while inverted_lag <= inverted_lags.max
        invariant
            is_total::<T>(),
            inverted_lags.min <= inverted_lag <= inverted_lags.max + 1,
            inverted_lags.max < INITIAL_NUM_LAGS_24_KHZ,
            table.len() == INITIAL_NUM_LAGS_24_KHZ,
            inverted_lags_index@ == listed + lags_of(inverted_lags).take(
                inverted_lag - inverted_lags.min,
            ),
            is_functional::<T>() ==> forall|k: int|
                0 <= k < INITIAL_NUM_LAGS_24_KHZ && !(inverted_lag <= k <= inverted_lags.max)
                    ==> #[trigger] auto_correlation@[k] == with_correlations(
                    table,
                    pitch_buffer@,
                    inverted_lags,
                )[k],
        decreases inverted_lags.max + 1 - inverted_lag,
    {
        let correlation = compute_auto_correlation_24k(inverted_lag, pitch_buffer);
        auto_correlation[inverted_lag] = correlation;
        inverted_lags_index.push(inverted_lag);
        inverted_lag = inverted_lag + 1;
        assert(inverted_lags_index@ =~= listed + lags_of(inverted_lags).take(
            inverted_lag - inverted_lags.min,
        ));
    }
    proof {
        assert(lags_of(inverted_lags).take(inverted_lag - inverted_lags.min) =~= lags_of(
            inverted_lags,
        ));
        if is_functional::<T>() {
            assert(auto_correlation@ =~= with_correlations(table, pitch_buffer@, inverted_lags));
        }
    }
}

/// A lag whose strength is `numerator / denominator`.
#[derive(Debug, Copy, Clone)]
pub struct PitchCandidate<T: Real> {
    pub period_inverted_lag: i32,
    pub strength_numerator: T,
    pub strength_denominator: T,
}

impl<T: Real> PitchCandidate<T> {
    /// Compares the strengths without a division.
    pub open spec fn is_stronger(self, b: PitchCandidate<T>) -> bool {
        less(
            times(b.strength_numerator, self.strength_denominator),
            times(self.strength_numerator, b.strength_denominator),
        )
    }

    pub fn has_stronger_pitch_than(&self, b: &PitchCandidate<T>) -> (result: bool)
        requires
            is_total::<T>(),
        ensures
            is_functional::<T>() ==> result == self.is_stronger(*b),
    {
        is_less(
            product(b.strength_numerator, self.strength_denominator),
            product(self.strength_numerator, b.strength_denominator),
        )
    }

    /// The candidate of an inverted lag with a positive correlation.
    pub open spec fn of(inverted_lag: int, correlation: T, denominator: T) -> PitchCandidate<T> {
        PitchCandidate {
            period_inverted_lag: inverted_lag as i32,
            strength_numerator: times(correlation, correlation),
            strength_denominator: denominator,
        }
    }

    /// A candidate that is weaker than any with a positive correlation.
    pub open spec fn weakest(one: T, inverted_lag: int) -> PitchCandidate<T> {
        PitchCandidate {
            period_inverted_lag: inverted_lag as i32,
            strength_numerator: negative(one),
            strength_denominator: zero_of(),
        }
    }
}

/// The first strongest among the first `n` listed lags with a positive
/// correlation.
pub open spec fn strongest<T: Real>(
    one: T,
    inverted_lags: Seq<usize>,
    table: Seq<T>,
    y_energy: Seq<T>,
    n: int,
) -> PitchCandidate<T>
    decreases n,
{
    if n <= 0 {
        PitchCandidate::weakest(one, 0)
    } else {
        let best = strongest(one, inverted_lags, table, y_energy, n - 1);
        let lag = inverted_lags[n - 1] as int;
        let candidate = PitchCandidate::of(lag, table[lag], y_energy[lag]);
        if less(zero_of(), table[lag]) && candidate.is_stronger(best) {
            candidate
        } else {
            best
        }
    }
}

/// The inverted lag at 48 kHz of the strongest listed lag.
pub open spec fn refined_inverted_lag<T: Real>(
    p: PitchSearchParameters<T>,
    inverted_lags: Seq<usize>,
    table: Seq<T>,
    y_energy: Seq<T>,
) -> int {
    let best = strongest(
        p.one,
        inverted_lags,
        table,
        y_energy,
        inverted_lags.len() as int,
    ).period_inverted_lag as int;
    2 * best + if 0 < best < INITIAL_NUM_LAGS_24_KHZ - 1 {
        interpolation_offset(p.interpolation_slope, table[best + 1], table[best], table[best - 1])
    } else {
        0
    }
}

fn compute_pitch_period_48k_from_candidates<T: Real>(
    p: &PitchSearchParameters<T>,
    inverted_lags: &Vec<usize>,
    auto_correlation: &[T; INITIAL_NUM_LAGS_24_KHZ],
    y_energy: &[T; REFINE_NUM_LAGS_24_KHZ],
) -> (inverted_lag_48khz: i32)
    requires
        is_total::<T>(),
        forall|i: int|
            0 <= i < inverted_lags@.len() ==> (#[trigger] inverted_lags@[i])
                < INITIAL_NUM_LAGS_24_KHZ,
    ensures
        0 <= inverted_lag_48khz <= 2 * (INITIAL_NUM_LAGS_24_KHZ - 1),
        is_functional::<T>() ==> inverted_lag_48khz == refined_inverted_lag(
            *p,
            inverted_lags@,
            auto_correlation@,
            y_energy@,
        ),
{
    let nothing: T = zero();
    let mut best = PitchCandidate {
        period_inverted_lag: 0,
        strength_numerator: opposite(p.one),
        strength_denominator: nothing,
    };
    let mut i: usize = 0;
    while i < inverted_lags.len()
        invariant
            is_total::<T>(),
            i <= inverted_lags@.len(),
            is_functional::<T>() ==> nothing == zero_of::<T>(),
            forall|i: int|
                0 <= i < inverted_lags@.len() ==> (#[trigger] inverted_lags@[i])
                    < INITIAL_NUM_LAGS_24_KHZ,
            0 <= best.period_inverted_lag < INITIAL_NUM_LAGS_24_KHZ,
            is_functional::<T>() ==> best == strongest(
                p.one,
                inverted_lags@,
                auto_correlation@,
                y_energy@,
                i as int,
            ),
        decreases inverted_lags@.len() - i,
    {
        let inverted_lag: usize = inverted_lags[i];
        let correlation = auto_correlation[inverted_lag];
        if is_less(nothing, correlation) {
            let candidate = PitchCandidate {
                period_inverted_lag: inverted_lag as i32,
                strength_numerator: product(correlation, correlation),
                strength_denominator: y_energy[inverted_lag],
            };
            if candidate.has_stronger_pitch_than(&best) {
                best = candidate;
            }
        }
        i = i + 1;
    }
    let lag: usize = best.period_inverted_lag as usize;
    if lag == 0 || lag >= INITIAL_NUM_LAGS_24_KHZ - 1 {
        return best.period_inverted_lag * 2;
    }
    let offset: i32 = get_pitch_pseudo_interpolation_offset(
        p.interpolation_slope,
        auto_correlation[lag + 1],
        auto_correlation[lag],
        auto_correlation[lag - 1],
    );
    2 * best.period_inverted_lag + offset
}

/// `multiplier / divisor` of a period, rounded to the nearest integer.
pub open spec fn alternative_period(pitch_period: int, multiplier: int, divisor: int) -> int {
    (2 * multiplier * pitch_period + divisor) / (2 * divisor)
}

proof fn lemma_alternative_period(pitch_period: int, multiplier: int, divisor: int)
    requires
        0 <= pitch_period,
        0 <= multiplier,
        0 < divisor,
    ensures
        0 <= alternative_period(pitch_period, multiplier, divisor),
        multiplier <= divisor ==> alternative_period(pitch_period, multiplier, divisor)
            <= pitch_period,
        0 <= 2 * multiplier * pitch_period,
        multiplier <= divisor ==> 2 * multiplier * pitch_period <= 2 * divisor * pitch_period,
{
    let a = 2 * multiplier * pitch_period + divisor;
    assert(0 <= 2 * multiplier * pitch_period) by (nonlinear_arith)
        requires
            0 <= pitch_period,
            0 <= multiplier,
    ;
    assert(0 <= a / (2 * divisor)) by (nonlinear_arith)
        requires
            0 <= a,
            0 < divisor,
    ;
    if multiplier <= divisor {
        assert(2 * multiplier * pitch_period <= 2 * divisor * pitch_period) by (nonlinear_arith)
            requires
                0 <= pitch_period,
                multiplier <= divisor,
        ;
        assert(a / (2 * divisor) <= pitch_period) by (nonlinear_arith)
            requires
                0 <= a < 2 * divisor * pitch_period + 2 * divisor,
                0 < divisor,
        ;
    }
}

pub fn get_alternative_pitch_period(pitch_period: i32, multiplier: i32, divisor: i32) -> (period: i32)
    requires
        0 <= pitch_period,
        0 <= 2 * multiplier <= i32::MAX,
        0 < 2 * divisor <= i32::MAX,
        2 * multiplier * pitch_period + divisor <= i32::MAX,
    ensures
        period == alternative_period(pitch_period as int, multiplier as int, divisor as int),
{
    proof {
        lemma_alternative_period(pitch_period as int, multiplier as int, divisor as int);
        assert(0 <= 2 * multiplier * pitch_period) by (nonlinear_arith)
            requires
                0 <= pitch_period,
                0 <= multiplier,
        ;
    }
    (2 * multiplier * pitch_period + divisor) / (2 * divisor)
}

/// By how much the last pitch lowers the threshold for an alternative one: by its
/// strength if the periods are neighbours, by half of it if they are two apart
/// and the initial period is long.
pub open spec fn threshold_relief<T: Real>(
    p: PitchSearchParameters<T>,
    last: PitchInfo<T>,
    initial_period: int,
    alternative: int,
    divisor: int,
) -> T {
    let distance = if alternative < last.period {
        last.period - alternative
    } else {
        alternative - last.period
    };
    if distance <= 1 {
        last.strength
    } else if distance == 2 && initial_period > INITIAL_PITCH_PERIOD_THRESHOLDS@[divisor - 2] {
        times(p.half, last.strength)
    } else {
        zero_of()
    }
}

/// The strength that an alternative period has to exceed.
pub open spec fn alternative_threshold<T: Real>(
    p: PitchSearchParameters<T>,
    last: PitchInfo<T>,
    initial: PitchInfo<T>,
    alternative: int,
    divisor: int,
) -> T {
    let relief = threshold_relief(p, last, initial.period as int, alternative, divisor);
    if alternative < 3 * MIN_PITCH_24_KHZ {
        larger(
            minus(times(p.short_initial_share, initial.strength), relief),
            p.short_least_strength,
        )
    } else {
        larger(minus(times(p.initial_share, initial.strength), relief), p.least_strength)
    }
}

pub fn is_alternative_pitch_stronger_than_initial<T: Real>(
    p: &PitchSearchParameters<T>,
    last: PitchInfo<T>,
    initial: PitchInfo<T>,
    alternative: PitchInfo<T>,
    period_divisor: i32,
) -> (result: bool)
    requires
        is_total::<T>(),
        2 <= period_divisor < 2 + NUM_PERIOD_DIVISORS,
    ensures
        is_functional::<T>() ==> result == less(
            alternative_threshold(
                *p,
                last,
                initial,
                alternative.period as int,
                period_divisor as int,
            ),
            alternative.strength,
        ),
{
    let distance: i64 = if (alternative.period as i64) < last.period as i64 {
        last.period as i64 - alternative.period as i64
    } else {
        alternative.period as i64 - last.period as i64
    };
    let lower_threshold_term = if distance <= 1 {
        last.strength
    } else if distance == 2 && initial.period > INITIAL_PITCH_PERIOD_THRESHOLDS[(period_divisor
        - 2) as usize] {
        product(p.half, last.strength)
    } else {
        zero()
    };
    let threshold = if alternative.period < 3 * MIN_PITCH_24_KHZ as i32 {
        maximum(
            difference(product(p.short_initial_share, initial.strength), lower_threshold_term),
            p.short_least_strength,
        )
    } else {
        maximum(
            difference(product(p.initial_share, initial.strength), lower_threshold_term),
            p.least_strength,
        )
    };
    is_less(threshold, alternative.strength)
}

/// Energy of the frame at an inverted lag: that of the frame before, less the
/// sample that leaves and plus the one that enters, but at least one.
pub open spec fn sliding_energy<T: Real>(one: T, pitch_buffer: Seq<T>, inverted_lag: int) -> T
    decreases inverted_lag,
{
    if inverted_lag <= 0 {
        energy(pitch_buffer.subrange(0, FRAME_SIZE_20_MS_24_KHZ as int))
    } else {
        let leaves = pitch_buffer[inverted_lag - 1];
        let enters = pitch_buffer[inverted_lag - 1 + FRAME_SIZE_20_MS_24_KHZ];
        larger(
            plus_product(
                minus(sliding_energy(one, pitch_buffer, inverted_lag - 1), times(leaves, leaves)),
                enters,
                enters,
            ),
            one,
        )
    }
}

/// Computes sum of squared samples for every sliding frame `y` in the pitch
/// buffer. `y_energy` indexes are inverted lags.
pub fn compute_sliding_frame_square_energies_24khz<T: Real>(
    one: T,
    pitch_buffer: &[T; BUF_SIZE_24_KHZ],
    y_energy: &mut [T; REFINE_NUM_LAGS_24_KHZ],
)
    requires
        is_total::<T>(),
    ensures
        is_functional::<T>() ==> final(y_energy)@ == Seq::new(
            REFINE_NUM_LAGS_24_KHZ as nat,
            |k: int| sliding_energy(one, pitch_buffer@, k),
        ),
{
    let mut yy = energy_of(slice_subrange(pitch_buffer.as_slice(), 0, FRAME_SIZE_20_MS_24_KHZ));
    y_energy[0] = yy;
    let mut inverted_lag: usize = 0;
    while inverted_lag < MAX_PITCH_24_KHZ
        invariant
            is_total::<T>(),
            inverted_lag <= MAX_PITCH_24_KHZ,
            is_functional::<T>() ==> {
                &&& yy == sliding_energy(one, pitch_buffer@, inverted_lag as int)
                &&& forall|k: int|
                    0 <= k <= inverted_lag ==> #[trigger] y_energy@[k] == sliding_energy(
                        one,
                        pitch_buffer@,
                        k,
                    )
            },
        decreases MAX_PITCH_24_KHZ - inverted_lag,
    {
        let leaves = pitch_buffer[inverted_lag];
        let enters = pitch_buffer[inverted_lag + FRAME_SIZE_20_MS_24_KHZ];
        yy = maximum(
            multiply_add(difference(yy, product(leaves, leaves)), enters, enters),
            one,
        );
        y_energy[inverted_lag + 1] = yy;
        inverted_lag = inverted_lag + 1;
    }
    proof {
        if is_functional::<T>() {
            assert(y_energy@ =~= Seq::new(
                REFINE_NUM_LAGS_24_KHZ as nat,
                |k: int| sliding_energy(one, pitch_buffer@, k),
            ));
        }
    }
}

/// One plus the energy of the frame at an inverted lag of the buffer at 12 kHz;
/// after the first frame it is never negative.
pub open spec fn sliding_denominator<T: Real>(one: T, pitch_buffer: Seq<T>, inverted_lag: int) -> T
    decreases inverted_lag,
{
    if inverted_lag <= 0 {
        plus(one, energy(pitch_buffer.subrange(0, FRAME_SIZE_20_MS_12_KHZ + 1)))
    } else {
        let leaves = pitch_buffer[inverted_lag - 1];
        let enters = pitch_buffer[inverted_lag - 1 + FRAME_SIZE_20_MS_12_KHZ];
        larger(
            plus_product(
                minus(
                    sliding_denominator(one, pitch_buffer, inverted_lag - 1),
                    times(leaves, leaves),
                ),
                enters,
                enters,
            ),
            zero_of(),
        )
    }
}

/// The two strongest among the first `n` inverted lags with a positive
/// correlation.
pub open spec fn two_strongest<T: Real>(
    one: T,
    pitch_buffer: Seq<T>,
    auto_correlation: Seq<T>,
    n: int,
) -> (PitchCandidate<T>, PitchCandidate<T>)
    decreases n,
{
    if n <= 0 {
        (PitchCandidate::weakest(one, 0), PitchCandidate::weakest(one, 1))
    } else {
        let (best, second_best) = two_strongest(one, pitch_buffer, auto_correlation, n - 1);
        let candidate = PitchCandidate::of(
            n - 1,
            auto_correlation[n - 1],
            sliding_denominator(one, pitch_buffer, n - 1),
        );
        if !less(zero_of(), auto_correlation[n - 1]) || !candidate.is_stronger(second_best) {
            (best, second_best)
        } else if candidate.is_stronger(best) {
            (candidate, best)
        } else {
            (best, candidate)
        }
    }
}

/// Computes pitch-period candidates at 12 kHz from decimated pitch buffer and
/// auto-correlation values (inverted-lag indexed).
pub fn compute_pitch_period_12khz<T: Real>(
    one: T,
    pitch_buffer: &[T; BUF_SIZE_12_KHZ],
    auto_correlation: &[T; NUM_LAGS_12_KHZ],
) -> (candidates: CandidatePitchPeriods)
    requires
        is_total::<T>(),
    ensures
        0 <= candidates.best < NUM_LAGS_12_KHZ,
        0 <= candidates.second_best < NUM_LAGS_12_KHZ,
        is_functional::<T>() ==> {
            let two = two_strongest(
                one,
                pitch_buffer@,
                auto_correlation@,
                NUM_LAGS_12_KHZ as int,
            );
            &&& candidates.best == two.0.period_inverted_lag
            &&& candidates.second_best == two.1.period_inverted_lag
        },
{
    let nothing: T = zero();
    let mut denominator = sum(
        one,
        energy_of(slice_subrange(pitch_buffer.as_slice(), 0, FRAME_SIZE_20_MS_12_KHZ + 1)),
    );
    let mut best = PitchCandidate {
        period_inverted_lag: 0,
        strength_numerator: opposite(one),
        strength_denominator: nothing,
    };
    let mut second_best = PitchCandidate {
        period_inverted_lag: 1,
        strength_numerator: opposite(one),
        strength_denominator: nothing,
    };
    let mut inverted_lag: usize = 0;
    while inverted_lag < NUM_LAGS_12_KHZ
        invariant
            is_total::<T>(),
            inverted_lag <= NUM_LAGS_12_KHZ,
            is_functional::<T>() ==> nothing == zero_of::<T>(),
            0 <= best.period_inverted_lag < NUM_LAGS_12_KHZ,
            0 <= second_best.period_inverted_lag < NUM_LAGS_12_KHZ,
            is_functional::<T>() ==> {
                &&& denominator == sliding_denominator(one, pitch_buffer@, inverted_lag as int)
                &&& (best, second_best) == two_strongest(
                    one,
                    pitch_buffer@,
                    auto_correlation@,
                    inverted_lag as int,
                )
            },
        decreases NUM_LAGS_12_KHZ - inverted_lag,
    {
        let correlation = auto_correlation[inverted_lag];
        if is_less(nothing, correlation) {
            let candidate = PitchCandidate {
                period_inverted_lag: inverted_lag as i32,
                strength_numerator: product(correlation, correlation),
                strength_denominator: denominator,
            };
            if candidate.has_stronger_pitch_than(&second_best) {
                if candidate.has_stronger_pitch_than(&best) {
                    second_best = best;
                    best = candidate;
                } else {
                    second_best = candidate;
                }
            }
        }
        let leaves = pitch_buffer[inverted_lag];
        let enters = pitch_buffer[inverted_lag + FRAME_SIZE_20_MS_12_KHZ];
        denominator = maximum(
            multiply_add(difference(denominator, product(leaves, leaves)), enters, enters),
            nothing,
        );
        inverted_lag = inverted_lag + 1;
    }
    CandidatePitchPeriods {
        best: best.period_inverted_lag,
        second_best: second_best.period_inverted_lag,
    }
}

/// The neighborhoods of two candidates, the lower one first; one range if they
/// touch.
pub open spec fn search_ranges(best: int, second_best: int) -> (LagRange, Option<LagRange>) {
    let (low, high) = if best > second_best {
        (neighborhood(second_best), neighborhood(best))
    } else {
        (neighborhood(best), neighborhood(second_best))
    };
    if low.max + 1 >= high.min {
        (LagRange { min: low.min, max: high.max }, None)
    } else {
        (low, Some(high))
    }
}

/// The inverted lag at 48 kHz that two candidates at 24 kHz are refined to.
pub open spec fn refined_candidates<T: Real>(
    p: PitchSearchParameters<T>,
    pitch_buffer: Seq<T>,
    y_energy: Seq<T>,
    candidates: CandidatePitchPeriods,
) -> int {
    let (first, second) = search_ranges(
        candidates.best as int,
        candidates.second_best as int,
    );
    let empty = Seq::new(INITIAL_NUM_LAGS_24_KHZ as nat, |k: int| zero_of::<T>());
    let table = with_correlations(empty, pitch_buffer, first);
    match second {
        Some(range) => refined_inverted_lag(
            p,
            lags_of(first) + lags_of(range),
            with_correlations(table, pitch_buffer, range),
            y_energy,
        ),
        None => refined_inverted_lag(p, lags_of(first), table, y_energy),
    }
}

/// The order of the two candidates does not matter.
pub proof fn law_candidate_order<T: Real>(
    p: PitchSearchParameters<T>,
    pitch_buffer: Seq<T>,
    y_energy: Seq<T>,
    a: i32,
    b: i32,
)
    ensures
        refined_candidates(
            p,
            pitch_buffer,
            y_energy,
            CandidatePitchPeriods { best: a, second_best: b },
        ) == refined_candidates(
            p,
            pitch_buffer,
            y_energy,
            CandidatePitchPeriods { best: b, second_best: a },
        ),
{
}

/// Refines pitch period at 48 kHz from 24 kHz buffer and 24 kHz candidates
/// (inverted-lag encoded).
pub fn compute_pitch_period_48khz<T: Real>(
    p: &PitchSearchParameters<T>,
    pitch_buffer: &[T; BUF_SIZE_24_KHZ],
    y_energy: &[T; REFINE_NUM_LAGS_24_KHZ],
    pitch_candidates: CandidatePitchPeriods,
) -> (inverted_lag_48khz: i32)
    requires
        is_total::<T>(),
        0 <= pitch_candidates.best <= INITIAL_NUM_LAGS_24_KHZ + 2,
        0 <= pitch_candidates.second_best <= INITIAL_NUM_LAGS_24_KHZ + 2,
    ensures
        0 <= inverted_lag_48khz <= 2 * (INITIAL_NUM_LAGS_24_KHZ - 1),
        is_functional::<T>() ==> inverted_lag_48khz == refined_candidates(
            *p,
            pitch_buffer@,
            y_energy@,
            pitch_candidates,
        ),
{
    let nothing: T = zero();
    let mut auto_correlation: [T; INITIAL_NUM_LAGS_24_KHZ] = array_fill_for_copy_types(nothing);
    let mut inverted_lags_index: Vec<usize> = Vec::new();
    proof {
        if is_functional::<T>() {
            assert(auto_correlation@ =~= Seq::new(
                INITIAL_NUM_LAGS_24_KHZ as nat,
                |k: int| zero_of::<T>(),
            ));
        }
    }
    let best: usize = pitch_candidates.best as usize;
    let second_best: usize = pitch_candidates.second_best as usize;
    let swap = best > second_best;
    let r1 = create_inverted_lag_range(
        if swap {
            second_best
        } else {
            best
        },
    );
    let r2 = create_inverted_lag_range(
        if swap {
            best
        } else {
            second_best
        },
    );
    if r1.max + 1 >= r2.min {
        compute_auto_correlation_range(
            LagRange { min: r1.min, max: r2.max },
            pitch_buffer,
            &mut auto_correlation,
            &mut inverted_lags_index,
        );
        assert(inverted_lags_index@ =~= lags_of(LagRange { min: r1.min, max: r2.max }));
    } else {
        compute_auto_correlation_range(
            r1,
            pitch_buffer,
            &mut auto_correlation,
            &mut inverted_lags_index,
        );
        compute_auto_correlation_range(
            r2,
            pitch_buffer,
            &mut auto_correlation,
            &mut inverted_lags_index,
        );
        assert(inverted_lags_index@ =~= lags_of(r1) + lags_of(r2));
    }
    compute_pitch_period_48k_from_candidates(
        p,
        &inverted_lags_index,
        &auto_correlation,
        y_energy,
    )
}

/// A period at 24 kHz with its correlation, energy and strength.
#[derive(Debug, Copy, Clone)]
pub struct RefinedPitchCandidate<T: Real> {
    pub period: i32,
    pub strength: T,
    pub xy: T,
    pub y_energy: T,
}

/// What the extended search works on.
#[verifier::reject_recursive_types(T)]
pub struct ExtendedSearch<T: Real> {
    pub p: PitchSearchParameters<T>,
    pub pitch_buffer: Seq<T>,
    pub y_energy: Seq<T>,
    pub root: spec_fn(T) -> T,
    pub initial_period_48khz: int,
    pub last_48khz: PitchInfo<T>,
}

/// Half of a period, rounded towards zero.
pub open spec fn half_period(period: i32) -> i32 {
    (if period >= 0 {
        period as int / 2
    } else {
        -((-period) / 2)
    }) as i32
}

/// The period that complements an alternative one: a sub-harmonic of the initial
/// period, or that period itself where the sub-harmonic is out of range.
pub open spec fn dual_period(initial_period: int, divisor: int) -> int {
    let dual = alternative_period(
        initial_period,
        SUB_HARMONIC_MULTIPLIERS@[divisor - 2] as int,
        divisor,
    );
    if divisor == 2 && dual > MAX_PITCH_24_KHZ {
        initial_period
    } else {
        dual
    }
}

impl<T: Real> ExtendedSearch<T> {
    /// The correlation normalised by the energies.
    pub open spec fn strength(self, xy: T, yy: T) -> T {
        over(
            xy,
            (self.root)(plus(self.p.one, times(self.y_energy[MAX_PITCH_24_KHZ as int], yy))),
        )
    }

    pub open spec fn correlation_at(self, period: int) -> T {
        auto_correlation(self.pitch_buffer, MAX_PITCH_24_KHZ - period)
    }

    pub open spec fn energy_at(self, period: int) -> T {
        self.y_energy[MAX_PITCH_24_KHZ - period]
    }

    pub open spec fn initial_period(self) -> int {
        if self.initial_period_48khz / 2 < MAX_PITCH_24_KHZ {
            self.initial_period_48khz / 2
        } else {
            MAX_PITCH_24_KHZ - 1
        }
    }

    pub open spec fn initial(self) -> RefinedPitchCandidate<T> {
        let xy = self.correlation_at(self.initial_period());
        let yy = self.energy_at(self.initial_period());
        RefinedPitchCandidate {
            period: self.initial_period() as i32,
            strength: self.strength(xy, yy),
            xy,
            y_energy: yy,
        }
    }

    /// The candidate whose period is the initial one over `divisor`: correlation
    /// and energy are means with those of the complementary period.
    pub open spec fn alternative(self, divisor: int) -> RefinedPitchCandidate<T> {
        let period = alternative_period(self.initial_period(), 1, divisor);
        let dual = dual_period(self.initial_period(), divisor);
        let xy = times(self.p.half, plus(self.correlation_at(period), self.correlation_at(dual)));
        let yy = times(self.p.half, plus(self.energy_at(period), self.energy_at(dual)));
        RefinedPitchCandidate {
            period: period as i32,
            strength: self.strength(xy, yy),
            xy,
            y_energy: yy,
        }
    }

    /// The largest divisor for which the period stays in range.
    pub open spec fn max_divisor(self) -> int {
        (2 * self.initial_period()) / (2 * MIN_PITCH_24_KHZ - 1)
    }

    /// The best candidate up to `divisor`: the one with the largest divisor that
    /// exceeds its threshold, or the initial one.
    pub open spec fn best(self, divisor: int) -> RefinedPitchCandidate<T>
        decreases divisor,
    {
        if divisor < 2 {
            self.initial()
        } else {
            let candidate = self.alternative(divisor);
            let threshold = alternative_threshold(
                self.p,
                PitchInfo {
                    period: half_period(self.last_48khz.period),
                    strength: self.last_48khz.strength,
                },
                PitchInfo {
                    period: self.initial().period,
                    strength: self.initial().strength,
                },
                candidate.period as int,
                divisor,
            );
            if less(threshold, candidate.strength) {
                candidate
            } else {
                self.best(divisor - 1)
            }
        }
    }

    /// The pitch found: the period refined to 48 kHz, and the correlation
    /// normalised by the energy, at most one and at most the strength.
    pub open spec fn result(self) -> (int, T) {
        let best = self.best(self.max_divisor());
        let xy = larger(best.xy, zero_of());
        let share = if at_most(best.y_energy, xy) {
            self.p.one
        } else {
            over(xy, plus(best.y_energy, self.p.one))
        };
        let period = interpolated_period(
            self.p.interpolation_slope,
            self.pitch_buffer,
            best.period as int,
        );
        (
            if period < MIN_PITCH_48_KHZ {
                MIN_PITCH_48_KHZ as int
            } else {
                period
            },
            smaller(share, best.strength),
        )
    }
}

/// Halves a period, rounding towards zero.
fn halve(period: i32) -> (half: i32)
    ensures
        half == half_period(period),
        -0x4000_0000 <= half <= 0x4000_0000,
{
    let wide: i64 = period as i64;
    if wide >= 0 {
        (wide / 2) as i32
    } else {
        (-((-wide) / 2)) as i32
    }
}

proof fn lemma_max_divisor(initial_period: int)
    requires
        MIN_PITCH_24_KHZ <= initial_period < MAX_PITCH_24_KHZ,
    ensures
        1 <= (2 * initial_period) / (2 * MIN_PITCH_24_KHZ - 1) <= 12,
{
    assert(2 * MIN_PITCH_24_KHZ - 1 == 59);
    assert(1 <= (2 * initial_period) / 59 <= 12);
}

proof fn lemma_periods(initial_period: int, divisor: int)
    requires
        MIN_PITCH_24_KHZ <= initial_period < MAX_PITCH_24_KHZ,
        2 <= divisor <= (2 * initial_period) / (2 * MIN_PITCH_24_KHZ - 1),
    ensures
        divisor <= 12,
        0 <= alternative_period(initial_period, 1, divisor) <= MAX_PITCH_24_KHZ,
        1 <= SUB_HARMONIC_MULTIPLIERS@[divisor - 2] <= 5,
        0 <= alternative_period(
            initial_period,
            SUB_HARMONIC_MULTIPLIERS@[divisor - 2] as int,
            divisor,
        ),
        0 <= dual_period(initial_period, divisor) <= MAX_PITCH_24_KHZ,
{
    lemma_max_divisor(initial_period);
    let multiplier = SUB_HARMONIC_MULTIPLIERS@[divisor - 2] as int;
    assert(1 <= multiplier <= 5 && (divisor > 2 ==> multiplier <= divisor)) by {
        assert(divisor == 2 || divisor == 3 || divisor == 4 || divisor == 5 || divisor == 6
            || divisor == 7 || divisor == 8 || divisor == 9 || divisor == 10 || divisor == 11
            || divisor == 12);
    }
    lemma_alternative_period(initial_period, 1, divisor);
    lemma_alternative_period(initial_period, multiplier, divisor);
}

/// Computes pitch period at 48 kHz searching an extended pitch range. `root` is
/// the square root.
pub fn compute_extended_pitch_period_48khz<T: Real, R: Fn(T) -> T>(
    p: &PitchSearchParameters<T>,
    root: &R,
    pitch_buffer: &[T; BUF_SIZE_24_KHZ],
    y_energy: &[T; REFINE_NUM_LAGS_24_KHZ],
    initial_pitch_period_48khz: i32,
    last_pitch_48khz: PitchInfo<T>,
) -> (pitch: PitchInfo<T>)
    requires
        is_total::<T>(),
        forall|a: T| call_requires(root, (a,)),
        MIN_PITCH_48_KHZ <= initial_pitch_period_48khz <= MAX_PITCH_48_KHZ,
    ensures
        MIN_PITCH_48_KHZ <= pitch.period <= MAX_PITCH_48_KHZ,
        is_functional::<T>() && is_mapping(*root) ==> (pitch.period as int, pitch.strength)
            == (ExtendedSearch {
            p: *p,
            pitch_buffer: pitch_buffer@,
            y_energy: y_energy@,
            root: |a: T| image(*root, a),
            initial_period_48khz: initial_pitch_period_48khz as int,
            last_48khz: last_pitch_48khz,
        }).result(),
{
    let ghost search = ExtendedSearch {
        p: *p,
        pitch_buffer: pitch_buffer@,
        y_energy: y_energy@,
        root: |a: T| image(*root, a),
        initial_period_48khz: initial_pitch_period_48khz as int,
        last_48khz: last_pitch_48khz,
    };
    let ghost exact = is_functional::<T>() && is_mapping(*root);
    let x_energy = y_energy[MAX_PITCH_24_KHZ];
    let half_initial: i32 = initial_pitch_period_48khz / 2;
    let initial_period: i32 = if half_initial < MAX_PITCH_24_KHZ as i32 {
        half_initial
    } else {
        MAX_PITCH_24_KHZ as i32 - 1
    };
    let inverted_lag: usize = MAX_PITCH_24_KHZ - initial_period as usize;
    let xy = compute_auto_correlation_24k(inverted_lag, pitch_buffer);
    let yy = y_energy[inverted_lag];
    let strength = quotient(xy, apply(root, sum(p.one, product(x_energy, yy))));
    let mut best_pitch = RefinedPitchCandidate {
        period: initial_period,
        strength,
        xy,
        y_energy: yy,
    };
    let initial_pitch = PitchInfo { period: initial_period, strength };
    let last_pitch = PitchInfo {
        period: halve(last_pitch_48khz.period),
        strength: last_pitch_48khz.strength,
    };
    let max_period_divisor: i32 = (2 * initial_period) / (2 * MIN_PITCH_24_KHZ as i32 - 1);
    proof {
        lemma_max_divisor(initial_period as int);
    }
    assert(max_period_divisor == search.max_divisor());
    assert(exact ==> best_pitch == search.initial());
    let mut period_divisor: i32 = 2;
    while period_divisor <= max_period_divisor
        invariant
            is_total::<T>(),
            forall|a: T| call_requires(root, (a,)),
            exact == (is_functional::<T>() && is_mapping(*root)),
            search == (ExtendedSearch {
                p: *p,
                pitch_buffer: pitch_buffer@,
                y_energy: y_energy@,
                root: |a: T| image(*root, a),
                initial_period_48khz: initial_pitch_period_48khz as int,
                last_48khz: last_pitch_48khz,
            }),
            x_energy == y_energy@[MAX_PITCH_24_KHZ as int],
            MIN_PITCH_24_KHZ <= initial_period < MAX_PITCH_24_KHZ,
            initial_period == search.initial_period(),
            initial_pitch.period == initial_period,
            last_pitch.period == half_period(last_pitch_48khz.period),
            last_pitch.strength == last_pitch_48khz.strength,
            max_period_divisor == search.max_divisor(),
            max_period_divisor <= 12,
            2 <= period_divisor <= max_period_divisor + 1 || period_divisor == 2,
            0 <= best_pitch.period <= MAX_PITCH_24_KHZ,
            exact ==> initial_pitch.strength == search.initial().strength,
            exact ==> best_pitch == search.best(period_divisor - 1),
        decreases max_period_divisor + 1 - period_divisor,
    {
        proof {
            lemma_periods(initial_period as int, period_divisor as int);
            let multiplier = SUB_HARMONIC_MULTIPLIERS@[period_divisor - 2] as int;
            assert(2 * multiplier * initial_period <= 10 * MAX_PITCH_24_KHZ) by (nonlinear_arith)
                requires
                    0 <= multiplier <= 5,
                    0 <= initial_period < MAX_PITCH_24_KHZ,
            ;
        }
        let alternative_period: i32 = get_alternative_pitch_period(
            initial_period,
            1,
            period_divisor,
        );
        let mut dual_alternative_period: i32 = get_alternative_pitch_period(
            initial_period,
            SUB_HARMONIC_MULTIPLIERS[(period_divisor - 2) as usize],
            period_divisor,
        );
        if period_divisor == 2 && dual_alternative_period > MAX_PITCH_24_KHZ as i32 {
            dual_alternative_period = initial_period;
        }
        let primary: usize = MAX_PITCH_24_KHZ - alternative_period as usize;
        let secondary: usize = MAX_PITCH_24_KHZ - dual_alternative_period as usize;
        let xy = product(
            p.half,
            sum(
                compute_auto_correlation_24k(primary, pitch_buffer),
                compute_auto_correlation_24k(secondary, pitch_buffer),
            ),
        );
        let yy = product(p.half, sum(y_energy[primary], y_energy[secondary]));
        let strength = quotient(xy, apply(root, sum(p.one, product(x_energy, yy))));
        let alternative_pitch = PitchInfo { period: alternative_period, strength };
        if is_alternative_pitch_stronger_than_initial(
            p,
            last_pitch,
            initial_pitch,
            alternative_pitch,
            period_divisor,
        ) {
            best_pitch =
            RefinedPitchCandidate { period: alternative_period, strength, xy, y_energy: yy };
        }
        period_divisor = period_divisor + 1;
    }
    assert(exact ==> best_pitch == search.best(search.max_divisor()));
    let xy = maximum(best_pitch.xy, zero());
    let share = if is_at_most(best_pitch.y_energy, xy) {
        p.one
    } else {
        quotient(xy, sum(best_pitch.y_energy, p.one))
    };
    let strength = minimum(share, best_pitch.strength);
    let period: i32 = pitch_pseudo_interpolation_lag_pitch_buf(
        p.interpolation_slope,
        best_pitch.period,
        pitch_buffer,
    );
    PitchInfo {
        period: if period < MIN_PITCH_48_KHZ as i32 {
            MIN_PITCH_48_KHZ as i32
        } else {
            period
        },
        strength,
    }
}

} // verus!
