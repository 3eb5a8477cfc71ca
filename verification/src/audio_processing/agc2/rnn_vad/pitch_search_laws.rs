//! What holds of the primitives of the pitch search.
use crate::audio_processing::agc2::rnn_vad::common::{
    BUF_SIZE_12_KHZ, BUF_SIZE_24_KHZ, FRAME_SIZE_20_MS_12_KHZ, FRAME_SIZE_20_MS_24_KHZ,
    INITIAL_NUM_LAGS_24_KHZ, MAX_PITCH_24_KHZ,
};
use crate::audio_processing::agc2::rnn_vad::pitch_search_internal::{
    alternative_period, alternative_threshold, auto_correlation, dual_period, half_period,
    interpolated_period, interpolation_offset, lags_of, neighborhood, refined_inverted_lag,
    search_ranges, sliding_denominator, sliding_energy, strongest, threshold_relief, two_strongest,
    with_correlations, ExtendedSearch, LagRange, PitchCandidate, PitchInfo, PitchSearchParameters,
    INITIAL_PITCH_PERIOD_THRESHOLDS,
};
use crate::audio_processing::arithmetic::{
    at_most, dot, energy, larger, less, minus, negative, over, plus, same, smaller, times, zero_of,
    Real,
};
use crate::audio_processing::ordered::{
    is_exact, is_number, is_one, is_ordered, law_energy_counts_every_sample, law_larger,
    law_smaller, lemma_divides_out, lemma_energy_of_more, lemma_exact, lemma_order, lemma_products,
    lemma_scaled_order, lemma_square, lemma_sums, products_keep_order, sums_keep_order,
};
use vstd::prelude::*;

verus! {

/// The correlation at an inverted lag is that of the most recent frame with the one that
/// starts at the inverted lag, sample by sample.
pub proof fn law_auto_correlation<T: Real>(
    pitch_buffer: Seq<T>,
    inverted_lag: int,
    recent: Seq<T>,
    lagged: Seq<T>,
)
    requires
        pitch_buffer.len() == BUF_SIZE_24_KHZ,
        0 <= inverted_lag <= MAX_PITCH_24_KHZ,
        recent.len() == FRAME_SIZE_20_MS_24_KHZ,
        lagged.len() == FRAME_SIZE_20_MS_24_KHZ,
        forall|i: int|
            0 <= i < FRAME_SIZE_20_MS_24_KHZ ==> #[trigger] recent[i] == pitch_buffer[384 + i],
        forall|i: int|
            0 <= i < FRAME_SIZE_20_MS_24_KHZ ==> #[trigger] lagged[i] == pitch_buffer[inverted_lag
                + i],
    ensures
        auto_correlation(pitch_buffer, inverted_lag) == dot(recent, lagged, 480),
        auto_correlation(pitch_buffer, 384) == energy(recent),
{
    assert(recent =~= pitch_buffer.subrange(MAX_PITCH_24_KHZ as int, BUF_SIZE_24_KHZ as int));
    assert(lagged =~= pitch_buffer.subrange(inverted_lag, inverted_lag + FRAME_SIZE_20_MS_24_KHZ));
}

/// A peak is moved towards the neighbour that is nearly as high, if there is one: towards
/// the next one if it is above the line that the slope gives, and as far towards the
/// previous one in the mirrored case. Between neighbours of one height it stays.
pub proof fn law_interpolation_offset<T: Real>(slope: T, prev: T, curr: T, next: T)
    requires
        is_ordered::<T>(),
        sums_keep_order::<T>(),
        products_keep_order::<T>(),
        is_exact::<T>(),
        at_most(zero_of(), slope),
        at_most(prev, curr),
        at_most(next, curr),
    ensures
        -1 <= interpolation_offset(slope, prev, curr, next) <= 1,
        interpolation_offset(slope, prev, curr, next) == 1 <==> less(
            plus(prev, times(slope, minus(curr, prev))),
            next,
        ),
        interpolation_offset(slope, next, curr, prev) == -interpolation_offset(
            slope,
            prev,
            curr,
            next,
        ),
        interpolation_offset(slope, prev, curr, next) == 1 ==> less(prev, next),
        same(prev, next) ==> interpolation_offset(slope, prev, curr, next) == 0,
{
    let zero = zero_of::<T>();
    let up = times(slope, minus(curr, prev));
    let down = times(slope, minus(curr, next));
    lemma_sums(prev, curr, zero, zero);
    lemma_sums(next, curr, zero, zero);
    lemma_products(slope, minus(curr, prev), zero);
    lemma_products(slope, minus(curr, next), zero);
    lemma_sign_of_difference(prev, next);
    lemma_sign_of_difference(next, prev);
    lemma_order(zero, up, minus(next, prev));
    lemma_order(zero, down, minus(prev, next));
    lemma_order(zero, minus(next, prev), zero);
    lemma_order(zero, minus(prev, next), zero);
    lemma_order(prev, next, prev);
    lemma_order(next, prev, next);
    lemma_below_difference(up, prev, next);
}

proof fn lemma_sign_of_difference<T: Real>(a: T, b: T)
    requires
        is_ordered::<T>(),
        sums_keep_order::<T>(),
        is_exact::<T>(),
    ensures
        less(zero_of(), minus(b, a)) == less(a, b),
{
    let zero = zero_of::<T>();
    assert(is_number(a) && is_number(b) && is_number(minus(b, a)) && is_number(zero));
    lemma_order(a, b, a);
    lemma_order(zero, minus(b, a), zero);
    lemma_exact(b, a, zero);
    lemma_exact(a, b, zero);
    lemma_exact(a, zero, zero);
    lemma_sums(b, a, zero, zero);
    lemma_sums(minus(b, a), zero, a, a);
}

proof fn lemma_below_difference<T: Real>(d: T, a: T, b: T)
    requires
        is_ordered::<T>(),
        sums_keep_order::<T>(),
        is_exact::<T>(),
    ensures
        less(d, minus(b, a)) == less(plus(a, d), b),
{
    let zero = zero_of::<T>();
    assert(is_number(d) && is_number(minus(b, a)) && is_number(plus(a, d)) && is_number(b));
    lemma_order(d, minus(b, a), d);
    lemma_order(plus(a, d), b, d);
    lemma_exact(a, b, zero);
    lemma_exact(a, d, zero);
    lemma_exact(d, a, zero);
    lemma_exact(d, a, negative(a));
    lemma_exact(a, zero, zero);
    lemma_exact(d, zero, zero);
    lemma_exact(plus(d, a), a, zero);
    assert(minus(plus(a, d), a) == d);
    lemma_sums(minus(b, a), d, a, a);
    lemma_sums(b, plus(a, d), a, a);
}

/// The refined period is twice the lag, moved by the interpolation between the
/// correlations at the lag, the next shorter and the next longer one; the shortest and the
/// longest lag are not moved.
pub proof fn law_interpolated_period<T: Real>(slope: T, pitch_buffer: Seq<T>, lag: int)
    requires
        0 <= lag <= MAX_PITCH_24_KHZ,
    ensures
        lag == 0 || lag == 384 ==> interpolated_period(slope, pitch_buffer, lag) == 2 * lag,
        0 < lag < 384 ==> interpolated_period(slope, pitch_buffer, lag) - 2 * lag
            == interpolation_offset(
            slope,
            auto_correlation(pitch_buffer, 384 - (lag - 1)),
            auto_correlation(pitch_buffer, 384 - lag),
            auto_correlation(pitch_buffer, 384 - (lag + 1)),
        ),
{
}

/// The neighborhood of an inverted lag has just the lags that are at most two away from
/// it and in range.
pub proof fn law_neighborhood(inverted_lag: int, k: int)
    requires
        0 <= inverted_lag < INITIAL_NUM_LAGS_24_KHZ,
    ensures
        neighborhood(inverted_lag).min <= k <= neighborhood(inverted_lag).max <==> 0 <= k < 294
            && inverted_lag - 2 <= k <= inverted_lag + 2,
{
}

/// The lags of a range are listed in rising order, each once.
pub proof fn law_lags_of(range: LagRange)
    requires
        range.max < usize::MAX,
    ensures
        forall|k: usize| lags_of(range).contains(k) <==> range.min <= k <= range.max,
        forall|i: int, j: int|
            0 <= i < j < lags_of(range).len() ==> lags_of(range)[i] < lags_of(range)[j],
{
    assert forall|k: usize| lags_of(range).contains(k) <==> range.min <= k <= range.max by {
        if range.min <= k <= range.max {
            assert(lags_of(range)[k - range.min] == k);
        }
    }
}

/// The ranges that are searched have just the lags of the two neighborhoods, and no lag
/// twice.
pub proof fn law_search_ranges(best: int, second_best: int, k: int)
    requires
        0 <= best < INITIAL_NUM_LAGS_24_KHZ,
        0 <= second_best < INITIAL_NUM_LAGS_24_KHZ,
    ensures
        ({
            let (first, second) = search_ranges(best, second_best);
            let in_first = first.min <= k <= first.max;
            let in_second = second is Some && second->0.min <= k <= second->0.max;
            &&& (in_first || in_second) == (neighborhood(best).min <= k <= neighborhood(best).max
                || neighborhood(second_best).min <= k <= neighborhood(second_best).max)
            &&& !(in_first && in_second)
            &&& second matches Some(range) ==> first.max + 1 < range.min
        }),
{
}

/// A table has the correlations of a range in its place and zeros next to it, and is
/// otherwise kept.
pub proof fn law_correlations_are_filled_in<T: Real>(
    table: Seq<T>,
    pitch_buffer: Seq<T>,
    range: LagRange,
    k: int,
)
    requires
        0 <= k < table.len(),
        range.min <= range.max,
    ensures
        with_correlations(table, pitch_buffer, range).len() == table.len(),
        range.min <= k <= range.max ==> with_correlations(table, pitch_buffer, range)[k]
            == auto_correlation(pitch_buffer, k),
        k == range.min - 1 || k == range.max + 1 ==> with_correlations(
            table,
            pitch_buffer,
            range,
        )[k] == zero_of::<T>(),
        k < range.min - 1 || k > range.max + 1 ==> with_correlations(table, pitch_buffer, range)[k]
            == table[k],
{
}

/// Of two candidates with positive denominators the stronger one has the larger quotient.
pub proof fn law_stronger_is_larger_quotient<T: Real>(
    one: T,
    a: PitchCandidate<T>,
    b: PitchCandidate<T>,
)
    requires
        is_ordered::<T>(),
        products_keep_order::<T>(),
        is_exact::<T>(),
        is_one(one),
        less(zero_of(), a.strength_denominator),
        less(zero_of(), b.strength_denominator),
    ensures
        a.is_stronger(b) == less(
            over(b.strength_numerator, b.strength_denominator),
            over(a.strength_numerator, a.strength_denominator),
        ),
{
    let zero = zero_of::<T>();
    let (na, da) = (a.strength_numerator, a.strength_denominator);
    let (nb, db) = (b.strength_numerator, b.strength_denominator);
    let (ra, rb) = (over(na, da), over(nb, db));
    lemma_exact(na, da, zero);
    lemma_exact(nb, db, zero);
    lemma_scaled_order(one, da, zero, db);
    let m = times(da, db);
    lemma_scaled_order(one, rb, ra, m);
    lemma_exact(ra, da, db);
    lemma_exact(rb, db, da);
    lemma_exact(db, da, zero);
    lemma_exact(da, db, zero);
    assert(times(nb, da) == times(rb, m));
    assert(times(na, db) == times(ra, m));
}

/// Any candidate with a positive denominator is stronger than the weakest one, and not the
/// other way round.
pub proof fn law_weakest<T: Real>(one: T, inverted_lag: int, a: PitchCandidate<T>)
    requires
        is_ordered::<T>(),
        sums_keep_order::<T>(),
        products_keep_order::<T>(),
        is_exact::<T>(),
        is_one(one),
        less(zero_of(), a.strength_denominator),
    ensures
        a.is_stronger(PitchCandidate::weakest(one, inverted_lag)),
        !PitchCandidate::weakest(one, inverted_lag).is_stronger(a),
{
    let zero = zero_of::<T>();
    let d = a.strength_denominator;
    lemma_exact(a.strength_numerator, zero, zero);
    assert(is_number(d));
    assert(times(d, one) == d);
    lemma_exact(d, one, zero);
    lemma_products(one, d, zero);
    assert(times(negative(one), d) == negative(d));
    lemma_exact(d, zero, zero);
    lemma_order(zero, d, zero);
    lemma_sums(zero, d, zero, zero);
    assert(is_number(negative(d)) && is_number(zero));
    lemma_order(negative(d), zero, zero);
    lemma_order(zero, negative(d), zero);
    if at_most(zero, negative(d)) {
        lemma_sums(zero, negative(d), zero, zero);
        lemma_exact(d, zero, zero);
        lemma_order(d, zero, d);
    }
}

/// No listed lag with a positive correlation is stronger than the strongest one, which is
/// one of them, if there is one, and the first one of that strength.
pub proof fn law_strongest<T: Real>(
    one: T,
    inverted_lags: Seq<usize>,
    table: Seq<T>,
    y_energy: Seq<T>,
    n: int,
) -> (place: int)
    requires
        is_ordered::<T>(),
        sums_keep_order::<T>(),
        products_keep_order::<T>(),
        is_exact::<T>(),
        is_one(one),
        0 <= n <= inverted_lags.len(),
        forall|i: int|
            0 <= i < n ==> less(zero_of(), y_energy[#[trigger] inverted_lags[i] as int]),
    ensures
        -1 <= place < n,
        place == -1 <==> forall|i: int|
            0 <= i < n ==> !less(zero_of(), table[#[trigger] inverted_lags[i] as int]),
        place == -1 ==> strongest(one, inverted_lags, table, y_energy, n)
            == PitchCandidate::weakest(one, 0),
        place >= 0 ==> {
            let lag = inverted_lags[place] as int;
            &&& less(zero_of(), table[lag])
            &&& strongest(one, inverted_lags, table, y_energy, n) == (PitchCandidate {
                period_inverted_lag: lag as i32,
                strength_numerator: times(table[lag], table[lag]),
                strength_denominator: y_energy[lag],
            })
            &&& forall|i: int|
                #![trigger inverted_lags[i]]
                0 <= i < n && less(zero_of(), table[inverted_lags[i] as int]) ==> at_most(
                    quotient_of(table, y_energy, inverted_lags[i] as int),
                    quotient_of(table, y_energy, lag),
                ) && (i < place ==> less(
                    quotient_of(table, y_energy, inverted_lags[i] as int),
                    quotient_of(table, y_energy, lag),
                ))
        },
    decreases n,
{
    if n == 0 {
        -1
    } else {
        let before = law_strongest(one, inverted_lags, table, y_energy, n - 1);
        let best = strongest(one, inverted_lags, table, y_energy, n - 1);
        let lag = inverted_lags[n - 1] as int;
        let candidate = PitchCandidate::of(lag, table[lag], y_energy[lag]);
        let q = quotient_of(table, y_energy, lag);
        assert(less(zero_of(), y_energy[inverted_lags[n - 1] as int]));
        law_weakest(one, 0, candidate);
        assert(is_number(q));
        lemma_order(q, q, q);
        if before >= 0 {
            let old_lag = inverted_lags[before] as int;
            let old = quotient_of(table, y_energy, old_lag);
            assert(less(zero_of(), y_energy[inverted_lags[before] as int]));
            assert(is_number(old));
            law_stronger_is_larger_quotient(one, candidate, best);
            lemma_order(old, q, old);
            lemma_order(q, old, q);
            assert forall|i: int|
                #![trigger inverted_lags[i]]
                0 <= i < n - 1 && less(zero_of(), table[inverted_lags[i] as int]) && less(
                    old,
                    q,
                ) implies less(quotient_of(table, y_energy, inverted_lags[i] as int), q) by {
                lemma_order(quotient_of(table, y_energy, inverted_lags[i] as int), old, q);
            }
            assert forall|i: int|
                #![trigger inverted_lags[i]]
                0 <= i < n - 1 && less(zero_of(), table[inverted_lags[i] as int]) && less(
                    old,
                    q,
                ) implies at_most(quotient_of(table, y_energy, inverted_lags[i] as int), q) by {
                lemma_order(quotient_of(table, y_energy, inverted_lags[i] as int), q, q);
            }
        }
        if less(zero_of(), table[lag]) && candidate.is_stronger(best) {
            n - 1
        } else {
            before
        }
    }
}

/// The squared correlation at an inverted lag over the energy.
pub open spec fn quotient_of<T: Real>(table: Seq<T>, y_energy: Seq<T>, lag: int) -> T {
    over(times(table[lag], table[lag]), y_energy[lag])
}

/// An alternative period times its divisor is the nearest multiple of the divisor to as
/// many times the period.
pub proof fn law_alternative_period(pitch_period: int, multiplier: int, divisor: int)
    requires
        0 < divisor,
    ensures
        -divisor < 2 * (multiplier * pitch_period) - 2 * (divisor * alternative_period(
            pitch_period,
            multiplier,
            divisor,
        )) + 1 <= divisor + 1,
{
    let a = 2 * multiplier * pitch_period + divisor;
    let d = 2 * divisor;
    let q = alternative_period(pitch_period, multiplier, divisor);
    vstd::arithmetic::div_mod::lemma_fundamental_div_mod(a, d);
    vstd::arithmetic::div_mod::lemma_mod_bound(a, d);
    assert(2 * multiplier * pitch_period == 2 * (multiplier * pitch_period)) by (nonlinear_arith);
    assert(d * q == 2 * (divisor * q)) by (nonlinear_arith)
        requires
            d == 2 * divisor,
    ;
}

/// Half of a period is rounded towards zero.
pub proof fn law_half_period(period: i32)
    ensures
        period >= 0 ==> 0 <= period - 2 * half_period(period) <= 1,
        period <= 0 ==> -1 <= period - 2 * half_period(period) <= 0,
        period >= 0 ==> half_period(period) >= 0,
        period <= 0 ==> half_period(period) <= 0,
{
}

/// The last pitch relieves the threshold by its whole strength for a period that is at
/// most one away, by half of it for one that is two away if the initial period is long
/// enough, and not at all otherwise. Which of the two is longer does not matter.
pub proof fn law_threshold_relief<T: Real>(
    p: PitchSearchParameters<T>,
    last: PitchInfo<T>,
    initial_period: int,
    alternative: int,
    divisor: int,
)
    ensures
        ({
            let relief = threshold_relief(p, last, initial_period, alternative, divisor);
            let apart = alternative - last.period;
            let is_long = initial_period > INITIAL_PITCH_PERIOD_THRESHOLDS@[divisor - 2];
            &&& -1 <= apart <= 1 ==> relief == last.strength
            &&& (apart == 2 || apart == -2) && is_long ==> relief == times(p.half, last.strength)
            &&& (apart == 2 || apart == -2) && !is_long ==> relief == zero_of::<T>()
            &&& apart < -2 || apart > 2 ==> relief == zero_of::<T>()
        }),
{
}

/// An alternative period has to be stronger than a least strength and than its share of
/// the initial strength less the relief; short periods have their own. A stronger last
/// pitch never raises the threshold of a period next to it.
pub proof fn law_alternative_threshold<T: Real>(
    p: PitchSearchParameters<T>,
    last: PitchInfo<T>,
    stronger: PitchInfo<T>,
    initial: PitchInfo<T>,
    alternative: int,
    divisor: int,
)
    requires
        is_ordered::<T>(),
        sums_keep_order::<T>(),
        is_exact::<T>(),
        stronger.period == last.period,
        at_most(last.strength, stronger.strength),
        -1 <= alternative - last.period <= 1,
    ensures
        ({
            let threshold = alternative_threshold(p, last, initial, alternative, divisor);
            let share = if alternative < 90 {
                p.short_initial_share
            } else {
                p.initial_share
            };
            let least = if alternative < 90 {
                p.short_least_strength
            } else {
                p.least_strength
            };
            &&& at_most(least, threshold)
            &&& at_most(minus(times(share, initial.strength), last.strength), threshold)
            &&& threshold == least || threshold == minus(
                times(share, initial.strength),
                last.strength,
            )
            &&& at_most(
                alternative_threshold(p, stronger, initial, alternative, divisor),
                threshold,
            )
        }),
{
    let share = if alternative < 90 {
        p.short_initial_share
    } else {
        p.initial_share
    };
    let least = if alternative < 90 {
        p.short_least_strength
    } else {
        p.least_strength
    };
    let a = minus(times(share, initial.strength), last.strength);
    let b = minus(times(share, initial.strength), stronger.strength);
    law_threshold_relief(p, last, initial.period as int, alternative, divisor);
    law_threshold_relief(p, stronger, initial.period as int, alternative, divisor);
    assert(is_number(a) && is_number(b) && is_number(least));
    law_larger(a, least);
    law_larger(b, least);
    lemma_sums(
        last.strength,
        stronger.strength,
        times(share, initial.strength),
        times(share, initial.strength),
    );
    lemma_order(b, a, larger(a, least));
}

/// Of the inverted lags with a positive correlation none is stronger than the best one,
/// and none but it is stronger than the second best one.
pub proof fn law_two_strongest<T: Real>(
    one: T,
    pitch_buffer: Seq<T>,
    auto_correlation: Seq<T>,
    n: int,
) -> (places: (int, int))
    requires
        is_ordered::<T>(),
        sums_keep_order::<T>(),
        products_keep_order::<T>(),
        is_exact::<T>(),
        is_one(one),
        0 <= n,
        forall|i: int|
            0 <= i < n ==> less(zero_of(), #[trigger] sliding_denominator(one, pitch_buffer, i)),
    ensures
        ({
            let (b, s) = places;
            let (best, second_best) = two_strongest(one, pitch_buffer, auto_correlation, n);
            let quotient = |i: int| quotient_at(one, pitch_buffer, auto_correlation, i);
            &&& -1 <= b < n && -1 <= s < n
            &&& b == -1 ==> s == -1 && (forall|i: int|
                0 <= i < n ==> !less(zero_of(), #[trigger] auto_correlation[i]))
                && best.period_inverted_lag == 0 && second_best.period_inverted_lag == 1
            &&& b == -1 ==> best == PitchCandidate::weakest(one, 0) && second_best
                == PitchCandidate::weakest(one, 1)
            &&& b >= 0 ==> {
                &&& less(zero_of(), auto_correlation[b])
                &&& best == PitchCandidate::of(
                    b,
                    auto_correlation[b],
                    sliding_denominator(one, pitch_buffer, b),
                )
                &&& best.period_inverted_lag == b as i32
                &&& forall|i: int|
                    0 <= i < n && less(zero_of(), #[trigger] auto_correlation[i]) ==> at_most(
                        quotient(i),
                        quotient(b),
                    )
            }
            &&& b >= 0 && s == -1 ==> second_best == PitchCandidate::weakest(one, 0) && forall|
                i: int,
            |
                0 <= i < n && less(zero_of(), #[trigger] auto_correlation[i]) ==> i == b
            &&& s >= 0 ==> {
                &&& b >= 0
                &&& s != b
                &&& less(zero_of(), auto_correlation[s])
                &&& second_best == PitchCandidate::of(
                    s,
                    auto_correlation[s],
                    sliding_denominator(one, pitch_buffer, s),
                )
                &&& second_best.period_inverted_lag == s as i32
                &&& forall|i: int|
                    0 <= i < n && i != b && less(zero_of(), #[trigger] auto_correlation[i])
                        ==> at_most(quotient(i), quotient(s))
            }
        }),
    decreases n,
{
    if n == 0 {
        (-1, -1)
    } else {
        let (b, s) = law_two_strongest(one, pitch_buffer, auto_correlation, n - 1);
        let (best, second_best) = two_strongest(one, pitch_buffer, auto_correlation, n - 1);
        let quotient = |i: int| quotient_at(one, pitch_buffer, auto_correlation, i);
        let candidate = PitchCandidate::of(
            n - 1,
            auto_correlation[n - 1],
            sliding_denominator(one, pitch_buffer, n - 1),
        );
        let q = quotient(n - 1);
        assert(less(zero_of(), sliding_denominator(one, pitch_buffer, n - 1)));
        law_weakest(one, 0, candidate);
        law_weakest(one, 1, candidate);
        assert(is_number(q));
        lemma_order(q, q, q);
        if b >= 0 {
            assert(less(zero_of(), sliding_denominator(one, pitch_buffer, b)));
            law_stronger_is_larger_quotient(one, candidate, best);
            assert(is_number(quotient(b)));
            lemma_order(quotient(b), q, q);
            lemma_order(q, quotient(b), q);
            assert forall|i: int|
                0 <= i < n - 1 && less(zero_of(), #[trigger] auto_correlation[i]) && at_most(
                    quotient(b),
                    q,
                ) implies at_most(quotient(i), q) by {
                lemma_order(quotient(i), quotient(b), q);
            }
        }
        if s >= 0 {
            assert(less(zero_of(), sliding_denominator(one, pitch_buffer, s)));
            law_stronger_is_larger_quotient(one, candidate, second_best);
            assert(is_number(quotient(s)));
            lemma_order(quotient(s), q, q);
            lemma_order(q, quotient(s), q);
            assert forall|i: int|
                0 <= i < n - 1 && i != b && less(zero_of(), #[trigger] auto_correlation[i])
                    && at_most(quotient(s), q) implies at_most(quotient(i), q) by {
                lemma_order(quotient(i), quotient(s), q);
            }
            lemma_order(q, quotient(s), quotient(b));
        }
        if !less(zero_of(), auto_correlation[n - 1]) || !candidate.is_stronger(second_best) {
            (b, s)
        } else if candidate.is_stronger(best) {
            (n - 1, b)
        } else {
            (b, n - 1)
        }
    }
}

/// The squared correlation at an inverted lag over its denominator.
pub open spec fn quotient_at<T: Real>(
    one: T,
    pitch_buffer: Seq<T>,
    auto_correlation: Seq<T>,
    i: int,
) -> T {
    over(
        times(auto_correlation[i], auto_correlation[i]),
        sliding_denominator(one, pitch_buffer, i),
    )
}

/// The energy of a frame changes by the squares of the sample that enters and the one
/// that leaves as the frame slides.
proof fn lemma_energy_slides<T: Real>(s: Seq<T>, k: int, n: int)
    requires
        is_exact::<T>(),
        0 < n,
        0 <= k,
        k + 1 + n <= s.len(),
    ensures
        energy(s.subrange(k + 1, k + 1 + n)) == plus(
            minus(energy(s.subrange(k, k + n)), times(s[k], s[k])),
            times(s[k + n], s[k + n]),
        ),
{
    let middle = s.subrange(k + 1, k + n);
    assert(s.subrange(k, k + n) =~= seq![s[k]] + middle);
    assert(s.subrange(k + 1, k + 1 + n) =~= middle.push(s[k + n]));
    lemma_energy_of_more(middle, s[k]);
    lemma_energy_of_more(middle, s[k + n]);
    let left = times(s[k], s[k]);
    lemma_exact(left, energy(middle), negative(left));
    lemma_exact(energy(middle), left, negative(left));
    lemma_exact(left, negative(left), zero_of());
    lemma_exact(energy(middle), zero_of(), zero_of());
    lemma_exact(plus(energy(middle), left), left, zero_of());
}

/// The energies of the sliding frames are those of the frames themselves, as long as these
/// are at least one, which they never fall below.
pub proof fn law_sliding_energy<T: Real>(one: T, pitch_buffer: Seq<T>, inverted_lag: int)
    requires
        is_ordered::<T>(),
        is_exact::<T>(),
        pitch_buffer.len() == BUF_SIZE_24_KHZ,
        0 <= inverted_lag <= MAX_PITCH_24_KHZ,
    ensures
        (forall|k: int|
            1 <= k <= inverted_lag ==> at_most(
                one,
                energy(#[trigger] pitch_buffer.subrange(k, k + 480)),
            )) ==> sliding_energy(one, pitch_buffer, inverted_lag) == energy(
            pitch_buffer.subrange(inverted_lag, inverted_lag + 480),
        ),
        inverted_lag > 0 ==> at_most(one, sliding_energy(one, pitch_buffer, inverted_lag)),
    decreases inverted_lag,
{
    if inverted_lag > 0 {
        law_sliding_energy(one, pitch_buffer, inverted_lag - 1);
        lemma_energy_slides(pitch_buffer, inverted_lag - 1, FRAME_SIZE_20_MS_24_KHZ as int);
        let now = energy(pitch_buffer.subrange(inverted_lag, inverted_lag + 480));
        let leaves = pitch_buffer[inverted_lag - 1];
        let enters = pitch_buffer[inverted_lag - 1 + 480];
        let slid = plus(
            minus(sliding_energy(one, pitch_buffer, inverted_lag - 1), times(leaves, leaves)),
            times(enters, enters),
        );
        assert(is_number(one) && is_number(slid) && is_number(now));
        law_larger(slid, one);
        lemma_order(slid, one, one);
        if forall|k: int|
            1 <= k <= inverted_lag ==> at_most(
                one,
                energy(#[trigger] pitch_buffer.subrange(k, k + 480)),
            ) {
            assert(at_most(
                one,
                energy(pitch_buffer.subrange(inverted_lag, inverted_lag + 480)),
            ));
            lemma_order(one, now, one);
            lemma_order(now, one, one);
        }
    }
}

/// The denominator of a sliding frame at 12 kHz is one more than its energy, and by the
/// square of the first sample after the first frame more than that.
pub proof fn law_sliding_denominator<T: Real>(one: T, pitch_buffer: Seq<T>, inverted_lag: int)
    requires
        is_ordered::<T>(),
        sums_keep_order::<T>(),
        products_keep_order::<T>(),
        is_exact::<T>(),
        is_one(one),
        pitch_buffer.len() == BUF_SIZE_12_KHZ,
        0 <= inverted_lag <= 192,
    ensures
        sliding_denominator(one, pitch_buffer, inverted_lag) == plus(
            plus(one, energy(pitch_buffer.subrange(inverted_lag, inverted_lag + 240))),
            times(pitch_buffer[240], pitch_buffer[240]),
        ),
        less(zero_of(), sliding_denominator(one, pitch_buffer, inverted_lag)),
    decreases inverted_lag,
{
    let zero = zero_of::<T>();
    let extra = times(pitch_buffer[240], pitch_buffer[240]);
    let now = energy(pitch_buffer.subrange(inverted_lag, inverted_lag + 240));
    let whole = plus(plus(one, now), extra);
    lemma_energy_not_negative(pitch_buffer.subrange(inverted_lag, inverted_lag + 240), 240);
    lemma_square(pitch_buffer[240]);
    // One and two numbers that are not negative are positive.
    lemma_order(zero, one, zero);
    lemma_sums(zero, now, one, one);
    lemma_exact(one, zero, zero);
    lemma_order(zero, one, plus(one, now));
    lemma_sums(zero, extra, plus(one, now), one);
    lemma_exact(plus(one, now), zero, zero);
    lemma_order(zero, plus(one, now), whole);
    if inverted_lag == 0 {
        let first = pitch_buffer.subrange(0, 240);
        assert(pitch_buffer.subrange(0, FRAME_SIZE_20_MS_12_KHZ + 1) =~= first.push(
            pitch_buffer[240],
        ));
        lemma_energy_of_more(first, pitch_buffer[240]);
        lemma_exact(one, now, extra);
    } else {
        law_sliding_denominator(one, pitch_buffer, inverted_lag - 1);
        lemma_energy_slides(pitch_buffer, inverted_lag - 1, FRAME_SIZE_20_MS_12_KHZ as int);
        let leaves = pitch_buffer[inverted_lag - 1];
        let enters = pitch_buffer[inverted_lag - 1 + 240];
        let before = energy(pitch_buffer.subrange(inverted_lag - 1, inverted_lag - 1 + 240));
        let out = negative(times(leaves, leaves));
        let add = times(enters, enters);
        let slid = plus(minus(plus(plus(one, before), extra), times(leaves, leaves)), add);
        assert(slid == whole) by {
            lemma_exact(plus(plus(one, before), extra), times(leaves, leaves), zero);
            lemma_exact(before, times(leaves, leaves), zero);
            // ((1 + e) + x) + o == ((1 + e) + o) + x
            lemma_exact(plus(one, before), extra, out);
            lemma_exact(extra, out, zero);
            lemma_exact(plus(one, before), out, extra);
            // (1 + e) + o == 1 + (e + o)
            lemma_exact(one, before, out);
            // (y + x) + a == (y + a) + x
            let y = plus(one, plus(before, out));
            lemma_exact(y, extra, add);
            lemma_exact(extra, add, zero);
            lemma_exact(y, add, extra);
            lemma_exact(one, plus(before, out), add);
        }
        assert(is_number(slid) && is_number(zero));
        lemma_order(slid, zero, zero);
        lemma_order(zero, slid, zero);
    }
}

proof fn lemma_energy_not_negative<T: Real>(s: Seq<T>, n: int)
    requires
        is_ordered::<T>(),
        sums_keep_order::<T>(),
        products_keep_order::<T>(),
        is_exact::<T>(),
        s.len() == n,
    ensures
        at_most(zero_of(), energy(s)),
{
    assert forall|i: int| 0 <= i < s.len() implies at_most(zero_of(), #[trigger] times(s[i], s[i])) by {
        lemma_square(s[i]);
    }
    assert(is_number(dot(s, s, n)));
    law_energy_counts_every_sample(s, n, 0);
}

impl<T: Real> ExtendedSearch<T> {
    /// The strength is the correlation over the root of one plus the product of the
    /// energies: its square times that is the square of the correlation.
    pub proof fn law_strength(self, xy: T, yy: T)
        requires
            is_ordered::<T>(),
            is_exact::<T>(),
            less(
                zero_of(),
                (self.root)(plus(self.p.one, times(self.y_energy[384], yy))),
            ),
            ({
                let x = plus(self.p.one, times(self.y_energy[384], yy));
                times((self.root)(x), (self.root)(x)) == x
            }),
        ensures
            times(
                times(self.strength(xy, yy), self.strength(xy, yy)),
                plus(self.p.one, times(self.y_energy[384], yy)),
            ) == times(xy, xy),
            times(
                self.strength(xy, yy),
                (self.root)(plus(self.p.one, times(self.y_energy[384], yy))),
            ) == xy,
    {
        let x = plus(self.p.one, times(self.y_energy[384], yy));
        let r = (self.root)(x);
        let s = self.strength(xy, yy);
        lemma_exact(xy, r, zero_of());
        lemma_exact(s, r, xy);
        lemma_exact(times(s, s), r, r);
        lemma_exact(s, s, r);
        lemma_exact(s, xy, r);
        lemma_exact(xy, s, r);
        lemma_exact(s, xy, zero_of());
    }

    /// The periods of all divisors that are tried are in range, and that of the next
    /// divisor is too short.
    pub proof fn law_divisors(self, divisor: int)
        requires
            60 <= self.initial_period_48khz,
            2 <= divisor,
        ensures
            30 <= self.initial_period() < 384,
            2 * self.initial_period() <= self.initial_period_48khz,
            self.initial_period() == 383 || self.initial_period_48khz - 2 * self.initial_period()
                <= 1,
            divisor <= self.max_divisor() <==> alternative_period(
                self.initial_period(),
                1,
                divisor,
            ) >= 30,
    {
        let p = self.initial_period();
        let q = alternative_period(p, 1, divisor);
        assert(q == (2 * p + divisor) / (2 * divisor));
        vstd::arithmetic::div_mod::lemma_fundamental_div_mod(2 * p + divisor, 2 * divisor);
        vstd::arithmetic::div_mod::lemma_mod_bound(2 * p + divisor, 2 * divisor);
        let r = (2 * p + divisor) % (2 * divisor);
        assert((2 * divisor) * q == 2 * (divisor * q)) by (nonlinear_arith);
        if q >= 30 {
            assert(divisor * q >= 30 * divisor) by (nonlinear_arith)
                requires
                    q >= 30,
                    divisor >= 2,
            ;
        } else {
            assert(divisor * q <= 29 * divisor) by (nonlinear_arith)
                requires
                    q <= 29,
                    divisor >= 2,
            ;
        }
    }

    /// The best candidate is the one with the largest divisor, up to the given one, that is
    /// stronger than its threshold, or the initial one if none is.
    pub proof fn law_best(self, divisor: int) -> (chosen: int)
        requires
            1 <= divisor,
        ensures
            1 <= chosen <= divisor,
            chosen == 1 ==> self.best(divisor) == self.initial(),
            chosen > 1 ==> self.best(divisor) == self.alternative(chosen) && less(
                self.threshold_at(chosen),
                self.alternative(chosen).strength,
            ),
            forall|d: int|
                chosen < d <= divisor ==> !less(
                    #[trigger] self.threshold_at(d),
                    self.alternative(d).strength,
                ),
        decreases divisor,
    {
        if divisor == 1 {
            1
        } else if less(self.threshold_at(divisor), self.alternative(divisor).strength) {
            divisor
        } else {
            self.law_best(divisor - 1)
        }
    }

    /// What the alternative for a divisor has to exceed.
    pub open spec fn threshold_at(self, divisor: int) -> T {
        alternative_threshold(
            self.p,
            PitchInfo {
                period: half_period(self.last_48khz.period),
                strength: self.last_48khz.strength,
            },
            PitchInfo { period: self.initial().period, strength: self.initial().strength },
            self.alternative(divisor).period as int,
            divisor,
        )
    }

    /// The correlation and the energy of an alternative are the means of those of its
    /// period and of the complementary one.
    pub proof fn law_alternative(self, divisor: int)
        requires
            is_exact::<T>(),
            is_one(self.p.one),
            plus(self.p.half, self.p.half) == self.p.one,
        ensures
            ({
                let period = alternative_period(self.initial_period(), 1, divisor);
                let dual = dual_period(self.initial_period(), divisor);
                let a = self.alternative(divisor);
                &&& a.period == period as i32
                &&& plus(a.xy, a.xy) == plus(
                    auto_correlation(self.pitch_buffer, 384 - period),
                    auto_correlation(self.pitch_buffer, 384 - dual),
                )
                &&& plus(a.y_energy, a.y_energy) == plus(
                    self.y_energy[384 - period],
                    self.y_energy[384 - dual],
                )
                &&& a.strength == self.strength(a.xy, a.y_energy)
            }),
    {
        let period = alternative_period(self.initial_period(), 1, divisor);
        let dual = dual_period(self.initial_period(), divisor);
        let x = plus(self.correlation_at(period), self.correlation_at(dual));
        let y = plus(self.energy_at(period), self.energy_at(dual));
        lemma_exact(self.p.half, self.p.half, x);
        lemma_exact(self.p.half, self.p.half, y);
        assert(is_number(x) && is_number(y));
        assert(times(x, self.p.one) == x);
        assert(times(y, self.p.one) == y);
        lemma_exact(x, self.p.one, zero_of());
        lemma_exact(y, self.p.one, zero_of());
    }

    /// The pitch is not shorter than the shortest, its strength is at most one and at most
    /// that of the best candidate, and otherwise the share of the positive correlation in
    /// one more than the energy.
    pub proof fn law_result(self)
        requires
            is_ordered::<T>(),
            sums_keep_order::<T>(),
            products_keep_order::<T>(),
            is_exact::<T>(),
            is_one(self.p.one),
            at_most(zero_of(), self.best(self.max_divisor()).y_energy),
        ensures
            ({
                let best = self.best(self.max_divisor());
                let (period, strength) = self.result();
                &&& period >= 60
                &&& period == 60 || period == interpolated_period(
                    self.p.interpolation_slope,
                    self.pitch_buffer,
                    best.period as int,
                )
                &&& at_most(strength, self.p.one)
                &&& at_most(strength, best.strength)
                &&& at_most(best.xy, zero_of()) && less(zero_of(), best.y_energy) ==> at_most(
                    strength,
                    zero_of(),
                )
                &&& less(zero_of(), best.xy) && less(best.xy, best.y_energy) ==> at_most(
                    times(strength, plus(best.y_energy, self.p.one)),
                    best.xy,
                )
                &&& strength == best.strength || strength == self.p.one || times(
                    strength,
                    plus(best.y_energy, self.p.one),
                ) == best.xy || strength == zero_of::<T>()
            }),
    {
        let zero = zero_of::<T>();
        let one = self.p.one;
        let best = self.best(self.max_divisor());
        let xy = larger(best.xy, zero);
        let e = best.y_energy;
        let whole = plus(e, one);
        let share = if at_most(e, xy) {
            one
        } else {
            over(xy, whole)
        };
        assert(is_number(best.xy) && is_number(share) && is_number(best.strength) && is_number(xy));
        assert(is_number(e) && is_number(zero) && is_number(one) && is_number(whole));
        law_larger(best.xy, zero);
        law_smaller(share, best.strength);
        lemma_order(zero, one, zero);
        lemma_sums(zero, e, one, one);
        lemma_exact(one, zero, zero);
        lemma_exact(zero, one, zero);
        lemma_order(zero, one, whole);
        lemma_exact(xy, whole, zero);
        lemma_order(e, xy, e);
        lemma_order(xy, e, xy);
        // A share of less than the whole is less than one.
        lemma_sums(zero, one, e, e);
        lemma_exact(e, zero, zero);
        lemma_order(xy, e, whole);
        lemma_scaled_order(one, over(xy, whole), one, whole);
        assert(times(whole, one) == whole);
        lemma_exact(whole, one, zero);
        lemma_order(one, one, one);
        lemma_order(smaller(share, best.strength), share, one);
        lemma_order(best.xy, zero, best.xy);
        lemma_order(zero, best.xy, e);
        lemma_order(e, zero, e);
        lemma_divides_out(one, zero, whole);
        lemma_order(zero, zero, zero);
        lemma_order(smaller(share, best.strength), share, zero);
        lemma_scaled_order(one, smaller(share, best.strength), share, whole);
        lemma_exact(zero, whole, zero);
        lemma_exact(whole, zero, zero);
        lemma_products(xy, whole, zero);
        lemma_order(xy, zero, e);
        lemma_order(e, xy, zero);
        lemma_order(smaller(share, best.strength), over(xy, whole), zero);
    }
}

/// The refined inverted lag is twice the strongest one, moved by the interpolation between
/// the correlations there and next to it.
pub proof fn law_refined_inverted_lag<T: Real>(
    p: PitchSearchParameters<T>,
    inverted_lags: Seq<usize>,
    table: Seq<T>,
    y_energy: Seq<T>,
)
    ensures
        ({
            let best = strongest(
                p.one,
                inverted_lags,
                table,
                y_energy,
                inverted_lags.len() as int,
            ).period_inverted_lag;
            let refined = refined_inverted_lag(p, inverted_lags, table, y_energy);
            &&& best <= 0 || best >= 293 ==> refined == 2 * best
            &&& 0 < best < 293 ==> refined - 2 * best == interpolation_offset(
                p.interpolation_slope,
                table[best + 1],
                table[best as int],
                table[best - 1],
            )
        }),
{
}

} // verus!
