//! What holds of the features.
use crate::audio_processing::agc2::rnn_vad::common::{
    CEPSTRAL_COEFFS_HISTORY_SIZE, FRAME_SIZE_20_MS_24_KHZ, NUM_BANDS, NUM_LOWER_BANDS,
};
use crate::audio_processing::agc2::rnn_vad::features_extraction::{
    assembled, lagged_start, pitch_feature,
};
use crate::audio_processing::agc2::rnn_vad::spectral_features::{
    cepstral_correlation, cepstrum_of, interleaved, least_distance, squared_distance, total,
    total_distance, vorbis_value, windowed, with_offsets, SpectralFeatureParameters,
    SpectralFeatures, SpectralFeaturesExtractor,
};
use crate::audio_processing::agc2::rnn_vad::spectral_features_internal::{
    band_correlation, bin_product, dct, dct_angle, dct_column, dct_entry, falling, first_bin,
    opus_bins, raw_log, rising, smoothed_band, smoothed_log_spectrum, LogSpectrumParameters,
    NUM_BINS, OPUS_BANDS_24_KHZ,
};
use crate::audio_processing::agc2::rnn_vad::symmetric_matrix_buffer::SymmetricMatrixBuffer;
use crate::audio_processing::arithmetic::{
    at_most, dot, larger, less, minus, negative, over, plus, times, zero_of, Real,
};
use crate::audio_processing::ordered::{
    is_exact, is_number, is_one, is_ordered, law_larger, law_smaller, lemma_exact,
    lemma_four_summands, lemma_order, lemma_products, lemma_same_dot, lemma_square, lemma_sums,
    products_keep_order, sums_keep_order,
};
use vstd::prelude::*;

verus! {

/// The product of two spectra in a bin does not depend on their order, and that of a
/// spectrum with itself is its power there, which is not negative.
pub proof fn law_bin_product<T: Real>(x: Seq<T>, y: Seq<T>, bin: int)
    requires
        is_ordered::<T>(),
        sums_keep_order::<T>(),
        products_keep_order::<T>(),
        is_exact::<T>(),
    ensures
        bin_product(x, y, bin) == bin_product(y, x, bin),
        bin_product(x, x, bin) == plus(
            times(x[2 * bin], x[2 * bin]),
            times(x[2 * bin + 1], x[2 * bin + 1]),
        ),
        at_most(zero_of(), bin_product(x, x, bin)),
{
    let zero = zero_of::<T>();
    let (re, im) = (times(x[2 * bin], x[2 * bin]), times(x[2 * bin + 1], x[2 * bin + 1]));
    lemma_exact(x[2 * bin], y[2 * bin], zero);
    lemma_exact(x[2 * bin + 1], y[2 * bin + 1], zero);
    lemma_square(x[2 * bin]);
    lemma_square(x[2 * bin + 1]);
    lemma_sums(zero, re, im, im);
    lemma_exact(im, zero, zero);
    lemma_order(zero, im, plus(re, im));
}

/// The sum of the products of two spectra in the first `n` bins of an interval.
pub open spec fn interval_product<T: Real>(x: Seq<T>, y: Seq<T>, interval: int, n: int) -> T
    decreases n,
{
    if n <= 0 {
        zero_of()
    } else {
        plus(
            interval_product(x, y, interval, n - 1),
            bin_product(x, y, first_bin(interval) + n - 1),
        )
    }
}

/// The bands at the two ends of an interval share its bins: what they get adds up to all
/// of it. The band at the end gets nothing where the weights are zero, and the one at the
/// start nothing where they are one.
pub proof fn law_bands_share_interval<T: Real>(
    one: T,
    weights: Seq<T>,
    x: Seq<T>,
    y: Seq<T>,
    interval: int,
    n: int,
)
    requires
        is_exact::<T>(),
        is_one(one),
        0 <= n,
    ensures
        plus(rising(weights, x, y, interval, n), falling(weights, x, y, interval, n)) == plus(
            interval_product(x, y, interval, n),
            falling(weights, x, y, interval, 0),
        ),
        (forall|bin: int|
            first_bin(interval) <= bin < first_bin(interval) + n ==> #[trigger] weights[bin]
                == zero_of::<T>()) ==> rising(weights, x, y, interval, n) == zero_of::<T>(),
        (forall|bin: int|
            first_bin(interval) <= bin < first_bin(interval) + n ==> #[trigger] weights[bin] == one)
            ==> falling(weights, x, y, interval, n) == falling(weights, x, y, interval, 0),
        0 < interval ==> falling(weights, x, y, interval, 0) == rising(
            weights,
            x,
            y,
            interval - 1,
            opus_bins()[interval - 1] as int,
        ),
        falling(weights, x, y, 0, 0) == zero_of::<T>(),
    decreases n,
{
    let zero = zero_of::<T>();
    if n > 0 {
        law_bands_share_interval(one, weights, x, y, interval, n - 1);
        let bin = first_bin(interval) + n - 1;
        let v = bin_product(x, y, bin);
        let up = times(weights[bin], v);
        let r = rising(weights, x, y, interval, n - 1);
        let f = falling(weights, x, y, interval, n - 1);
        let p = interval_product(x, y, interval, n - 1);
        let start = falling(weights, x, y, interval, 0);
        lemma_four_summands(r, up, f, minus(v, up));
        lemma_exact(up, v, zero);
        assert(plus(plus(r, up), plus(f, minus(v, up))) == plus(plus(p, start), v));
        lemma_exact(p, start, v);
        lemma_exact(start, v, zero);
        lemma_exact(p, v, start);
        lemma_exact(v, zero, zero);
        lemma_exact(zero, zero, zero);
        assert(is_number(v));
        assert(times(v, one) == v);
        lemma_exact(v, one, zero);
        lemma_exact(v, v, zero);
        lemma_exact(f, zero, zero);
        if forall|bin: int|
            first_bin(interval) <= bin < first_bin(interval) + n ==> #[trigger] weights[bin]
                == zero_of::<T>() {
            assert(weights[bin] == zero);
        }
        if forall|bin: int|
            first_bin(interval) <= bin < first_bin(interval) + n ==> #[trigger] weights[bin] == one {
            assert(weights[bin] == one);
        }
    } else {
        let start = falling(weights, x, y, interval, 0);
        assert(rising(weights, x, y, interval, n) == zero);
        assert(interval_product(x, y, interval, n) == zero);
    }
}

/// Each band takes what falls in the interval after it and what rises in the one before
/// it; the first one, which has only the former, takes it twice. The order of the spectra
/// does not matter.
pub proof fn law_band_correlation<T: Real>(
    two: T,
    weights: Seq<T>,
    x: Seq<T>,
    y: Seq<T>,
    band: int,
)
    requires
        is_ordered::<T>(),
        sums_keep_order::<T>(),
        products_keep_order::<T>(),
        is_exact::<T>(),
        0 <= band < OPUS_BANDS_24_KHZ,
    ensures
        band == 0 ==> band_correlation(two, weights, x, y, band) == times(
            falling(weights, x, y, 0, 4),
            two,
        ),
        0 < band < 19 ==> band_correlation(two, weights, x, y, band) == falling(
            weights,
            x,
            y,
            band,
            opus_bins()[band] as int,
        ),
        band == 19 ==> band_correlation(two, weights, x, y, band) == rising(
            weights,
            x,
            y,
            18,
            48,
        ),
        band_correlation(two, weights, x, y, band) == band_correlation(two, weights, y, x, band),
{
    let last = opus_bins().len() - 1;
    if band < 19 {
        lemma_spectra_commute(weights, x, y, band, opus_bins()[band] as int);
    }
    lemma_spectra_commute(weights, x, y, 18, 48);
}

proof fn lemma_spectra_commute<T: Real>(
    weights: Seq<T>,
    x: Seq<T>,
    y: Seq<T>,
    interval: int,
    n: int,
)
    requires
        is_ordered::<T>(),
        sums_keep_order::<T>(),
        products_keep_order::<T>(),
        is_exact::<T>(),
    ensures
        rising(weights, x, y, interval, n) == rising(weights, y, x, interval, n),
        falling(weights, x, y, interval, n) == falling(weights, y, x, interval, n),
    decreases (if interval > 0 {
        interval
    } else {
        0
    }), (if n > 0 {
        n
    } else {
        0
    }),
{
    if n > 0 {
        lemma_spectra_commute(weights, x, y, interval, n - 1);
        law_bin_product(x, y, first_bin(interval) + n - 1);
    } else if interval > 0 {
        lemma_spectra_commute(
            weights,
            x,
            y,
            interval - 1,
            opus_bins()[interval - 1] as int,
        );
    } else if interval < 0 {
        lemma_rising_commutes(weights, x, y, interval - 1, opus_bins()[interval - 1] as int);
    }
}

proof fn lemma_rising_commutes<T: Real>(
    weights: Seq<T>,
    x: Seq<T>,
    y: Seq<T>,
    interval: int,
    n: int,
)
    requires
        is_ordered::<T>(),
        sums_keep_order::<T>(),
        products_keep_order::<T>(),
        is_exact::<T>(),
    ensures
        rising(weights, x, y, interval, n) == rising(weights, y, x, interval, n),
    decreases n,
{
    if n > 0 {
        lemma_rising_commutes(weights, x, y, interval, n - 1);
        law_bin_product(x, y, first_bin(interval) + n - 1);
    }
}

/// A smoothed band is no less than the logarithm of its energy, and no further below the
/// largest band before it and the decaying one than it may drop; it is one of the three.
pub proof fn law_smoothed_band<T: Real>(
    p: LogSpectrumParameters<T>,
    log10: spec_fn(T) -> T,
    bands_energy: Seq<T>,
    n: int,
)
    requires
        is_ordered::<T>(),
        is_exact::<T>(),
        1 <= n <= NUM_BANDS,
    ensures
        ({
            let before = smoothed_band(p, log10, bands_energy, n - 1);
            let now = smoothed_band(p, log10, bands_energy, n);
            let raw = if n - 1 < bands_energy.len() {
                log10(plus(p.floor, bands_energy[n - 1]))
            } else {
                p.log_floor
            };
            &&& smoothed_log_spectrum(p, log10, bands_energy)[n - 1] == now.value
            &&& at_most(raw, now.value)
            &&& at_most(minus(before.log_max, p.max_drop), now.value)
            &&& at_most(minus(before.follow, p.max_decay), now.value)
            &&& now.value == raw || now.value == minus(before.log_max, p.max_drop) || now.value
                == minus(before.follow, p.max_decay)
            &&& at_most(now.value, now.log_max)
            &&& at_most(before.log_max, now.log_max)
            &&& now.log_max == before.log_max || now.log_max == now.value
            &&& at_most(now.value, now.follow)
            &&& at_most(minus(before.follow, p.max_decay), now.follow)
            &&& now.follow == now.value || now.follow == minus(before.follow, p.max_decay)
            &&& n == 1 ==> before.log_max == p.log_floor && before.follow == p.log_floor
        }),
{
    let before = smoothed_band(p, log10, bands_energy, n - 1);
    let now = smoothed_band(p, log10, bands_energy, n);
    let raw = raw_log(p, log10, bands_energy, n - 1);
    let drop = minus(before.log_max, p.max_drop);
    let decay = minus(before.follow, p.max_decay);
    assert(is_number(raw) && is_number(drop) && is_number(decay));
    assert(is_number(now.value) && is_number(before.log_max));
    law_larger(decay, raw);
    law_larger(drop, larger(decay, raw));
    lemma_order(raw, larger(decay, raw), now.value);
    lemma_order(decay, larger(decay, raw), now.value);
    law_larger(before.log_max, now.value);
    law_larger(decay, now.value);
}

/// The angle of an entry of the transform table is what the number of the band and a half
/// times that of the coefficient has of as many half turns as there are bands, and only
/// the entries of the first column are scaled.
pub proof fn law_dct_table<W: Real, T: Real>(
    half: W,
    pi: W,
    number: spec_fn(usize) -> W,
    cosine: spec_fn(W) -> W,
    narrow: spec_fn(W) -> T,
    first_scale: T,
    i: usize,
    j: usize,
)
    requires
        is_exact::<W>(),
        less(zero_of(), number(22)),
    ensures
        times(dct_angle(half, pi, number, i, j), number(22)) == times(
            times(plus(number(i), half), number(j)),
            pi,
        ),
        j != 0 ==> dct_entry(half, pi, number, cosine, narrow, first_scale, i, j) == narrow(
            cosine(dct_angle(half, pi, number, i, j)),
        ),
        j == 0 ==> dct_entry(half, pi, number, cosine, narrow, first_scale, i, j) == times(
            narrow(cosine(dct_angle(half, pi, number, i, j))),
            first_scale,
        ),
{
    lemma_exact(times(times(plus(number(i), half), number(j)), pi), number(22), zero_of());
}

/// A coefficient of the transform is the scaled sum of the inputs, each by its entry of
/// the table.
pub proof fn law_dct<T: Real>(
    input: Seq<T>,
    dct_table: Seq<T>,
    scale: T,
    size: int,
    i: int,
    column: Seq<T>,
)
    requires
        0 <= i < size,
        input.len() <= NUM_BANDS,
        forall|j: int| 0 <= j < input.len() ==> #[trigger] column[j] == dct_table[j * 22 + i],
    ensures
        dct(input, dct_table, scale, size).len() == size,
        dct(input, dct_table, scale, size)[i] == times(
            dot(input, column, input.len() as int),
            scale,
        ),
{
    let own = dct_column(dct_table, i);
    assert forall|j: int| 0 <= j < input.len() implies #[trigger] own[j] == column[j] by {
        assert(column[j] == dct_table[j * 22 + i]);
    }
    lemma_same_dot(input, own, input, column, input.len() as int);
}

/// One more value adds to the sum.
pub proof fn law_total<T: Real>(values: Seq<T>, value: T)
    ensures
        total(Seq::<T>::empty(), 0) == zero_of::<T>(),
        total(values.push(value), values.len() as int + 1) == plus(
            total(values, values.len() as int),
            value,
        ),
{
    lemma_same_total(values.push(value), values, values.len() as int);
}

proof fn lemma_same_total<T: Real>(a: Seq<T>, b: Seq<T>, n: int)
    requires
        forall|i: int| 0 <= i < n ==> a[i] == #[trigger] b[i],
    ensures
        total(a, n) == total(b, n),
    decreases n,
{
    if n > 0 {
        lemma_same_total(a, b, n - 1);
        assert(a[n - 1] == b[n - 1]);
    }
}

/// The squared distance is the energy of the differences. It does not depend on the order
/// of the two, and of equal ones it is zero.
pub proof fn law_squared_distance<T: Real>(
    a: Seq<T>,
    b: Seq<T>,
    differences: Seq<T>,
    n: int,
)
    requires
        is_ordered::<T>(),
        sums_keep_order::<T>(),
        products_keep_order::<T>(),
        is_exact::<T>(),
        0 <= n,
        forall|i: int| 0 <= i < n ==> #[trigger] differences[i] == minus(a[i], b[i]),
    ensures
        squared_distance(a, b, n) == dot(differences, differences, n),
        squared_distance(a, b, n) == squared_distance(b, a, n),
        squared_distance(a, a, n) == zero_of::<T>(),
        at_most(zero_of(), squared_distance(a, b, n)),
    decreases n,
{
    let zero = zero_of::<T>();
    assert(is_number(zero));
    if n > 0 {
        law_squared_distance(a, b, differences, n - 1);
        let (x, y) = (a[n - 1], b[n - 1]);
        assert(differences[n - 1] == minus(x, y));
        let d = minus(x, y);
        let e = minus(y, x);
        lemma_exact(x, y, zero);
        lemma_exact(x, negative(y), zero);
        lemma_exact(negative(x), y, zero);
        lemma_exact(y, x, zero);
        assert(e == negative(d));
        lemma_products(d, d, zero);
        lemma_products(d, negative(d), zero);
        lemma_exact(d, negative(d), zero);
        lemma_exact(times(d, d), zero, zero);
        assert(times(e, e) == times(d, d));
        lemma_exact(x, x, zero);
        lemma_exact(zero, zero, zero);
        lemma_square(d);
        let before = squared_distance(a, b, n - 1);
        lemma_sums(zero, times(d, d), before, before);
        lemma_exact(before, zero, zero);
        lemma_order(zero, before, squared_distance(a, b, n));
    }
}

/// Offsets are taken off the first two values only.
pub proof fn law_with_offsets<T: Real>(values: Seq<T>, offsets: (T, T), i: int)
    requires
        is_exact::<T>(),
        2 <= values.len(),
        2 <= i < values.len(),
    ensures
        with_offsets(values, offsets).len() == values.len(),
        plus(with_offsets(values, offsets)[0], offsets.0) == values[0],
        plus(with_offsets(values, offsets)[1], offsets.1) == values[1],
        with_offsets(values, offsets)[i] == values[i],
{
    lemma_exact(values[0], offsets.0, zero_of());
    lemma_exact(values[1], offsets.1, zero_of());
}

/// The cepstrum is the transform of the smoothed logarithmic spectrum, less its offsets.
pub proof fn law_cepstrum<T: Real>(
    p: SpectralFeatureParameters<T>,
    log10: spec_fn(T) -> T,
    bands_energy: Seq<T>,
    i: int,
)
    requires
        is_exact::<T>(),
        2 <= i < NUM_BANDS,
    ensures
        ({
            let cepstrum = cepstrum_of(p, log10, bands_energy);
            let transform = dct(
                smoothed_log_spectrum(p.log_spectrum, log10, bands_energy),
                p.dct_table@,
                p.dct_scale,
                22,
            );
            &&& cepstrum.len() == 22
            &&& plus(cepstrum[0], p.cepstrum_offsets.0) == transform[0]
            &&& plus(cepstrum[1], p.cepstrum_offsets.1) == transform[1]
            &&& cepstrum[i] == transform[i]
        }),
{
    let transform = dct(
        smoothed_log_spectrum(p.log_spectrum, log10, bands_energy),
        p.dct_table@,
        p.dct_scale,
        NUM_BANDS as int,
    );
    law_with_offsets(transform, p.cepstrum_offsets, i);
}

/// The cepstral correlation is the transform of the correlations of the bands, each of
/// which is what times the root of the floor and the product of the energies is the
/// correlation in that band.
pub proof fn law_cepstral_correlation<T: Real>(
    p: SpectralFeatureParameters<T>,
    root: spec_fn(T) -> T,
    cross_corr: Seq<T>,
    reference_energy: Seq<T>,
    lagged_energy: Seq<T>,
    normalised: Seq<T>,
    i: int,
)
    requires
        is_ordered::<T>(),
        is_exact::<T>(),
        normalised.len() == OPUS_BANDS_24_KHZ,
        forall|k: int|
            0 <= k < OPUS_BANDS_24_KHZ ==> {
                let scale = root(plus(p.energy_floor, times(reference_energy[k], lagged_energy[k])));
                less(zero_of(), scale) && #[trigger] normalised[k] == over(cross_corr[k], scale)
            },
        2 <= i < NUM_LOWER_BANDS,
    ensures
        ({
            let features = cepstral_correlation(
                p,
                root,
                cross_corr,
                reference_energy,
                lagged_energy,
            );
            let transform = dct(normalised, p.dct_table@, p.dct_scale, 6);
            &&& features.len() == 6
            &&& plus(features[0], p.correlation_offsets.0) == transform[0]
            &&& plus(features[1], p.correlation_offsets.1) == transform[1]
            &&& features[i] == transform[i]
            &&& forall|k: int|
                0 <= k < OPUS_BANDS_24_KHZ ==> times(
                    #[trigger] normalised[k],
                    root(plus(p.energy_floor, times(reference_energy[k], lagged_energy[k]))),
                ) == cross_corr[k]
        }),
{
    let own = Seq::new(
        OPUS_BANDS_24_KHZ as nat,
        |i: int|
            over(
                cross_corr[i],
                root(plus(p.energy_floor, times(reference_energy[i], lagged_energy[i]))),
            ),
    );
    assert(own =~= normalised);
    law_with_offsets(
        dct(own, p.dct_table@, p.dct_scale, NUM_LOWER_BANDS as int),
        p.correlation_offsets,
        i,
    );
    assert forall|k: int| 0 <= k < OPUS_BANDS_24_KHZ implies times(
        #[trigger] normalised[k],
        root(plus(p.energy_floor, times(reference_energy[k], lagged_energy[k]))),
    ) == cross_corr[k] by {
        lemma_exact(
            cross_corr[k],
            root(plus(p.energy_floor, times(reference_energy[k], lagged_energy[k]))),
            zero_of(),
        );
    }
}

/// The least distance of an item is at most its distance to any other one and the largest
/// distance, and one of these; the item itself does not count.
pub proof fn law_least_distance<T: Real>(
    max_distance: T,
    distances: SymmetricMatrixBuffer<T, CEPSTRAL_COEFFS_HISTORY_SIZE>,
    delay1: int,
    n: int,
)
    requires
        is_ordered::<T>(),
        is_exact::<T>(),
        0 <= n,
    ensures
        at_most(least_distance(max_distance, distances, delay1, n), max_distance),
        forall|delay2: int|
            0 <= delay2 < n && delay2 != delay1 ==> at_most(
                least_distance(max_distance, distances, delay1, n),
                #[trigger] distances.value(delay1, delay2),
            ),
        least_distance(max_distance, distances, delay1, n) == max_distance || exists|delay2: int|
            0 <= delay2 < n && delay2 != delay1 && least_distance(max_distance, distances, delay1, n)
                == #[trigger] distances.value(delay1, delay2),
    decreases n,
{
    assert(is_number(max_distance));
    if n > 0 {
        law_least_distance(max_distance, distances, delay1, n - 1);
        let before = least_distance(max_distance, distances, delay1, n - 1);
        let now = least_distance(max_distance, distances, delay1, n);
        let last = distances.value(delay1, n - 1);
        if n - 1 != delay1 {
            assert(is_number(before) && is_number(last));
            law_smaller(before, last);
            lemma_order(now, before, max_distance);
            assert forall|delay2: int|
                0 <= delay2 < n && delay2 != delay1 implies at_most(
                now,
                #[trigger] distances.value(delay1, delay2),
            ) by {
                if delay2 < n - 1 {
                    lemma_order(now, before, distances.value(delay1, delay2));
                }
            }
            if now == before && before != max_distance {
                let delay2 = choose|delay2: int|
                    0 <= delay2 < n - 1 && delay2 != delay1 && before == #[trigger] distances.value(
                        delay1,
                        delay2,
                    );
                assert(now == distances.value(delay1, delay2));
            }
        } else if before != max_distance {
            let delay2 = choose|delay2: int|
                0 <= delay2 < n - 1 && delay2 != delay1 && before == #[trigger] distances.value(
                    delay1,
                    delay2,
                );
            assert(now == distances.value(delay1, delay2));
        }
    }
}

impl<T: Real> SpectralFeaturesExtractor<T> {
    /// Of the lower bands the features have the sum of the last three cepstra, how far the
    /// newest is from the oldest of them, and by how much the last step between them was
    /// larger than the one before; of the higher ones the newest cepstrum.
    pub proof fn law_derivatives(&self, features: SpectralFeatures<T>, i: int)
        requires
            is_exact::<T>(),
            forall|a: T| #[trigger] times(self.settings().two, a) == plus(a, a),
            self.has_derivatives(features),
            0 <= i < NUM_LOWER_BANDS,
        ensures
            ({
                let (now, last, oldest) = (
                    self.cepstra()[0]@,
                    self.cepstra()[1]@,
                    self.cepstra()[2]@,
                );
                &&& features.average@[i] == plus(plus(now[i], last[i]), oldest[i])
                &&& plus(oldest[i], features.first_derivative@[i]) == now[i]
                &&& features.second_derivative@[i] == minus(
                    minus(now[i], last[i]),
                    minus(last[i], oldest[i]),
                )
                &&& forall|k: int|
                    0 <= k < 16 ==> #[trigger] features.higher_bands_cepstrum@[k] == now[6 + k]
            }),
    {
        let zero = zero_of::<T>();
        let (a, b, c) = (self.cepstra()[0]@[i], self.cepstra()[1]@[i], self.cepstra()[2]@[i]);
        let two = self.settings().two;
        assert(features.average@[i] == plus(plus(a, b), c));
        assert(features.first_derivative@[i] == minus(a, c));
        assert(features.second_derivative@[i] == plus(minus(a, times(two, b)), c));
        lemma_exact(c, a, zero);
        lemma_exact(a, b, b);
        lemma_exact(a, b, minus(b, c));
        assert(times(two, b) == plus(b, b));
        // (a - b) - (b - c) == ((a - b) - b) + c
        let d = minus(a, b);
        lemma_exact(b, negative(c), zero);
        lemma_exact(c, zero, zero);
        lemma_exact(b, c, zero);
        lemma_exact(d, minus(b, c), zero);
        lemma_exact(d, negative(b), c);
        lemma_exact(d, b, zero);
        assert forall|k: int| 0 <= k < 16 implies #[trigger] features.higher_bands_cepstrum@[k]
            == self.cepstra()[0]@[6 + k] by {
            assert(features.higher_bands_cepstrum@ == self.cepstra()[0]@.subrange(6, 22));
        }
    }

    /// A spectrum is silent just if its bands have less energy in all than the threshold.
    pub proof fn law_silence(&self, reference_frame_fft: Seq<T>, bands: Seq<T>)
        requires
            bands.len() == OPUS_BANDS_24_KHZ,
            forall|band: int|
                0 <= band < OPUS_BANDS_24_KHZ ==> #[trigger] bands[band] == band_correlation(
                    self.correlator().two,
                    self.correlator().weights@,
                    reference_frame_fft,
                    reference_frame_fft,
                    band,
                ),
        ensures
            self.is_silent(reference_frame_fft) == less(
                total(bands, 20),
                self.settings().silence_threshold,
            ),
    {
        assert(self.bands_of(reference_frame_fft, reference_frame_fft) =~= bands);
    }

    /// As many times the variability and its offset as there are items is the sum of the
    /// least distances of all of them.
    pub proof fn law_variability(&self, least: Seq<T>)
        requires
            is_exact::<T>(),
            less(zero_of(), self.settings().history_size),
            least.len() == CEPSTRAL_COEFFS_HISTORY_SIZE,
            forall|i: int|
                0 <= i < CEPSTRAL_COEFFS_HISTORY_SIZE ==> #[trigger] least[i] == least_distance(
                    self.settings().max_distance,
                    self.distances(),
                    i,
                    8,
                ),
        ensures
            times(
                plus(self.variability(), self.settings().variability_offset),
                self.settings().history_size,
            ) == total(least, 8),
    {
        let whole = total_distance(self.settings().max_distance, self.distances(), 8);
        lemma_total_distance(self.settings().max_distance, self.distances(), least, 8);
        lemma_exact(whole, self.settings().history_size, zero_of());
        lemma_exact(
            over(whole, self.settings().history_size),
            self.settings().variability_offset,
            zero_of(),
        );
    }
}

proof fn lemma_total_distance<T: Real>(
    max_distance: T,
    distances: SymmetricMatrixBuffer<T, CEPSTRAL_COEFFS_HISTORY_SIZE>,
    least: Seq<T>,
    n: int,
)
    requires
        0 <= n <= least.len(),
        forall|i: int|
            0 <= i < n ==> #[trigger] least[i] == least_distance(max_distance, distances, i, 8),
    ensures
        total_distance(max_distance, distances, n) == total(least, n),
    decreases n,
{
    if n > 0 {
        lemma_total_distance(max_distance, distances, least, n - 1);
        assert(least[n - 1] == least_distance(max_distance, distances, n - 1, 8));
    }
}

/// A value of the window is the sine of a quarter turn times the square of the sine of as
/// much of a quarter turn as its place is of the bins.
pub proof fn law_vorbis_value<W: Real>(
    half: W,
    pi: W,
    number: spec_fn(usize) -> W,
    sine: spec_fn(W) -> W,
    i: usize,
) -> (place: W)
    requires
        is_exact::<W>(),
        less(zero_of(), number(240)),
    ensures
        times(place, number(240)) == plus(number(i), half),
        ({
            let s = sine(times(times(half, pi), place));
            vorbis_value(half, pi, number, sine, i) == sine(times(times(half, pi), times(s, s)))
        }),
{
    let place = over(plus(number(i), half), number(240));
    let s = sine(times(times(half, pi), place));
    lemma_exact(plus(number(i), half), number(240), zero_of());
    lemma_exact(times(half, pi), s, s);
    place
}

/// The window is symmetric: a frame backwards is weighted as the frame is. Its first half
/// is the given one.
pub proof fn law_window_is_symmetric<T: Real>(half_window: Seq<T>, frame: Seq<T>, i: int)
    requires
        frame.len() == FRAME_SIZE_20_MS_24_KHZ,
        half_window.len() == NUM_BINS,
        0 <= i < FRAME_SIZE_20_MS_24_KHZ,
    ensures
        windowed(half_window, frame.reverse()) == windowed(half_window, frame).reverse(),
        i < 240 ==> windowed(half_window, frame)[i] == times(frame[i], half_window[i]),
        i >= 240 ==> windowed(half_window, frame)[i] == times(frame[i], half_window[479 - i]),
{
    assert(windowed(half_window, frame.reverse()) =~= windowed(half_window, frame).reverse());
}

/// A spectrum has the real part of each bin at its even and the imaginary part at its odd
/// places; the first bin has no imaginary part.
pub proof fn law_interleaved<T: Real>(re: Seq<T>, im: Seq<T>, bin: int)
    requires
        0 <= bin < NUM_BINS,
    ensures
        interleaved(re, im).len() == 480,
        interleaved(re, im)[2 * bin] == re[bin],
        bin > 0 ==> interleaved(re, im)[2 * bin + 1] == im[bin],
        interleaved(re, im)[1] == zero_of::<T>(),
{
    assert((2 * bin) / 2 == bin && (2 * bin + 1) / 2 == bin);
    assert((2 * bin) % 2 == 0 && (2 * bin + 1) % 2 == 1);
}

/// The pitch feature is zero at the center and rises with the period by the scale.
pub proof fn law_pitch_feature<T: Real>(center: T, scale: T, a: T, b: T)
    requires
        is_ordered::<T>(),
        sums_keep_order::<T>(),
        products_keep_order::<T>(),
        is_exact::<T>(),
        at_most(zero_of(), scale),
        at_most(a, b),
    ensures
        pitch_feature(center, scale, center) == zero_of::<T>(),
        at_most(pitch_feature(center, scale, a), pitch_feature(center, scale, b)),
        minus(pitch_feature(center, scale, b), pitch_feature(center, scale, a)) == times(
            scale,
            minus(b, a),
        ),
{
    let zero = zero_of::<T>();
    let x = minus(a, center);
    let y = minus(b, center);
    lemma_exact(center, center, zero);
    lemma_exact(scale, zero, zero);
    lemma_sums(a, b, center, center);
    lemma_products(x, y, scale);
    // The centers cancel.
    assert(minus(y, x) == minus(b, a)) by {
        lemma_exact(b, negative(center), negative(x));
        lemma_exact(a, negative(center), zero);
        lemma_exact(y, x, zero);
        lemma_exact(negative(center), negative(a), center);
        lemma_exact(negative(a), center, negative(center));
        lemma_exact(negative(center), center, negative(a));
        lemma_exact(center, negative(center), zero);
        lemma_exact(center, negative(a), zero);
        lemma_exact(negative(center), plus(negative(a), center), zero);
        lemma_exact(b, a, zero);
        lemma_exact(b, center, zero);
        lemma_exact(a, center, zero);
        lemma_exact(negative(a), zero, zero);
        lemma_exact(center, zero, zero);
    }
    lemma_exact(y, x, scale);
    lemma_exact(y, negative(x), scale);
    lemma_exact(times(scale, y), times(scale, x), zero);
    lemma_products(x, scale, zero);
    lemma_exact(x, scale, zero);
    lemma_exact(negative(x), scale, zero);
    lemma_exact(scale, y, zero);
    lemma_exact(scale, x, zero);
    assert(is_number(times(x, scale)));
}

/// Where each feature stands in the feature vector.
pub proof fn law_assembled<T: Real>(features: SpectralFeatures<T>, pitch: T, i: int)
    ensures
        assembled(features, pitch).len() == 42,
        0 <= i < 6 ==> assembled(features, pitch)[i] == features.average@[i],
        0 <= i < 16 ==> assembled(features, pitch)[6 + i] == features.higher_bands_cepstrum@[i],
        0 <= i < 6 ==> assembled(features, pitch)[22 + i] == features.first_derivative@[i],
        0 <= i < 6 ==> assembled(features, pitch)[28 + i] == features.second_derivative@[i],
        0 <= i < 6 ==> assembled(features, pitch)[34 + i] == features.bands_cross_corr@[i],
        assembled(features, pitch)[40] == pitch,
        assembled(features, pitch)[41] == features.variability,
{
}

/// The lagged frame starts half of the period at 48 kHz before the most recent one.
pub proof fn law_lagged_start(pitch_period_48khz: int)
    requires
        0 <= pitch_period_48khz,
    ensures
        0 <= pitch_period_48khz - 2 * (384 - lagged_start(pitch_period_48khz)) <= 1,
{
}

} // verus!
