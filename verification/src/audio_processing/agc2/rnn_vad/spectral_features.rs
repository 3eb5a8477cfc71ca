//! Spectral feature extractor.
use crate::audio_processing::agc2::rnn_vad::common::{
    CEPSTRAL_COEFFS_HISTORY_SIZE, FRAME_SIZE_20_MS_24_KHZ, NUM_BANDS, NUM_LOWER_BANDS,
};
use crate::audio_processing::agc2::rnn_vad::ring_buffer::{all_default, RingBuffer};
use crate::audio_processing::agc2::rnn_vad::spectral_features_internal::{
    band_correlations, compute_dct, compute_smoothed_log_magnitude_spectrum, dct,
    smoothed_log_spectrum, LogSpectrumParameters, SpectralCorrelator, TrigonometricFunctions,
    DCT_TABLE_SIZE, NUM_BINS, OPUS_BANDS_24_KHZ,
};
use crate::audio_processing::agc2::rnn_vad::symmetric_matrix_buffer::SymmetricMatrixBuffer;
use crate::audio_processing::arithmetic::{
    apply, array_of, difference, image, is_functional, is_less, is_mapping, is_total,
    lemma_array_of, lemma_default_is_zero, less, minimum, minus, multiply_add, over, plus,
    plus_product, product, quotient, smaller, sum, times, zero, zero_of, Real,
};
use vstd::array::array_fill_for_copy_types;
use vstd::prelude::*;

verus! {

/// Number of bands above the lower ones.
pub const NUM_HIGHER_BANDS: usize = 16;

/// Number of items that one item is compared to.
pub const NUM_CEPSTRAL_DISTANCES: usize = 7;

/// The numbers that the features are computed with.
pub struct SpectralFeatureParameters<T: Real> {
    pub log_spectrum: LogSpectrumParameters<T>,
    pub dct_table: [T; DCT_TABLE_SIZE],
    pub dct_scale: T,
    /// First half of the analysis window.
    pub half_window: [T; NUM_BINS],
    pub silence_threshold: T,
    pub two: T,
    /// Offsets of the first two cepstral coefficients.
    pub cepstrum_offsets: (T, T),
    /// Offsets of the first two correlation coefficients.
    pub correlation_offsets: (T, T),
    /// Added to a product of energies before the root.
    pub energy_floor: T,
    /// A number above every distance.
    pub max_distance: T,
    pub history_size: T,
    pub variability_offset: T,
}

/// Features of a frame.
pub struct SpectralFeatures<T: Real> {
    pub average: [T; NUM_LOWER_BANDS],
    pub higher_bands_cepstrum: [T; NUM_HIGHER_BANDS],
    pub first_derivative: [T; NUM_LOWER_BANDS],
    pub second_derivative: [T; NUM_LOWER_BANDS],
    pub bands_cross_corr: [T; NUM_LOWER_BANDS],
    pub variability: T,
}

/// The sum of the first `n` values.
pub open spec fn total<T: Real>(values: Seq<T>, n: int) -> T
    decreases n,
{
    if n <= 0 {
        zero_of()
    } else {
        plus(total(values, n - 1), values[n - 1])
    }
}

fn total_of<T: Real>(values: &[T]) -> (result: T)
    requires
        is_total::<T>(),
    ensures
        is_functional::<T>() ==> result == total(values@, values@.len() as int),
{
    let mut acc: T = zero();
    let mut i: usize = 0;
    while i < values.len()
        invariant
            is_total::<T>(),
            i <= values@.len(),
            is_functional::<T>() ==> acc == total(values@, i as int),
        decreases values@.len() - i,
    {
        acc = sum(acc, values[i]);
        i = i + 1;
    }
    acc
}

/// Squared distance over the first `n` coefficients.
pub open spec fn squared_distance<T: Real>(a: Seq<T>, b: Seq<T>, n: int) -> T
    decreases n,
{
    if n <= 0 {
        zero_of()
    } else {
        plus_product(
            squared_distance(a, b, n - 1),
            minus(a[n - 1], b[n - 1]),
            minus(a[n - 1], b[n - 1]),
        )
    }
}

fn distance<T: Real>(a: &[T; NUM_BANDS], b: &[T; NUM_BANDS]) -> (d: T)
    requires
        is_total::<T>(),
    ensures
        is_functional::<T>() ==> d == squared_distance(a@, b@, NUM_BANDS as int),
{
    let mut d: T = zero();
    let mut k: usize = 0;
    while k < NUM_BANDS
        invariant
            is_total::<T>(),
            k <= NUM_BANDS,
            is_functional::<T>() ==> d == squared_distance(a@, b@, k as int),
        decreases NUM_BANDS - k,
    {
        let c = difference(a[k], b[k]);
        d = multiply_add(d, c, c);
        k = k + 1;
    }
    d
}

/// A sequence with an offset taken off each of its first two values.
pub open spec fn with_offsets<T: Real>(values: Seq<T>, offsets: (T, T)) -> Seq<T> {
    values.update(0, minus(values[0], offsets.0)).update(1, minus(values[1], offsets.1))
}

/// The cepstrum of a frame with the given band energies.
pub open spec fn cepstrum_of<T: Real>(
    p: SpectralFeatureParameters<T>,
    log10: spec_fn(T) -> T,
    bands_energy: Seq<T>,
) -> Seq<T> {
    with_offsets(
        dct(
            smoothed_log_spectrum(p.log_spectrum, log10, bands_energy),
            p.dct_table@,
            p.dct_scale,
            NUM_BANDS as int,
        ),
        p.cepstrum_offsets,
    )
}

/// The correlation of two frames by bands, normalised and transformed.
pub open spec fn cepstral_correlation<T: Real>(
    p: SpectralFeatureParameters<T>,
    root: spec_fn(T) -> T,
    cross_corr: Seq<T>,
    reference_energy: Seq<T>,
    lagged_energy: Seq<T>,
) -> Seq<T> {
    with_offsets(
        dct(
            Seq::new(
                OPUS_BANDS_24_KHZ as nat,
                |i: int|
                    over(
                        cross_corr[i],
                        root(plus(p.energy_floor, times(reference_energy[i], lagged_energy[i]))),
                    ),
            ),
            p.dct_table@,
            p.dct_scale,
            NUM_LOWER_BANDS as int,
        ),
        p.correlation_offsets,
    )
}

/// The least distance of the item with `delay1` to the items with the first `n`
/// delays but itself.
pub open spec fn least_distance<T: Real>(
    max_distance: T,
    distances: SymmetricMatrixBuffer<T, CEPSTRAL_COEFFS_HISTORY_SIZE>,
    delay1: int,
    n: int,
) -> T
    decreases n,
{
    if n <= 0 {
        max_distance
    } else if n - 1 == delay1 {
        least_distance(max_distance, distances, delay1, n - 1)
    } else {
        smaller(
            least_distance(max_distance, distances, delay1, n - 1),
            distances.value(delay1, n - 1),
        )
    }
}

/// The sum of the least distances of the first `n` items.
pub open spec fn total_distance<T: Real>(
    max_distance: T,
    distances: SymmetricMatrixBuffer<T, CEPSTRAL_COEFFS_HISTORY_SIZE>,
    n: int,
) -> T
    decreases n,
{
    if n <= 0 {
        zero_of()
    } else {
        plus(
            total_distance(max_distance, distances, n - 1),
            least_distance(
                max_distance,
                distances,
                n - 1,
                CEPSTRAL_COEFFS_HISTORY_SIZE as int,
            ),
        )
    }
}

/// Computes spectral features from the spectra of reference and lagged frames.
pub struct SpectralFeaturesExtractor<T: Real> {
    parameters: SpectralFeatureParameters<T>,
    spectral_correlator: SpectralCorrelator<T>,
    cepstral_coeffs_ring_buf: RingBuffer<T, NUM_BANDS, CEPSTRAL_COEFFS_HISTORY_SIZE>,
    cepstral_diffs_buf: SymmetricMatrixBuffer<T, CEPSTRAL_COEFFS_HISTORY_SIZE>,
}

impl<T: Real> SpectralFeaturesExtractor<T> {
    pub closed spec fn settings(&self) -> SpectralFeatureParameters<T> {
        self.parameters
    }

    pub closed spec fn correlator(&self) -> SpectralCorrelator<T> {
        self.spectral_correlator
    }

    /// The most recent cepstra, newest first.
    pub closed spec fn cepstra(&self) -> Seq<[T; NUM_BANDS]> {
        self.cepstral_coeffs_ring_buf@
    }

    /// The distances between the most recent cepstra.
    pub closed spec fn distances(&self) -> SymmetricMatrixBuffer<T, CEPSTRAL_COEFFS_HISTORY_SIZE> {
        self.cepstral_diffs_buf
    }

    pub closed spec fn inv(&self) -> bool {
        &&& self.cepstral_coeffs_ring_buf.inv()
        &&& self.cepstral_coeffs_ring_buf@.len() == CEPSTRAL_COEFFS_HISTORY_SIZE
        &&& self.cepstral_diffs_buf.inv()
    }

    pub fn new(parameters: SpectralFeatureParameters<T>, weights: [T; NUM_BINS]) -> (extractor: Self)
        requires
            is_total::<T>(),
        ensures
            extractor.inv(),
            extractor.settings() == parameters,
            extractor.correlator().weights == weights,
            extractor.correlator().two == parameters.two,
            extractor.cepstra().len() == CEPSTRAL_COEFFS_HISTORY_SIZE,
            is_functional::<T>() ==> extractor.is_clear(),
    {
        let two = parameters.two;
        let extractor = SpectralFeaturesExtractor {
            parameters,
            spectral_correlator: SpectralCorrelator::new(weights, two),
            cepstral_coeffs_ring_buf: RingBuffer::new(),
            cepstral_diffs_buf: SymmetricMatrixBuffer::new(),
        };
        proof {
            if is_functional::<T>() {
                extractor.lemma_clear();
            }
        }
        extractor
    }

    proof fn lemma_clear(&self)
        requires
            is_functional::<T>(),
            self.inv(),
            forall|delay: int|
                0 <= delay < CEPSTRAL_COEFFS_HISTORY_SIZE ==> all_default(
                    (#[trigger] self.cepstra()[delay])@,
                ),
            forall|d1: int, d2: int|
                0 <= d1 < CEPSTRAL_COEFFS_HISTORY_SIZE && 0 <= d2 < CEPSTRAL_COEFFS_HISTORY_SIZE
                    && d1 != d2 ==> call_ensures(
                    T::default,
                    (),
                    #[trigger] self.distances().value(d1, d2),
                ),
        ensures
            self.is_clear(),
    {
        assert forall|delay: int, k: int|
            0 <= delay < CEPSTRAL_COEFFS_HISTORY_SIZE && 0 <= k
                < NUM_BANDS implies #[trigger] self.cepstra()[delay]@[k] == zero_of::<T>() by {
            assert(all_default(self.cepstra()[delay]@));
            lemma_default_is_zero(self.cepstra()[delay]@[k]);
        }
        assert forall|d1: int, d2: int|
            0 <= d1 < CEPSTRAL_COEFFS_HISTORY_SIZE && 0 <= d2 < CEPSTRAL_COEFFS_HISTORY_SIZE && d1
                != d2 implies #[trigger] self.distances().value(d1, d2) == zero_of::<T>() by {
            lemma_default_is_zero(self.distances().value(d1, d2));
        }
    }

    /// Whether all cepstra and distances are zero.
    pub open spec fn is_clear(&self) -> bool {
        &&& forall|delay: int, k: int|
            0 <= delay < CEPSTRAL_COEFFS_HISTORY_SIZE && 0 <= k < NUM_BANDS ==> #[trigger]
            self.cepstra()[delay]@[k] == zero_of::<T>()
        &&& forall|d1: int, d2: int|
            0 <= d1 < CEPSTRAL_COEFFS_HISTORY_SIZE && 0 <= d2 < CEPSTRAL_COEFFS_HISTORY_SIZE && d1
                != d2 ==> #[trigger] self.distances().value(d1, d2) == zero_of::<T>()
    }

    pub fn reset(&mut self)
        requires
            is_total::<T>(),
            old(self).inv(),
        ensures
            final(self).inv(),
            final(self).settings() == old(self).settings(),
            final(self).correlator() == old(self).correlator(),
            final(self).cepstra().len() == CEPSTRAL_COEFFS_HISTORY_SIZE,
            is_functional::<T>() ==> final(self).is_clear(),
    {
        self.cepstral_coeffs_ring_buf.reset();
        self.cepstral_diffs_buf.reset();
        proof {
            if is_functional::<T>() {
                self.lemma_clear();
            }
        }
    }

    /// The energies of the bands of a spectrum.
    pub open spec fn bands_of(&self, x: Seq<T>, y: Seq<T>) -> Seq<T> {
        band_correlations(self.correlator().two, self.correlator().weights@, x, y)
    }

    /// Whether a spectrum has less energy than the silence threshold.
    pub open spec fn is_silent(&self, reference_frame_fft: Seq<T>) -> bool {
        less(
            total(
                self.bands_of(reference_frame_fft, reference_frame_fft),
                OPUS_BANDS_24_KHZ as int,
            ),
            self.settings().silence_threshold,
        )
    }

    /// Whether the features follow from the three most recent cepstra.
    pub open spec fn has_derivatives(&self, features: SpectralFeatures<T>) -> bool {
        let curr = self.cepstra()[0]@;
        let prev1 = self.cepstra()[1]@;
        let prev2 = self.cepstra()[2]@;
        &&& features.higher_bands_cepstrum@ == curr.subrange(
            NUM_LOWER_BANDS as int,
            NUM_BANDS as int,
        )
        &&& forall|i: int|
            0 <= i < NUM_LOWER_BANDS ==> #[trigger] features.average@[i] == plus(
                plus(curr[i], prev1[i]),
                prev2[i],
            )
        &&& forall|i: int|
            0 <= i < NUM_LOWER_BANDS ==> #[trigger] features.first_derivative@[i] == minus(
                curr[i],
                prev2[i],
            )
        &&& forall|i: int|
            0 <= i < NUM_LOWER_BANDS ==> #[trigger] features.second_derivative@[i] == plus(
                minus(curr[i], times(self.settings().two, prev1[i])),
                prev2[i],
            )
    }

    /// Mean of the least distances between the most recent cepstra.
    pub open spec fn variability(&self) -> T {
        minus(
            over(
                total_distance(
                    self.settings().max_distance,
                    self.distances(),
                    CEPSTRAL_COEFFS_HISTORY_SIZE as int,
                ),
                self.settings().history_size,
            ),
            self.settings().variability_offset,
        )
    }

    /// Whether `after` is the extractor that `before` becomes by the spectra of a
    /// reference frame and of the frame one pitch period before, and `features`
    /// are what it computes.
    pub open spec fn advances(
        before: Self,
        after: Self,
        reference_frame_fft: Seq<T>,
        lagged_frame_fft: Seq<T>,
        log10: spec_fn(T) -> T,
        root: spec_fn(T) -> T,
        features: Option<SpectralFeatures<T>>,
    ) -> bool {
        &&& features is None <==> before.is_silent(reference_frame_fft)
        &&& features matches Some(f) ==> {
            let bands = before.bands_of(reference_frame_fft, reference_frame_fft);
            &&& after.cepstra()[0]@ == cepstrum_of(before.settings(), log10, bands)
            &&& forall|d: int|
                1 <= d < CEPSTRAL_COEFFS_HISTORY_SIZE ==> #[trigger] after.distances().value(0, d)
                    == squared_distance(
                    after.cepstra()[0]@,
                    after.cepstra()[d]@,
                    NUM_BANDS as int,
                )
            &&& after.has_derivatives(f)
            &&& f.bands_cross_corr@ == cepstral_correlation(
                before.settings(),
                root,
                before.bands_of(reference_frame_fft, lagged_frame_fft),
                bands,
                before.bands_of(lagged_frame_fft, lagged_frame_fft),
            )
            &&& f.variability == after.variability()
        }
    }

    /// Whether the history moved on by one item, or in silence stayed as it was.
    pub open spec fn shifts(before: Self, after: Self, silence: bool) -> bool {
        &&& after.settings() == before.settings()
        &&& after.correlator() == before.correlator()
        &&& after.cepstra().len() == before.cepstra().len()
        &&& silence ==> after == before
        &&& !silence ==> {
            &&& after.cepstra().skip(1) == before.cepstra().drop_last()
            &&& forall|d1: int, d2: int|
                1 <= d1 < CEPSTRAL_COEFFS_HISTORY_SIZE && 1 <= d2 < CEPSTRAL_COEFFS_HISTORY_SIZE
                    && d1 != d2 ==> #[trigger] after.distances().value(d1, d2)
                    == before.distances().value(d1 - 1, d2 - 1)
        }
    }

    /// Computes the features of a frame from the reference frame and the frame one
    /// pitch period before. `transform` gives the real and the imaginary parts of
    /// the spectrum of a frame. In silence there are no features, and nothing
    /// changes.
    pub fn check_silence_compute_features<
        F: Fn([T; FRAME_SIZE_20_MS_24_KHZ]) -> ([T; NUM_BINS], [T; NUM_BINS]),
        L: Fn(T) -> T,
        R: Fn(T) -> T,
    >(
        &mut self,
        reference_frame: &[T; FRAME_SIZE_20_MS_24_KHZ],
        lagged_frame: &[T; FRAME_SIZE_20_MS_24_KHZ],
        transform: &F,
        log10: &L,
        root: &R,
    ) -> (features: Option<SpectralFeatures<T>>)
        requires
            is_total::<T>(),
            old(self).inv(),
            forall|frame: [T; FRAME_SIZE_20_MS_24_KHZ]| call_requires(transform, (frame,)),
            forall|a: T| call_requires(log10, (a,)),
            forall|a: T| call_requires(root, (a,)),
        ensures
            final(self).inv(),
            Self::shifts(*old(self), *final(self), features is None),
            is_functional::<T>() && is_mapping(*transform) && is_mapping(*log10) && is_mapping(
                *root,
            ) ==> Self::advances(
                *old(self),
                *final(self),
                spectrum_of(
                    |frame: [T; FRAME_SIZE_20_MS_24_KHZ]| image(*transform, frame),
                    old(self).settings().half_window@,
                    reference_frame@,
                ),
                spectrum_of(
                    |frame: [T; FRAME_SIZE_20_MS_24_KHZ]| image(*transform, frame),
                    old(self).settings().half_window@,
                    lagged_frame@,
                ),
                |a: T| image(*log10, a),
                |a: T| image(*root, a),
                features,
            ),
    {
        let reference_frame_fft = compute_windowed_forward_fft(
            transform,
            &self.parameters.half_window,
            reference_frame,
        );
        let lagged_frame_fft = compute_windowed_forward_fft(
            transform,
            &self.parameters.half_window,
            lagged_frame,
        );
        self.compute_features_of_spectra(&reference_frame_fft, &lagged_frame_fft, log10, root)
    }

    /// Computes the features of a frame from the spectra of the reference frame
    /// and of the frame one pitch period before. In silence there are none, and
    /// nothing changes.
    pub fn compute_features_of_spectra<L: Fn(T) -> T, R: Fn(T) -> T>(
        &mut self,
        reference_frame_fft: &[T; FRAME_SIZE_20_MS_24_KHZ],
        lagged_frame_fft: &[T; FRAME_SIZE_20_MS_24_KHZ],
        log10: &L,
        root: &R,
    ) -> (features: Option<SpectralFeatures<T>>)
        requires
            is_total::<T>(),
            old(self).inv(),
            forall|a: T| call_requires(log10, (a,)),
            forall|a: T| call_requires(root, (a,)),
        ensures
            final(self).inv(),
            Self::shifts(*old(self), *final(self), features is None),
            is_functional::<T>() && is_mapping(*log10) && is_mapping(*root) ==> Self::advances(
                *old(self),
                *final(self),
                reference_frame_fft@,
                lagged_frame_fft@,
                |a: T| image(*log10, a),
                |a: T| image(*root, a),
                features,
            ),
    {
        let ghost exact = is_functional::<T>() && is_mapping(*log10) && is_mapping(*root);
        let nothing: T = zero();
        let mut reference_energy: [T; OPUS_BANDS_24_KHZ] = array_fill_for_copy_types(nothing);
        self.spectral_correlator.compute_auto_correlation(
            reference_frame_fft,
            &mut reference_energy,
        );
        let tot_energy = total_of(reference_energy.as_slice());
        if is_less(tot_energy, self.parameters.silence_threshold) {
            return None;
        }
        let mut lagged_energy: [T; OPUS_BANDS_24_KHZ] = array_fill_for_copy_types(nothing);
        self.spectral_correlator.compute_auto_correlation(lagged_frame_fft, &mut lagged_energy);
        let mut log_bands_energy: [T; NUM_BANDS] = array_fill_for_copy_types(nothing);
        compute_smoothed_log_magnitude_spectrum(
            &self.parameters.log_spectrum,
            log10,
            reference_energy.as_slice(),
            &mut log_bands_energy,
        );
        let mut cepstrum: [T; NUM_BANDS] = array_fill_for_copy_types(nothing);
        compute_dct(
            log_bands_energy.as_slice(),
            &self.parameters.dct_table,
            self.parameters.dct_scale,
            &mut cepstrum,
        );
        let ghost transformed = cepstrum@;
        cepstrum[0] = difference(cepstrum[0], self.parameters.cepstrum_offsets.0);
        cepstrum[1] = difference(cepstrum[1], self.parameters.cepstrum_offsets.1);
        proof {
            if exact {
                assert(cepstrum@ =~= with_offsets(transformed, self.parameters.cepstrum_offsets));
            }
        }
        self.cepstral_coeffs_ring_buf.push(&cepstrum);
        assert(self.cepstra().skip(1) =~= old(self).cepstra().drop_last());
        self.update_cepstral_difference_stats(&cepstrum);
        let bands_cross_corr = self.compute_normalized_cepstral_correlation(
            reference_frame_fft,
            lagged_frame_fft,
            &reference_energy,
            &lagged_energy,
            root,
        );
        let variability = self.compute_variability();
        let (average, first_derivative, second_derivative) = self.compute_avg_and_derivatives();
        let mut higher_bands_cepstrum: [T; NUM_HIGHER_BANDS] = array_fill_for_copy_types(nothing);
        let mut k: usize = 0;
        while k < NUM_HIGHER_BANDS
            invariant
                k <= NUM_HIGHER_BANDS,
                forall|j: int|
                    0 <= j < k ==> higher_bands_cepstrum@[j] == cepstrum@[NUM_LOWER_BANDS + j],
            decreases NUM_HIGHER_BANDS - k,
        {
            higher_bands_cepstrum[k] = cepstrum[NUM_LOWER_BANDS + k];
            k = k + 1;
        }
        let features = SpectralFeatures {
            average,
            higher_bands_cepstrum,
            first_derivative,
            second_derivative,
            bands_cross_corr,
            variability,
        };
        assert(features.higher_bands_cepstrum@ =~= self.cepstra()[0]@.subrange(
            NUM_LOWER_BANDS as int,
            NUM_BANDS as int,
        ));
        Some(features)
    }

    /// Enters the distances of the newest cepstrum to the others.
    fn update_cepstral_difference_stats(&mut self, cepstrum: &[T; NUM_BANDS])
        requires
            is_total::<T>(),
            old(self).inv(),
            old(self).cepstra()[0] == *cepstrum,
        ensures
            final(self).inv(),
            final(self).settings() == old(self).settings(),
            final(self).correlator() == old(self).correlator(),
            final(self).cepstra() == old(self).cepstra(),
            forall|d1: int, d2: int|
                1 <= d1 < CEPSTRAL_COEFFS_HISTORY_SIZE && 1 <= d2 < CEPSTRAL_COEFFS_HISTORY_SIZE
                    && d1 != d2 ==> #[trigger] final(self).distances().value(d1, d2) == old(
                    self).distances().value(d1 - 1, d2 - 1),
            is_functional::<T>() ==> forall|d: int|
                1 <= d < CEPSTRAL_COEFFS_HISTORY_SIZE ==> #[trigger] final(
                    self).distances().value(0, d) == squared_distance(
                    old(self).cepstra()[0]@,
                    old(self).cepstra()[d]@,
                    NUM_BANDS as int,
                ),
    {
        let nothing: T = zero();
        let mut distances: [T; NUM_CEPSTRAL_DISTANCES] = array_fill_for_copy_types(nothing);
        let mut i: usize = 0;
        while i < NUM_CEPSTRAL_DISTANCES
            invariant
                is_total::<T>(),
                self.inv(),
                i <= NUM_CEPSTRAL_DISTANCES,
                self.cepstra()[0] == *cepstrum,
                is_functional::<T>() ==> forall|k: int|
                    0 <= k < i ==> #[trigger] distances@[k] == squared_distance(
                        self.cepstra()[0]@,
                        self.cepstra()[k + 1]@,
                        NUM_BANDS as int,
                    ),
            decreases NUM_CEPSTRAL_DISTANCES - i,
        {
            let d = distance(cepstrum, self.cepstral_coeffs_ring_buf.get_array_view(i + 1));
            distances[i] = d;
            i = i + 1;
        }
        self.cepstral_diffs_buf.push(distances.as_slice());
    }

    /// Average and derivatives over the three most recent cepstra.
    fn compute_avg_and_derivatives(&self) -> (result: (
        [T; NUM_LOWER_BANDS],
        [T; NUM_LOWER_BANDS],
        [T; NUM_LOWER_BANDS],
    ))
        requires
            is_total::<T>(),
            self.inv(),
        ensures
            is_functional::<T>() ==> ({
                let curr = self.cepstra()[0]@;
                let prev1 = self.cepstra()[1]@;
                let prev2 = self.cepstra()[2]@;
                &&& forall|i: int|
                    0 <= i < NUM_LOWER_BANDS ==> #[trigger] result.0@[i] == plus(
                        plus(curr[i], prev1[i]),
                        prev2[i],
                    )
                &&& forall|i: int|
                    0 <= i < NUM_LOWER_BANDS ==> #[trigger] result.1@[i] == minus(
                        curr[i],
                        prev2[i],
                    )
                &&& forall|i: int|
                    0 <= i < NUM_LOWER_BANDS ==> #[trigger] result.2@[i] == plus(
                        minus(curr[i], times(self.settings().two, prev1[i])),
                        prev2[i],
                    )
            }),
    {
        let nothing: T = zero();
        let mut average: [T; NUM_LOWER_BANDS] = array_fill_for_copy_types(nothing);
        let mut first_derivative: [T; NUM_LOWER_BANDS] = array_fill_for_copy_types(nothing);
        let mut second_derivative: [T; NUM_LOWER_BANDS] = array_fill_for_copy_types(nothing);
        let curr = self.cepstral_coeffs_ring_buf.get_array_view(0);
        let prev1 = self.cepstral_coeffs_ring_buf.get_array_view(1);
        let prev2 = self.cepstral_coeffs_ring_buf.get_array_view(2);
        let mut i: usize = 0;
        while i < NUM_LOWER_BANDS
            invariant
                is_total::<T>(),
                i <= NUM_LOWER_BANDS,
                is_functional::<T>() ==> {
                    &&& forall|k: int|
                        0 <= k < i ==> #[trigger] average@[k] == plus(
                            plus(curr@[k], prev1@[k]),
                            prev2@[k],
                        )
                    &&& forall|k: int|
                        0 <= k < i ==> #[trigger] first_derivative@[k] == minus(
                            curr@[k],
                            prev2@[k],
                        )
                    &&& forall|k: int|
                        0 <= k < i ==> #[trigger] second_derivative@[k] == plus(
                            minus(curr@[k], times(self.parameters.two, prev1@[k])),
                            prev2@[k],
                        )
                },
            decreases NUM_LOWER_BANDS - i,
        {
            average[i] = sum(sum(curr[i], prev1[i]), prev2[i]);
            first_derivative[i] = difference(curr[i], prev2[i]);
            second_derivative[i] =
            sum(difference(curr[i], product(self.parameters.two, prev1[i])), prev2[i]);
            i = i + 1;
        }
        (average, first_derivative, second_derivative)
    }

    /// The normalised correlation of the two frames.
    fn compute_normalized_cepstral_correlation<R: Fn(T) -> T>(
        &self,
        reference_frame_fft: &[T; FRAME_SIZE_20_MS_24_KHZ],
        lagged_frame_fft: &[T; FRAME_SIZE_20_MS_24_KHZ],
        reference_energy: &[T; OPUS_BANDS_24_KHZ],
        lagged_energy: &[T; OPUS_BANDS_24_KHZ],
        root: &R,
    ) -> (bands_cross_corr: [T; NUM_LOWER_BANDS])
        requires
            is_total::<T>(),
            forall|a: T| call_requires(root, (a,)),
        ensures
            is_functional::<T>() && is_mapping(*root) ==> bands_cross_corr@ == cepstral_correlation(
                self.settings(),
                |a: T| image(*root, a),
                self.bands_of(reference_frame_fft@, lagged_frame_fft@),
                reference_energy@,
                lagged_energy@,
            ),
    {
        let ghost exact = is_functional::<T>() && is_mapping(*root);
        let nothing: T = zero();
        let mut cross_corr: [T; OPUS_BANDS_24_KHZ] = array_fill_for_copy_types(nothing);
        self.spectral_correlator.compute_cross_correlation(
            reference_frame_fft,
            lagged_frame_fft,
            &mut cross_corr,
        );
        let ghost raw = cross_corr@;
        let ghost normalised = Seq::new(
            OPUS_BANDS_24_KHZ as nat,
            |i: int|
                over(
                    raw[i],
                    image(
                        *root,
                        plus(
                            self.parameters.energy_floor,
                            times(reference_energy@[i], lagged_energy@[i]),
                        ),
                    ),
                ),
        );
        let mut i: usize = 0;
        while i < OPUS_BANDS_24_KHZ
            invariant
                is_total::<T>(),
                forall|a: T| call_requires(root, (a,)),
                i <= OPUS_BANDS_24_KHZ,
                exact == (is_functional::<T>() && is_mapping(*root)),
                normalised == Seq::new(
                    OPUS_BANDS_24_KHZ as nat,
                    |i: int|
                        over(
                            raw[i],
                            image(
                                *root,
                                plus(
                                    self.parameters.energy_floor,
                                    times(reference_energy@[i], lagged_energy@[i]),
                                ),
                            ),
                        ),
                ),
                forall|k: int| i <= k < OPUS_BANDS_24_KHZ ==> cross_corr@[k] == raw[k],
                exact ==> forall|k: int| 0 <= k < i ==> #[trigger] cross_corr@[k] == normalised[k],
            decreases OPUS_BANDS_24_KHZ - i,
        {
            let value = quotient(
                cross_corr[i],
                apply(
                    root,
                    sum(
                        self.parameters.energy_floor,
                        product(reference_energy[i], lagged_energy[i]),
                    ),
                ),
            );
            cross_corr[i] = value;
            i = i + 1;
        }
        let mut bands_cross_corr: [T; NUM_LOWER_BANDS] = array_fill_for_copy_types(nothing);
        compute_dct(
            cross_corr.as_slice(),
            &self.parameters.dct_table,
            self.parameters.dct_scale,
            &mut bands_cross_corr,
        );
        let ghost transformed = bands_cross_corr@;
        bands_cross_corr[0] =
        difference(bands_cross_corr[0], self.parameters.correlation_offsets.0);
        bands_cross_corr[1] =
        difference(bands_cross_corr[1], self.parameters.correlation_offsets.1);
        proof {
            if exact {
                assert(cross_corr@ =~= normalised);
                assert(normalised =~= Seq::new(
                    OPUS_BANDS_24_KHZ as nat,
                    |i: int|
                        over(
                            self.bands_of(reference_frame_fft@, lagged_frame_fft@)[i],
                            (|a: T| image(*root, a))(
                                plus(
                                    self.settings().energy_floor,
                                    times(reference_energy@[i], lagged_energy@[i]),
                                ),
                            ),
                        ),
                ));
                assert(bands_cross_corr@ =~= with_offsets(
                    transformed,
                    self.parameters.correlation_offsets,
                ));
            }
        }
        bands_cross_corr
    }

    fn compute_variability(&self) -> (variability: T)
        requires
            is_total::<T>(),
            self.inv(),
        ensures
            is_functional::<T>() ==> variability == self.variability(),
    {
        let mut acc: T = zero();
        let mut delay1: usize = 0;
        while delay1 < CEPSTRAL_COEFFS_HISTORY_SIZE
            invariant
                is_total::<T>(),
                self.inv(),
                delay1 <= CEPSTRAL_COEFFS_HISTORY_SIZE,
                is_functional::<T>() ==> acc == total_distance(
                    self.parameters.max_distance,
                    self.cepstral_diffs_buf,
                    delay1 as int,
                ),
            decreases CEPSTRAL_COEFFS_HISTORY_SIZE - delay1,
        {
            let mut min_dist = self.parameters.max_distance;
            let mut delay2: usize = 0;
            while delay2 < CEPSTRAL_COEFFS_HISTORY_SIZE
                invariant
                    is_total::<T>(),
                    self.inv(),
                    delay1 < CEPSTRAL_COEFFS_HISTORY_SIZE,
                    delay2 <= CEPSTRAL_COEFFS_HISTORY_SIZE,
                    is_functional::<T>() ==> min_dist == least_distance(
                        self.parameters.max_distance,
                        self.cepstral_diffs_buf,
                        delay1 as int,
                        delay2 as int,
                    ),
                decreases CEPSTRAL_COEFFS_HISTORY_SIZE - delay2,
            {
                if delay1 != delay2 {
                    min_dist =
                    minimum(min_dist, self.cepstral_diffs_buf.get_value(delay1, delay2));
                }
                delay2 = delay2 + 1;
            }
            acc = sum(acc, min_dist);
            delay1 = delay1 + 1;
        }
        difference(
            quotient(acc, self.parameters.history_size),
            self.parameters.variability_offset,
        )
    }
}

/// A value of the Vorbis window.
pub open spec fn vorbis_value<W: Real>(
    half: W,
    pi: W,
    number: spec_fn(usize) -> W,
    sine: spec_fn(W) -> W,
    i: usize,
) -> W {
    let t = over(plus(number(i), half), number(NUM_BINS));
    let s = sine(times(times(half, pi), t));
    sine(times(times(times(half, pi), s), s))
}

/// Computes the first half of a Vorbis window, scaled. `narrow` rounds a number to the
/// type of the window.
pub fn compute_scaled_half_vorbis_window<
    W: Real,
    T: Real,
    N: Fn(usize) -> W,
    S: Fn(W) -> W,
    C: Fn(W) -> W,
    M: Fn(W) -> T,
>(f: &TrigonometricFunctions<W, N, S, C>, narrow: &M, scaling: T) -> (half_window: [T; NUM_BINS])
    requires
        is_total::<W>(),
        is_total::<T>(),
        forall|n: usize| call_requires(f.number, (n,)),
        forall|a: W| call_requires(f.sine, (a,)),
        forall|a: W| call_requires(narrow, (a,)),
    ensures
        is_functional::<W>() && is_functional::<T>() && is_mapping(f.number) && is_mapping(f.sine)
            && is_mapping(*narrow) ==> forall|i: int|
            0 <= i < NUM_BINS ==> #[trigger] half_window@[i] == times(
                scaling,
                image(
                    *narrow,
                    vorbis_value(
                        f.half,
                        f.pi,
                        |n: usize| image(f.number, n),
                        |a: W| image(f.sine, a),
                        i as usize,
                    ),
                ),
            ),
{
    let mut half_window: [T; NUM_BINS] = array_fill_for_copy_types(scaling);
    let size = apply(&f.number, NUM_BINS);
    let quarter = product(f.half, f.pi);
    let mut i: usize = 0;
    while i < NUM_BINS
        invariant
            is_total::<W>(),
            is_total::<T>(),
            forall|n: usize| call_requires(f.number, (n,)),
            forall|a: W| call_requires(f.sine, (a,)),
            forall|a: W| call_requires(narrow, (a,)),
            i <= NUM_BINS,
            is_functional::<W>() && is_mapping(f.number) ==> size == image(f.number, NUM_BINS),
            is_functional::<W>() ==> quarter == times(f.half, f.pi),
            is_functional::<W>() && is_functional::<T>() && is_mapping(f.number) && is_mapping(
                f.sine,
            ) && is_mapping(*narrow) ==> forall|k: int|
                0 <= k < i ==> #[trigger] half_window@[k] == times(
                    scaling,
                    image(
                        *narrow,
                        vorbis_value(
                            f.half,
                            f.pi,
                            |n: usize| image(f.number, n),
                            |a: W| image(f.sine, a),
                            k as usize,
                        ),
                    ),
                ),
        decreases NUM_BINS - i,
    {
        let t = quotient(sum(apply(&f.number, i), f.half), size);
        let s = apply(&f.sine, product(quarter, t));
        let value = apply(&f.sine, product(product(quarter, s), s));
        half_window[i] = product(scaling, apply(narrow, value));
        i = i + 1;
    }
    half_window
}

/// A frame weighted by a window that is symmetric about its middle.
pub open spec fn windowed<T: Real>(half_window: Seq<T>, frame: Seq<T>) -> Seq<T> {
    Seq::new(
        FRAME_SIZE_20_MS_24_KHZ as nat,
        |i: int|
            times(
                frame[i],
                half_window[if i < NUM_BINS {
                    i
                } else {
                    FRAME_SIZE_20_MS_24_KHZ - 1 - i
                }],
            ),
    )
}

/// Real and imaginary parts in turn, without the Nyquist coefficient: the value at
/// index 1 is zero, as the first bin has no imaginary part.
pub open spec fn interleaved<T: Real>(re: Seq<T>, im: Seq<T>) -> Seq<T> {
    Seq::new(
        FRAME_SIZE_20_MS_24_KHZ as nat,
        |i: int|
            if i == 1 {
                zero_of()
            } else if i % 2 == 0 {
                re[i / 2]
            } else {
                im[i / 2]
            },
    )
}

/// The spectrum of the windowed frame.
pub open spec fn spectrum_of<T: Real>(
    transform: spec_fn([T; FRAME_SIZE_20_MS_24_KHZ]) -> ([T; NUM_BINS], [T; NUM_BINS]),
    half_window: Seq<T>,
    frame: Seq<T>,
) -> Seq<T> {
    let parts = transform(array_of(windowed(half_window, frame)));
    interleaved(parts.0@, parts.1@)
}

/// The spectrum of a windowed frame; `transform` gives the real and the imaginary
/// parts.
fn compute_windowed_forward_fft<
    T: Real,
    F: Fn([T; FRAME_SIZE_20_MS_24_KHZ]) -> ([T; NUM_BINS], [T; NUM_BINS]),
>(
    transform: &F,
    half_window: &[T; NUM_BINS],
    frame: &[T; FRAME_SIZE_20_MS_24_KHZ],
) -> (spectrum: [T; FRAME_SIZE_20_MS_24_KHZ])
    requires
        is_total::<T>(),
        forall|frame: [T; FRAME_SIZE_20_MS_24_KHZ]| call_requires(transform, (frame,)),
    ensures
        is_functional::<T>() && is_mapping(*transform) ==> spectrum@ == spectrum_of(
            |frame: [T; FRAME_SIZE_20_MS_24_KHZ]| image(*transform, frame),
            half_window@,
            frame@,
        ),
{
    let weighted = apply_window(half_window, frame);
    proof {
        lemma_array_of(weighted);
    }
    let (re, im) = apply(transform, weighted);
    interleave(&re, &im)
}

pub fn apply_window<T: Real>(
    half_window: &[T; NUM_BINS],
    frame: &[T; FRAME_SIZE_20_MS_24_KHZ],
) -> (weighted: [T; FRAME_SIZE_20_MS_24_KHZ])
    requires
        is_total::<T>(),
    ensures
        is_functional::<T>() ==> weighted@ == windowed(half_window@, frame@),
{
    let mut weighted: [T; FRAME_SIZE_20_MS_24_KHZ] = array_fill_for_copy_types(zero());
    let mut i: usize = 0;
    while i < FRAME_SIZE_20_MS_24_KHZ
        invariant
            is_total::<T>(),
            i <= FRAME_SIZE_20_MS_24_KHZ,
            is_functional::<T>() ==> forall|k: int|
                0 <= k < i ==> #[trigger] weighted@[k] == windowed(half_window@, frame@)[k],
        decreases FRAME_SIZE_20_MS_24_KHZ - i,
    {
        let weight = if i < NUM_BINS {
            half_window[i]
        } else {
            half_window[FRAME_SIZE_20_MS_24_KHZ - 1 - i]
        };
        weighted[i] = product(frame[i], weight);
        i = i + 1;
    }
    proof {
        if is_functional::<T>() {
            assert(weighted@ =~= windowed(half_window@, frame@));
        }
    }
    weighted
}

pub fn interleave<T: Real>(re: &[T; NUM_BINS], im: &[T; NUM_BINS]) -> (spectrum: [T;
    FRAME_SIZE_20_MS_24_KHZ])
    requires
        is_total::<T>(),
    ensures
        is_functional::<T>() ==> spectrum@ == interleaved(re@, im@),
{
    let nothing: T = zero();
    let mut spectrum: [T; FRAME_SIZE_20_MS_24_KHZ] = array_fill_for_copy_types(nothing);
    let mut k: usize = 0;
    while k < NUM_BINS
        invariant
            k <= NUM_BINS,
            is_functional::<T>() ==> nothing == zero_of::<T>(),
            is_functional::<T>() ==> forall|j: int|
                0 <= j < 2 * k ==> #[trigger] spectrum@[j] == interleaved(re@, im@)[j],
        decreases NUM_BINS - k,
    {
        spectrum[2 * k] = re[k];
        spectrum[2 * k + 1] = if k == 0 {
            nothing
        } else {
            im[k]
        };
        k = k + 1;
    }
    proof {
        if is_functional::<T>() {
            assert(spectrum@ =~= interleaved(re@, im@));
        }
    }
    spectrum
}

} // verus!
