//! Feature extraction pipeline for feeding the RNN-VAD.
use crate::audio_processing::agc2::biquad_filter::{
    filtered, initial_state, state_after, BiQuadFilter, Config,
};
use crate::audio_processing::agc2::rnn_vad::auto_correlation::{
    AutoCorrelationCalculator, FFT_FRAME_SIZE,
};
use crate::audio_processing::agc2::rnn_vad::common::{
    BUF_SIZE_24_KHZ, FEATURE_VECTOR_SIZE, FRAME_SIZE_10_MS_24_KHZ, FRAME_SIZE_20_MS_24_KHZ,
    MAX_PITCH_24_KHZ, NUM_LOWER_BANDS,
};
use crate::audio_processing::agc2::rnn_vad::lp_residual::{
    compute_and_post_process_lpc_coefficients, compute_lp_residual, lpc_coefficients, residuals,
    LpcParameters, NUM_LPC_COEFFICIENTS,
};
use crate::audio_processing::agc2::rnn_vad::pitch_search::{estimated, PitchEstimator};
use crate::audio_processing::agc2::rnn_vad::pitch_search_internal::{
    PitchInfo, PitchSearchParameters,
};
use crate::audio_processing::agc2::rnn_vad::ring_buffer::all_default;
use crate::audio_processing::agc2::rnn_vad::sequence_buffer::SequenceBuffer;
use crate::audio_processing::agc2::rnn_vad::spectral_features::{
    spectrum_of, SpectralFeatureParameters, SpectralFeatures, SpectralFeaturesExtractor,
    NUM_HIGHER_BANDS,
};
use crate::audio_processing::agc2::rnn_vad::spectral_features_internal::NUM_BINS;
use crate::audio_processing::arithmetic::{
    apply, difference, image, is_functional, is_mapping, is_total, minus,
    product, times, zero, zero_of, Real,
};
use vstd::array::array_fill_for_copy_types;
use vstd::prelude::*;

verus! {

/// Where the normalised pitch period stands in a feature vector.
pub const PITCH_FEATURE_INDEX: usize = 40;

/// The numbers that feature extraction works with.
pub struct FeatureParameters<T: Real> {
    /// High-pass filter at 24 kHz.
    pub high_pass_filter: Config<T>,
    pub lpc: LpcParameters<T>,
    pub pitch_search: PitchSearchParameters<T>,
    pub spectral: SpectralFeatureParameters<T>,
    /// Weights of the frequency bins in the bands.
    pub band_weights: [T; NUM_BINS],
    /// The pitch period that is normalised to zero.
    pub pitch_center: T,
    pub pitch_scale: T,
}

/// The functions that feature extraction works with.
pub struct Transforms<F, C, L, R, N> {
    /// Gives the real and the imaginary parts of the spectrum of a frame.
    pub spectrum: F,
    pub auto_correlation: AutoCorrelationCalculator<C>,
    pub log10: L,
    pub root: R,
    /// Gives the number for an integer.
    pub number: N,
}

/// The pitch period, normalised.
pub open spec fn pitch_feature<T: Real>(center: T, scale: T, period: T) -> T {
    times(scale, minus(period, center))
}

/// The feature vector of a frame.
pub open spec fn assembled<T: Real>(features: SpectralFeatures<T>, pitch: T) -> Seq<T> {
    features.average@ + features.higher_bands_cepstrum@ + features.first_derivative@
        + features.second_derivative@ + features.bands_cross_corr@ + seq![
        pitch,
        features.variability,
    ]
}

/// Whether the feature vector holds the features, if there are any.
pub open spec fn is_reported<T: Real>(
    features: Option<SpectralFeatures<T>>,
    silence: bool,
    feature_vector: Seq<T>,
) -> bool {
    match features {
        None => silence,
        Some(s) => !silence && feature_vector == assembled(
            s,
            feature_vector[PITCH_FEATURE_INDEX as int],
        ),
    }
}

/// First sample of the frame that lies the given pitch period at 48 kHz before the
/// most recent frame.
pub open spec fn lagged_start(pitch_period_48khz: int) -> int {
    MAX_PITCH_24_KHZ - pitch_period_48khz / 2
}

/// Feature extractor to feed the VAD RNN.
pub struct FeaturesExtractor<T: Real> {
    use_high_pass_filter: bool,
    hpf: BiQuadFilter<T>,
    lpc: LpcParameters<T>,
    pitch_buf_24khz: SequenceBuffer<
        T,
        BUF_SIZE_24_KHZ,
        FRAME_SIZE_10_MS_24_KHZ,
        FRAME_SIZE_20_MS_24_KHZ,
    >,
    pitch_estimator: PitchEstimator<T>,
    spectral_features_extractor: SpectralFeaturesExtractor<T>,
    pitch_center: T,
    pitch_scale: T,
}

impl<T: Real> FeaturesExtractor<T> {
    pub closed spec fn inv(&self) -> bool {
        self.spectral_features_extractor.inv()
    }

    pub closed spec fn uses_high_pass_filter(&self) -> bool {
        self.use_high_pass_filter
    }

    pub closed spec fn high_pass_filter(&self) -> BiQuadFilter<T> {
        self.hpf
    }

    pub closed spec fn lpc_settings(&self) -> LpcParameters<T> {
        self.lpc
    }

    pub closed spec fn pitch_settings(&self) -> PitchSearchParameters<T> {
        self.pitch_estimator.settings()
    }

    pub closed spec fn pitch_normalisation(&self) -> (T, T) {
        (self.pitch_center, self.pitch_scale)
    }

    /// The most recent samples.
    pub closed spec fn samples(&self) -> Seq<T> {
        self.pitch_buf_24khz@
    }

    pub closed spec fn last_pitch(&self) -> PitchInfo<T> {
        self.pitch_estimator.last_pitch()
    }

    pub closed spec fn spectral(&self) -> SpectralFeaturesExtractor<T> {
        self.spectral_features_extractor
    }

    /// Whether two extractors have the same settings.
    pub open spec fn same_settings(&self, other: &Self) -> bool {
        &&& self.uses_high_pass_filter() == other.uses_high_pass_filter()
        &&& self.high_pass_filter().coefficients() == other.high_pass_filter().coefficients()
        &&& self.lpc_settings() == other.lpc_settings()
        &&& self.pitch_settings() == other.pitch_settings()
        &&& self.pitch_normalisation() == other.pitch_normalisation()
        &&& self.spectral().settings() == other.spectral().settings()
        &&& self.spectral().correlator() == other.spectral().correlator()
    }

    pub fn new(parameters: FeatureParameters<T>) -> (extractor: Self)
        requires
            is_total::<T>(),
        ensures
            extractor.inv(),
            !extractor.uses_high_pass_filter(),
            extractor.high_pass_filter().coefficients() == parameters.high_pass_filter,
            extractor.lpc_settings() == parameters.lpc,
            extractor.pitch_settings() == parameters.pitch_search,
            extractor.pitch_normalisation() == (parameters.pitch_center, parameters.pitch_scale),
            extractor.spectral().settings() == parameters.spectral,
            extractor.spectral().correlator().weights == parameters.band_weights,
            extractor.spectral().correlator().two == parameters.spectral.two,
            all_default(extractor.samples()),
            extractor.last_pitch().period == 0,
            is_functional::<T>() ==> {
                &&& extractor.last_pitch().strength == zero_of::<T>()
                &&& extractor.high_pass_filter().memory() == initial_state::<T>()
                &&& extractor.spectral().is_clear()
            },
    {
        FeaturesExtractor {
            use_high_pass_filter: false,
            hpf: BiQuadFilter::new(parameters.high_pass_filter),
            lpc: parameters.lpc,
            pitch_buf_24khz: SequenceBuffer::new(),
            pitch_estimator: PitchEstimator::new(parameters.pitch_search),
            spectral_features_extractor: SpectralFeaturesExtractor::new(
                parameters.spectral,
                parameters.band_weights,
            ),
            pitch_center: parameters.pitch_center,
            pitch_scale: parameters.pitch_scale,
        }
    }

    /// Forgets the samples and the features; the last pitch is kept.
    pub fn reset(&mut self)
        requires
            is_total::<T>(),
            old(self).inv(),
        ensures
            final(self).inv(),
            final(self).same_settings(old(self)),
            all_default(final(self).samples()),
            final(self).last_pitch() == old(self).last_pitch(),
            is_functional::<T>() ==> final(self).spectral().is_clear(),
            !old(self).uses_high_pass_filter() ==> final(self).high_pass_filter() == old(
                self).high_pass_filter(),
            is_functional::<T>() && old(self).uses_high_pass_filter() ==> final(
                self).high_pass_filter().memory() == initial_state::<T>(),
    {
        self.pitch_buf_24khz.reset();
        self.spectral_features_extractor.reset();
        if self.use_high_pass_filter {
            self.hpf.reset();
        }
    }

    /// The samples that enter the buffer.
    pub open spec fn entering(&self, samples: Seq<T>) -> Seq<T> {
        if self.uses_high_pass_filter() {
            filtered(
                self.high_pass_filter().coefficients(),
                self.high_pass_filter().memory(),
                samples,
            )
        } else {
            samples
        }
    }

    /// The LP residual of the most recent samples.
    pub open spec fn lp_residual(&self) -> Seq<T> {
        residuals(lpc_coefficients(self.lpc_settings(), self.samples()), self.samples())
    }

    /// Appends samples to the buffer, filtered if the extractor does that.
    fn push(&mut self, samples: &[T; FRAME_SIZE_10_MS_24_KHZ])
        requires
            is_total::<T>(),
            old(self).inv(),
        ensures
            final(self).inv(),
            final(self).same_settings(old(self)),
            final(self).last_pitch() == old(self).last_pitch(),
            final(self).spectral() == old(self).spectral(),
            !old(self).uses_high_pass_filter() ==> final(self).high_pass_filter() == old(
                self).high_pass_filter(),
            is_functional::<T>() || !old(self).uses_high_pass_filter() ==> final(self).samples()
                == old(self).samples().subrange(
                FRAME_SIZE_10_MS_24_KHZ as int,
                BUF_SIZE_24_KHZ as int,
            ) + old(self).entering(samples@),
            is_functional::<T>() && old(self).uses_high_pass_filter() ==> final(
                self).high_pass_filter().memory() == state_after(
                old(self).high_pass_filter().coefficients(),
                old(self).high_pass_filter().memory(),
                samples@,
                FRAME_SIZE_10_MS_24_KHZ as int,
            ),
    {
        if self.use_high_pass_filter {
            let mut samples_filtered: [T; FRAME_SIZE_10_MS_24_KHZ] = array_fill_for_copy_types(
                zero(),
            );
            self.hpf.process(samples, &mut samples_filtered);
            self.pitch_buf_24khz.push(&samples_filtered);
        } else {
            self.pitch_buf_24khz.push(samples);
        }
    }

    /// Analyzes samples, computes feature vector, and returns `true` if silence
    /// is detected. On silence, only the pitch in the feature vector is written,
    /// and the vector must not be fed to the RNN.
    #[verifier::rlimit(40)]
    pub fn check_silence_compute_features<
        F: Fn([T; FRAME_SIZE_20_MS_24_KHZ]) -> ([T; NUM_BINS], [T; NUM_BINS]),
        C: Fn(([T; FFT_FRAME_SIZE], [T; FFT_FRAME_SIZE])) -> [T; FFT_FRAME_SIZE],
        L: Fn(T) -> T,
        R: Fn(T) -> T,
        N: Fn(i32) -> T,
    >(
        &mut self,
        samples: &[T; FRAME_SIZE_10_MS_24_KHZ],
        feature_vector: &mut [T; FEATURE_VECTOR_SIZE],
        f: &Transforms<F, C, L, R, N>,
    ) -> (silence: bool)
        requires
            is_total::<T>(),
            old(self).inv(),
            forall|frame: [T; FRAME_SIZE_20_MS_24_KHZ]| call_requires(f.spectrum, (frame,)),
            forall|frames: ([T; FFT_FRAME_SIZE], [T; FFT_FRAME_SIZE])|
                call_requires(f.auto_correlation.convolve, (frames,)),
            forall|a: T| call_requires(f.log10, (a,)),
            forall|a: T| call_requires(f.root, (a,)),
            forall|a: i32| call_requires(f.number, (a,)),
        ensures
            final(self).inv(),
            final(self).same_settings(old(self)),
            silence ==> forall|i: int|
                0 <= i < FEATURE_VECTOR_SIZE && i != PITCH_FEATURE_INDEX ==> #[trigger] final(
                    feature_vector)@[i] == old(feature_vector)@[i],
            SpectralFeaturesExtractor::shifts(
                old(self).spectral(),
                final(self).spectral(),
                silence,
            ),
            is_functional::<T>() || !old(self).uses_high_pass_filter() ==> final(self).samples()
                == old(self).samples().subrange(
                FRAME_SIZE_10_MS_24_KHZ as int,
                BUF_SIZE_24_KHZ as int,
            ) + old(self).entering(samples@),
            is_functional::<T>() && old(self).uses_high_pass_filter() ==> final(
                self).high_pass_filter().memory() == state_after(
                old(self).high_pass_filter().coefficients(),
                old(self).high_pass_filter().memory(),
                samples@,
                FRAME_SIZE_10_MS_24_KHZ as int,
            ),
            is_functional::<T>() && is_mapping(f.root) && is_mapping(f.auto_correlation.convolve)
                ==> (final(self).last_pitch().period as int, final(self).last_pitch().strength)
                == estimated(
                old(self).pitch_settings(),
                |a: T| image(f.root, a),
                |frames: ([T; FFT_FRAME_SIZE], [T; FFT_FRAME_SIZE])|
                    image(f.auto_correlation.convolve, frames),
                final(self).lp_residual(),
                old(self).last_pitch(),
            ),
            is_functional::<T>() && is_mapping(f.number) ==> final(
                feature_vector)@[PITCH_FEATURE_INDEX as int] == pitch_feature(
                old(self).pitch_normalisation().0,
                old(self).pitch_normalisation().1,
                image(f.number, final(self).last_pitch().period),
            ),
            is_functional::<T>() && is_mapping(f.spectrum) && is_mapping(f.log10) && is_mapping(
                f.root,
            ) ==> exists|features: Option<SpectralFeatures<T>>|
                {
                    &&& SpectralFeaturesExtractor::advances(
                        old(self).spectral(),
                        final(self).spectral(),
                        spectrum_of(
                            |frame: [T; FRAME_SIZE_20_MS_24_KHZ]| image(f.spectrum, frame),
                            old(self).spectral().settings().half_window@,
                            final(self).samples().subrange(
                                MAX_PITCH_24_KHZ as int,
                                BUF_SIZE_24_KHZ as int,
                            ),
                        ),
                        spectrum_of(
                            |frame: [T; FRAME_SIZE_20_MS_24_KHZ]| image(f.spectrum, frame),
                            old(self).spectral().settings().half_window@,
                            final(self).samples().subrange(
                                lagged_start(final(self).last_pitch().period as int),
                                lagged_start(final(self).last_pitch().period as int)
                                    + FRAME_SIZE_20_MS_24_KHZ,
                            ),
                        ),
                        |a: T| image(f.log10, a),
                        |a: T| image(f.root, a),
                        features,
                    )
                    &&& #[trigger] is_reported(features, silence, final(feature_vector)@)
                },
    {
        self.push(samples);
        let ghost pushed = *self;
        let pitch_buf_view = *self.pitch_buf_24khz.get_buffer_view();
        // LP residual.
        let nothing: T = zero();
        let mut lpc_coeffs: [T; NUM_LPC_COEFFICIENTS] = array_fill_for_copy_types(nothing);
        compute_and_post_process_lpc_coefficients(
            &self.lpc,
            pitch_buf_view.as_slice(),
            &mut lpc_coeffs,
        );
        let mut lp_residual: [T; BUF_SIZE_24_KHZ] = array_fill_for_copy_types(nothing);
        compute_lp_residual(&lpc_coeffs, pitch_buf_view.as_slice(), &mut lp_residual);
        // Pitch estimate normalized feature.
        let period: i32 = self.pitch_estimator.estimate(
            &f.root,
            &f.auto_correlation,
            &lp_residual,
        );
        let pitch = product(
            self.pitch_scale,
            difference(apply(&f.number, period), self.pitch_center),
        );
        feature_vector[PITCH_FEATURE_INDEX] = pitch;
        // Lagged frame according to estimated pitch.
        let start: usize = MAX_PITCH_24_KHZ - (period / 2) as usize;
        let lagged_frame = frame_at(&pitch_buf_view, start);
        let reference_frame = frame_at(&pitch_buf_view, MAX_PITCH_24_KHZ);
        let features = self.spectral_features_extractor.check_silence_compute_features(
            &reference_frame,
            &lagged_frame,
            &f.spectrum,
            &f.log10,
            &f.root,
        );
        let ghost outcome = features;
        match features {
            None => {
                assert(is_reported(outcome, true, feature_vector@));
                true
            },
            Some(features) => {
                *feature_vector = assemble(&features, pitch);
                assert(assembled(features, pitch)[PITCH_FEATURE_INDEX as int] == pitch);
                assert(is_reported(outcome, false, feature_vector@));
                false
            },
        }
    }
}

/// The frame of the buffer that starts at the given sample.
fn frame_at<T: Real>(buffer: &[T; BUF_SIZE_24_KHZ], start: usize) -> (frame: [T;
    FRAME_SIZE_20_MS_24_KHZ])
    requires
        is_total::<T>(),
        start <= MAX_PITCH_24_KHZ,
    ensures
        frame@ == buffer@.subrange(start as int, start + FRAME_SIZE_20_MS_24_KHZ),
{
    let mut frame: [T; FRAME_SIZE_20_MS_24_KHZ] = array_fill_for_copy_types(zero());
    let mut i: usize = 0;
    while i < FRAME_SIZE_20_MS_24_KHZ
        invariant
            i <= FRAME_SIZE_20_MS_24_KHZ,
            start <= MAX_PITCH_24_KHZ,
            forall|k: int| 0 <= k < i ==> frame@[k] == buffer@[start + k],
        decreases FRAME_SIZE_20_MS_24_KHZ - i,
    {
        frame[i] = buffer[start + i];
        i = i + 1;
    }
    assert(frame@ =~= buffer@.subrange(start as int, start + FRAME_SIZE_20_MS_24_KHZ));
    frame
}

/// Puts the features together.
fn assemble<T: Real>(features: &SpectralFeatures<T>, pitch: T) -> (vector: [T;
    FEATURE_VECTOR_SIZE])
    ensures
        vector@ == assembled(*features, pitch),
{
    let mut vector: [T; FEATURE_VECTOR_SIZE] = array_fill_for_copy_types(pitch);
    let mut i: usize = 0;
    while i < NUM_LOWER_BANDS
        invariant
            i <= NUM_LOWER_BANDS,
            forall|k: int| 0 <= k < i ==> vector@[k] == features.average@[k],
            forall|k: int| 0 <= k < i ==> vector@[22 + k] == features.first_derivative@[k],
            forall|k: int| 0 <= k < i ==> vector@[28 + k] == features.second_derivative@[k],
            forall|k: int| 0 <= k < i ==> vector@[34 + k] == features.bands_cross_corr@[k],
            vector@[40] == pitch,
        decreases NUM_LOWER_BANDS - i,
    {
        vector[i] = features.average[i];
        vector[22 + i] = features.first_derivative[i];
        vector[28 + i] = features.second_derivative[i];
        vector[34 + i] = features.bands_cross_corr[i];
        i = i + 1;
    }
    let ghost lower = vector@;
    i = 0;
    while i < NUM_HIGHER_BANDS
        invariant
            i <= NUM_HIGHER_BANDS,
            forall|k: int| 0 <= k < i ==> vector@[6 + k] == features.higher_bands_cepstrum@[k],
            forall|k: int| 0 <= k < 6 || 22 <= k < FEATURE_VECTOR_SIZE ==> vector@[k] == lower[k],
        decreases NUM_HIGHER_BANDS - i,
    {
        vector[6 + i] = features.higher_bands_cepstrum[i];
        i = i + 1;
    }
    vector[41] = features.variability;
    let ghost wanted = assembled(*features, pitch);
    assert(wanted.len() == FEATURE_VECTOR_SIZE);
    assert forall|k: int| 0 <= k < FEATURE_VECTOR_SIZE implies vector@[k] == wanted[k] by {
        if k < 6 {
            assert(wanted[k] == features.average@[k]);
            assert(lower[k] == features.average@[k]);
            assert(vector@[k] == lower[k]);
        } else if k < 22 {
            assert(wanted[k] == features.higher_bands_cepstrum@[k - 6]);
            assert(vector@[6 + (k - 6)] == features.higher_bands_cepstrum@[k - 6]);
        } else if k < 28 {
            assert(wanted[k] == features.first_derivative@[k - 22]);
            assert(lower[22 + (k - 22)] == features.first_derivative@[k - 22]);
            assert(vector@[k] == lower[k]);
        } else if k < 34 {
            assert(wanted[k] == features.second_derivative@[k - 28]);
            assert(lower[28 + (k - 28)] == features.second_derivative@[k - 28]);
            assert(vector@[k] == lower[k]);
        } else if k < 40 {
            assert(wanted[k] == features.bands_cross_corr@[k - 34]);
            assert(lower[34 + (k - 34)] == features.bands_cross_corr@[k - 34]);
            assert(vector@[k] == lower[k]);
        } else if k == 40 {
            assert(wanted[40] == pitch);
            assert(vector@[40] == lower[40]);
        } else {
            assert(wanted[41] == features.variability);
            assert(k == 41);
            assert(vector@[41] == features.variability);
        }
    }
    assert(vector@ =~= wanted);
    vector
}

} // verus!
