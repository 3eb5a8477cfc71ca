use aec3::audio_processing::agc2::biquad_filter::Config;
use aec3::audio_processing::agc2::rnn_vad::auto_correlation::{AutoCorrelationCalculator, FFT_FRAME_SIZE};
use aec3::audio_processing::agc2::rnn_vad::common::{
    BUF_SIZE_24_KHZ, FEATURE_VECTOR_SIZE, FRAME_SIZE_10_MS_24_KHZ, FRAME_SIZE_20_MS_24_KHZ,
    INITIAL_MIN_PITCH_24_KHZ, MAX_PITCH_24_KHZ, SAMPLE_RATE_24_KHZ,
};
use aec3::audio_processing::agc2::rnn_vad::features_extraction::{FeatureParameters, FeaturesExtractor, Transforms};
use aec3::audio_processing::agc2::rnn_vad::lp_residual::LpcParameters;
use aec3::audio_processing::agc2::rnn_vad::pitch_search_internal::PitchSearchParameters;
use aec3::audio_processing::agc2::rnn_vad::spectral_features::{
    compute_scaled_half_vorbis_window, SpectralFeatureParameters,
};
use aec3::audio_processing::agc2::rnn_vad::spectral_features_internal::{
    compute_dct_table, get_opus_scale_num_bins_24khz_20ms, LogSpectrumParameters,
    TrigonometricFunctions, DCT_TABLE_SIZE, NUM_BINS,
};
use num_complex::Complex32;
use rustfft::FftPlanner;
use std::f32::consts::PI;

const LPC: LpcParameters<f32> = LpcParameters {
    noise_floor: 1.0001,
    lag_reduction: [0.000064, 0.000256, 0.000576, 0.001024],
    min_error: 1e-6,
    error_share: 0.001,
    decay: [0.9, 0.9 * 0.9, 0.9 * 0.9 * 0.9, 0.9 * 0.9 * 0.9 * 0.9],
    tilt: 0.8,
};

const PITCH_SEARCH: PitchSearchParameters<f32> = PitchSearchParameters {
    one: 1.0,
    half: 0.5,
    interpolation_slope: 0.7,
    initial_share: 0.7,
    least_strength: 0.3,
    short_initial_share: 0.85,
    short_least_strength: 0.4,
};

const LOG_SPECTRUM: LogSpectrumParameters<f32> = LogSpectrumParameters {
    floor: 1e-2,
    log_floor: -2.0,
    max_drop: 7.0,
    max_decay: 1.5,
};

/// The share of each bin that the upper of its two bands has.
fn band_weights() -> [f32; NUM_BINS] {
    let mut weights = [0.0f32; NUM_BINS];
    let mut k = 0;
    for size in get_opus_scale_num_bins_24khz_20ms() {
        for i in 0..size {
            weights[k] = i as f32 / size as f32;
            k += 1;
        }
    }
    weights
}

fn trigonometry() -> TrigonometricFunctions<
    f64,
    impl Fn(usize) -> f64,
    impl Fn(f64) -> f64,
    impl Fn(f64) -> f64,
> {
    TrigonometricFunctions {
        half: 0.5,
        pi: std::f64::consts::PI,
        number: |n: usize| n as f64,
        sine: |v: f64| v.sin(),
        cosine: |v: f64| v.cos(),
    }
}

fn dct_table() -> [f32; DCT_TABLE_SIZE] {
    compute_dct_table(&trigonometry(), &|v: f64| v as f32, 0.5f64.sqrt() as f32)
}

fn spectral_parameters() -> SpectralFeatureParameters<f32> {
    SpectralFeatureParameters {
        log_spectrum: LOG_SPECTRUM,
        dct_table: dct_table(),
        dct_scale: 0.301_511_35,
        half_window: compute_scaled_half_vorbis_window(
            &trigonometry(),
            &|v: f64| v as f32,
            1.0 / FRAME_SIZE_20_MS_24_KHZ as f32,
        ),
        silence_threshold: 0.04,
        two: 2.0,
        cepstrum_offsets: (12.0, 4.0),
        correlation_offsets: (1.3, 0.9),
        energy_floor: 0.001,
        max_distance: f32::MAX,
        history_size: 8.0,
        variability_offset: 2.1,
    }
}

/// The real and the imaginary parts of the lower half of a frame's spectrum.
fn spectrum(frame: [f32; FRAME_SIZE_20_MS_24_KHZ]) -> ([f32; NUM_BINS], [f32; NUM_BINS]) {
    let forward = FftPlanner::<f32>::new().plan_fft_forward(FRAME_SIZE_20_MS_24_KHZ);
    let mut buffer: Vec<Complex32> = frame.iter().map(|v| Complex32::new(*v, 0.0)).collect();
    forward.process(&mut buffer);
    let mut re = [0.0f32; NUM_BINS];
    let mut im = [0.0f32; NUM_BINS];
    for k in 0..NUM_BINS {
        re[k] = buffer[k].re;
        im[k] = buffer[k].im;
    }
    (re, im)
}

/// The circular convolution of two frames, by their spectra.
fn convolve(
    (x, h): ([f32; FFT_FRAME_SIZE], [f32; FFT_FRAME_SIZE]),
) -> [f32; FFT_FRAME_SIZE] {
    let mut planner = FftPlanner::<f32>::new();
    let forward = planner.plan_fft_forward(FFT_FRAME_SIZE);
    let inverse = planner.plan_fft_inverse(FFT_FRAME_SIZE);
    let mut x: Vec<Complex32> = x.iter().map(|v| Complex32::new(*v, 0.0)).collect();
    let mut h: Vec<Complex32> = h.iter().map(|v| Complex32::new(*v, 0.0)).collect();
    forward.process(&mut x);
    forward.process(&mut h);
    let mut product: Vec<Complex32> = x.iter().zip(h.iter()).map(|(a, b)| a * b).collect();
    inverse.process(&mut product);
    let mut out = [0.0f32; FFT_FRAME_SIZE];
    for (o, p) in out.iter_mut().zip(product.iter()) {
        *o = p.re / FFT_FRAME_SIZE as f32;
    }
    out
}

type Frame = [f32; FFT_FRAME_SIZE];

fn parameters() -> FeatureParameters<f32> {
    FeatureParameters {
        high_pass_filter: Config {
            b: [0.99446179, -1.98892358, 0.99446179],
            a: [-1.98889291, 0.98895425],
        },
        lpc: LPC,
        pitch_search: PITCH_SEARCH,
        spectral: spectral_parameters(),
        band_weights: band_weights(),
        pitch_center: 300.0,
        pitch_scale: 0.01,
    }
}

fn transforms() -> Transforms<
    impl Fn([f32; FRAME_SIZE_20_MS_24_KHZ]) -> ([f32; NUM_BINS], [f32; NUM_BINS]),
    impl Fn((Frame, Frame)) -> Frame,
    impl Fn(f32) -> f32,
    impl Fn(f32) -> f32,
    impl Fn(i32) -> f32,
> {
    Transforms {
        spectrum,
        auto_correlation: AutoCorrelationCalculator::new(convolve),
        log10: |v: f32| v.log10(),
        root: |v: f32| v.sqrt(),
        number: |n: i32| n as f32,
    }
}

const NUM_TEST_DATA_FRAMES: usize =
    (BUF_SIZE_24_KHZ + FRAME_SIZE_10_MS_24_KHZ - 1) / FRAME_SIZE_10_MS_24_KHZ;
const NUM_TEST_DATA_SIZE: usize = NUM_TEST_DATA_FRAMES * FRAME_SIZE_10_MS_24_KHZ;

fn pitch_is_valid(pitch_hz: f32) -> bool {
    let pitch_period = SAMPLE_RATE_24_KHZ as f32 / pitch_hz;
    let initial_min_pitch_24khz = INITIAL_MIN_PITCH_24_KHZ as f32;
    let max_pitch_24khz = MAX_PITCH_24_KHZ as f32;
    initial_min_pitch_24khz <= pitch_period && pitch_period <= max_pitch_24khz
}

fn create_pure_tone(amplitude: f32, freq_hz: f32, dst: &mut [f32]) {
    for (i, s) in dst.iter_mut().enumerate() {
        *s = amplitude * (2.0 * PI * freq_hz * i as f32 / SAMPLE_RATE_24_KHZ as f32).sin();
    }
}

fn feed_test_data(
    features_extractor: &mut FeaturesExtractor<f32>,
    samples: &[f32],
    feature_vector: &mut [f32; FEATURE_VECTOR_SIZE],
) -> bool {
    let num_frames = samples.len() / FRAME_SIZE_10_MS_24_KHZ;
    let mut is_silence = true;
    for i in 0..num_frames {
        let start = i * FRAME_SIZE_10_MS_24_KHZ;
        let end = start + FRAME_SIZE_10_MS_24_KHZ;
        let frame: [f32; FRAME_SIZE_10_MS_24_KHZ] =
            samples[start..end].try_into().expect("frame shape");
        is_silence = features_extractor.check_silence_compute_features(
            &frame,
            feature_vector,
            &transforms(),
        );
    }
    is_silence
}

#[test]
fn feature_extraction_low_high_pitch() {
    let amplitude = 1000.0f32;
    let low_pitch_hz = 150.0f32;
    let high_pitch_hz = 250.0f32;
    assert!(pitch_is_valid(low_pitch_hz));
    assert!(pitch_is_valid(high_pitch_hz));

    let mut features_extractor = FeaturesExtractor::new(parameters());
    let mut samples = vec![0.0f32; NUM_TEST_DATA_SIZE];
    let mut feature_vector = [0.0f32; FEATURE_VECTOR_SIZE];

    let pitch_feature_index = FEATURE_VECTOR_SIZE - 2;

    create_pure_tone(amplitude, low_pitch_hz, &mut samples);
    assert!(!feed_test_data(&mut features_extractor, &samples, &mut feature_vector));
    let high_pitch_period = feature_vector[pitch_feature_index];

    features_extractor.reset();
    create_pure_tone(amplitude, high_pitch_hz, &mut samples);
    assert!(!feed_test_data(&mut features_extractor, &samples, &mut feature_vector));
    let low_pitch_period = feature_vector[pitch_feature_index];

    assert!(
        low_pitch_period < high_pitch_period,
        "expected low_pitch_period < high_pitch_period, got low_pitch_period={}, high_pitch_period={}",
        low_pitch_period,
        high_pitch_period
    );
}

#[test]
fn silence_writes_the_pitch_only() {
    let mut features_extractor = FeaturesExtractor::new(parameters());
    let mut feature_vector = [-9999.0f32; FEATURE_VECTOR_SIZE];
    let silent = features_extractor.check_silence_compute_features(
        &[0.0; FRAME_SIZE_10_MS_24_KHZ],
        &mut feature_vector,
        &transforms(),
    );
    assert!(silent);
    for (i, v) in feature_vector.iter().enumerate() {
        assert_eq!(*v != -9999.0, i == FEATURE_VECTOR_SIZE - 2);
    }
}
