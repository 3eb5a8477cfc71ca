use aec3::audio_processing::agc2::rnn_vad::common::{
    CEPSTRAL_COEFFS_HISTORY_SIZE, FRAME_SIZE_20_MS_24_KHZ, NUM_BANDS, NUM_LOWER_BANDS,
};
use aec3::audio_processing::agc2::rnn_vad::spectral_features::{
    apply_window, compute_scaled_half_vorbis_window, interleave, SpectralFeatureParameters,
    SpectralFeaturesExtractor,
};
use aec3::audio_processing::agc2::rnn_vad::spectral_features_internal::{
    compute_dct_table, get_opus_scale_num_bins_24khz_20ms, LogSpectrumParameters,
    TrigonometricFunctions, DCT_TABLE_SIZE, NUM_BINS,
};
use num_complex::Complex32;
use rustfft::FftPlanner;

const LOG_SPECTRUM: LogSpectrumParameters<f32> = LogSpectrumParameters {
    floor: 1e-2,
    log_floor: -2.0,
    max_drop: 7.0,
    max_decay: 1.5,
};

/// The share of each bin that the upper of its two bands has.
fn band_weights() -> [f32; NUM_BINS] {
    let mut weights = [0.0f32; NUM_BINS];
    let mut k = 0;
    for size in get_opus_scale_num_bins_24khz_20ms() {
        for i in 0..size {
            weights[k] = i as f32 / size as f32;
            k += 1;
        }
    }
    weights
}

fn trigonometry() -> TrigonometricFunctions<
    f64,
    impl Fn(usize) -> f64,
    impl Fn(f64) -> f64,
    impl Fn(f64) -> f64,
> {
    TrigonometricFunctions {
        half: 0.5,
        pi: std::f64::consts::PI,
        number: |n: usize| n as f64,
        sine: |v: f64| v.sin(),
        cosine: |v: f64| v.cos(),
    }
}

fn dct_table() -> [f32; DCT_TABLE_SIZE] {
    compute_dct_table(&trigonometry(), &|v: f64| v as f32, 0.5f64.sqrt() as f32)
}

fn spectral_parameters() -> SpectralFeatureParameters<f32> {
    SpectralFeatureParameters {
        log_spectrum: LOG_SPECTRUM,
        dct_table: dct_table(),
        dct_scale: 0.301_511_35,
        half_window: compute_scaled_half_vorbis_window(
            &trigonometry(),
            &|v: f64| v as f32,
            1.0 / FRAME_SIZE_20_MS_24_KHZ as f32,
        ),
        silence_threshold: 0.04,
        two: 2.0,
        cepstrum_offsets: (12.0, 4.0),
        correlation_offsets: (1.3, 0.9),
        energy_floor: 0.001,
        max_distance: f32::MAX,
        history_size: 8.0,
        variability_offset: 2.1,
    }
}

/// The real and the imaginary parts of the lower half of a frame's spectrum.
fn spectrum(frame: [f32; FRAME_SIZE_20_MS_24_KHZ]) -> ([f32; NUM_BINS], [f32; NUM_BINS]) {
    let forward = FftPlanner::<f32>::new().plan_fft_forward(FRAME_SIZE_20_MS_24_KHZ);
    let mut buffer: Vec<Complex32> = frame.iter().map(|v| Complex32::new(*v, 0.0)).collect();
    forward.process(&mut buffer);
    let mut re = [0.0f32; NUM_BINS];
    let mut im = [0.0f32; NUM_BINS];
    for k in 0..NUM_BINS {
        re[k] = buffer[k].re;
        im[k] = buffer[k].im;
    }
    (re, im)
}

const TEST_FEATURE_VECTOR_SIZE: usize = NUM_BANDS + 3 * NUM_LOWER_BANDS + 1;
const INITIAL_FEATURE_VAL: f32 = -9999.0;

fn write_test_data(samples: &mut [f32; FRAME_SIZE_20_MS_24_KHZ]) {
    for (i, v) in samples.iter_mut().enumerate() {
        *v = (i % 100) as f32;
    }
}

/// Computes features, and writes them to the vector unless there is silence.
fn check_silence_compute_features(
    sfe: &mut SpectralFeaturesExtractor<f32>,
    samples: &[f32; FRAME_SIZE_20_MS_24_KHZ],
    feature_vector: &mut [f32; TEST_FEATURE_VECTOR_SIZE],
) -> bool {
    let features = sfe.check_silence_compute_features(
        samples,
        samples,
        &spectrum,
        &|v: f32| v.log10(),
        &|v: f32| v.sqrt(),
    );
    match features {
        Some(features) => {
            let mut all = Vec::new();
            all.extend_from_slice(&features.average);
            all.extend_from_slice(&features.higher_bands_cepstrum);
            all.extend_from_slice(&features.first_derivative);
            all.extend_from_slice(&features.second_derivative);
            all.extend_from_slice(&features.bands_cross_corr);
            all.push(features.variability);
            feature_vector.copy_from_slice(&all);
            false
        }
        None => true,
    }
}

#[test]
fn spectral_features_with_and_without_silence() {
    let mut sfe = SpectralFeaturesExtractor::new(spectral_parameters(), band_weights());
    let mut samples = [0.0f32; FRAME_SIZE_20_MS_24_KHZ];
    let mut feature_vector = [INITIAL_FEATURE_VAL; TEST_FEATURE_VECTOR_SIZE];

    // With silence.
    let is_silence = check_silence_compute_features(&mut sfe, &samples, &mut feature_vector);
    assert!(is_silence);
    assert!(feature_vector.iter().all(|&x| x == INITIAL_FEATURE_VAL));

    // With no silence.
    write_test_data(&mut samples);
    let is_silence = check_silence_compute_features(&mut sfe, &samples, &mut feature_vector);
    assert!(!is_silence);
    assert!(!feature_vector.iter().all(|&x| x == INITIAL_FEATURE_VAL));
}

#[test]
fn cepstral_features_constant_average_zero_derivative() {
    let mut sfe = SpectralFeaturesExtractor::new(spectral_parameters(), band_weights());
    let mut samples = [0.0f32; FRAME_SIZE_20_MS_24_KHZ];
    write_test_data(&mut samples);

    let mut feature_vector = [0.0f32; TEST_FEATURE_VECTOR_SIZE];
    for _ in 0..CEPSTRAL_COEFFS_HISTORY_SIZE {
        check_silence_compute_features(&mut sfe, &samples, &mut feature_vector);
    }

    let mut feature_vector_last = [0.0f32; TEST_FEATURE_VECTOR_SIZE];
    check_silence_compute_features(&mut sfe, &samples, &mut feature_vector_last);

    // Average is unchanged.
    for (a, b) in feature_vector[..NUM_LOWER_BANDS]
        .iter()
        .zip(feature_vector_last[..NUM_LOWER_BANDS].iter())
    {
        assert!((a - b).abs() < 1e-6, "a={a}, b={b}");
    }

    // First and second derivatives are zero.
    let fd_off = NUM_BANDS;
    let sd_off = NUM_BANDS + NUM_LOWER_BANDS;
    for i in 0..NUM_LOWER_BANDS {
        assert!(feature_vector_last[fd_off + i].abs() < 1e-6);
        assert!(feature_vector_last[sd_off + i].abs() < 1e-6);
    }

    // Variability is unchanged.
    let var_idx = NUM_BANDS + 3 * NUM_LOWER_BANDS;
    assert!((feature_vector[var_idx] - feature_vector_last[var_idx]).abs() < 1e-6);
}

#[test]
fn windows_are_mirrored() {
    let half_window = spectral_parameters().half_window;
    let weighted = apply_window(&half_window, &[2.0f32; FRAME_SIZE_20_MS_24_KHZ]);
    for i in 0..NUM_BINS {
        assert_eq!(weighted[i], 2.0 * half_window[i]);
        assert_eq!(weighted[FRAME_SIZE_20_MS_24_KHZ - 1 - i], weighted[i]);
    }
    // The window and its mirror image are complementary in energy.
    let scale = FRAME_SIZE_20_MS_24_KHZ as f32;
    for i in 0..NUM_BINS {
        let (a, b) = (half_window[i] * scale, half_window[NUM_BINS - 1 - i] * scale);
        assert!((a * a + b * b - 1.0).abs() < 1e-5);
    }
}

#[test]
fn interleaving_leaves_out_the_highest_bin() {
    let mut re = [0.0f32; NUM_BINS];
    let mut im = [0.0f32; NUM_BINS];
    for k in 0..NUM_BINS {
        re[k] = 1.0 + k as f32;
        im[k] = -1.0 - k as f32;
    }
    let spectrum = interleave(&re, &im);
    assert_eq!(spectrum[..6], [1.0, 0.0, 2.0, -2.0, 3.0, -3.0]);
}

#[test]
fn reset_forgets_the_history() {
    let mut samples = [0.0f32; FRAME_SIZE_20_MS_24_KHZ];
    write_test_data(&mut samples);
    let mut sfe = SpectralFeaturesExtractor::new(spectral_parameters(), band_weights());
    let mut first = [0.0f32; TEST_FEATURE_VECTOR_SIZE];
    check_silence_compute_features(&mut sfe, &samples, &mut first);
    let mut again = [0.0f32; TEST_FEATURE_VECTOR_SIZE];
    check_silence_compute_features(&mut sfe, &samples, &mut again);
    assert_ne!(first, again);
    sfe.reset();
    check_silence_compute_features(&mut sfe, &samples, &mut again);
    assert_eq!(first, again);
}
