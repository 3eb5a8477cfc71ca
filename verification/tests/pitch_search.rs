use aec3::audio_processing::agc2::rnn_vad::auto_correlation::{AutoCorrelationCalculator, FFT_FRAME_SIZE};
use aec3::audio_processing::agc2::rnn_vad::common::{BUF_SIZE_24_KHZ, MAX_PITCH_48_KHZ, MIN_PITCH_48_KHZ};
use aec3::audio_processing::agc2::rnn_vad::pitch_search::PitchEstimator;
use aec3::audio_processing::agc2::rnn_vad::pitch_search_internal::PitchSearchParameters;
use num_complex::Complex32;
use rustfft::FftPlanner;

const PITCH_SEARCH: PitchSearchParameters<f32> = PitchSearchParameters {
    one: 1.0,
    half: 0.5,
    interpolation_slope: 0.7,
    initial_share: 0.7,
    least_strength: 0.3,
    short_initial_share: 0.85,
    short_least_strength: 0.4,
};

/// The circular convolution of two frames, by their spectra.
fn convolve(
    (x, h): ([f32; FFT_FRAME_SIZE], [f32; FFT_FRAME_SIZE]),
) -> [f32; FFT_FRAME_SIZE] {
    let mut planner = FftPlanner::<f32>::new();
    let forward = planner.plan_fft_forward(FFT_FRAME_SIZE);
    let inverse = planner.plan_fft_inverse(FFT_FRAME_SIZE);
    let mut x: Vec<Complex32> = x.iter().map(|v| Complex32::new(*v, 0.0)).collect();
    let mut h: Vec<Complex32> = h.iter().map(|v| Complex32::new(*v, 0.0)).collect();
    forward.process(&mut x);
    forward.process(&mut h);
    let mut product: Vec<Complex32> = x.iter().zip(h.iter()).map(|(a, b)| a * b).collect();
    inverse.process(&mut product);
    let mut out = [0.0f32; FFT_FRAME_SIZE];
    for (o, p) in out.iter_mut().zip(product.iter()) {
        *o = p.re / FFT_FRAME_SIZE as f32;
    }
    out
}

type Frame = [f32; FFT_FRAME_SIZE];

fn calculator() -> AutoCorrelationCalculator<fn((Frame, Frame)) -> Frame> {
    AutoCorrelationCalculator::new(convolve)
}

#[test]
fn pitch_estimate_is_within_valid_range() {
    let mut estimator = PitchEstimator::new(PITCH_SEARCH);
    let mut lp_residual = [0.0f32; BUF_SIZE_24_KHZ];
    for (i, v) in lp_residual.iter_mut().enumerate() {
        *v = (0.022 * i as f32).sin() + 0.19 * (0.055 * i as f32).cos();
    }

    let pitch_period = estimator.estimate(&f32::sqrt, &calculator(), &lp_residual);
    assert!(pitch_period >= MIN_PITCH_48_KHZ as i32);
    assert!(pitch_period <= MAX_PITCH_48_KHZ as i32);
    assert!(estimator.last_pitch_strength_for_testing().is_finite());
}

#[test]
fn pitch_estimator_is_deterministic_for_same_input() {
    let mut estimator = PitchEstimator::new(PITCH_SEARCH);
    let mut lp_residual = [0.0f32; BUF_SIZE_24_KHZ];
    for (i, v) in lp_residual.iter_mut().enumerate() {
        *v = (0.015 * i as f32).sin() + 0.11 * (0.083 * i as f32).cos();
    }

    let p1 = estimator.estimate(&f32::sqrt, &calculator(), &lp_residual);
    let s1 = estimator.last_pitch_strength_for_testing();

    let mut estimator2 = PitchEstimator::new(PITCH_SEARCH);
    let p2 = estimator2.estimate(&f32::sqrt, &calculator(), &lp_residual);
    let s2 = estimator2.last_pitch_strength_for_testing();

    assert_eq!(p1, p2);
    assert!((s1 - s2).abs() < 1e-6, "s1={s1}, s2={s2}");
}

#[test]
fn pitch_search_multi_frame_within_valid_range_and_deterministic() {
    let mut estimator_a = PitchEstimator::new(PITCH_SEARCH);
    let mut estimator_b = PitchEstimator::new(PITCH_SEARCH);

    for frame_idx in 0..300 {
        let mut lp_residual = [0.0f32; BUF_SIZE_24_KHZ];
        let phase = frame_idx as f32 * 0.03;
        for (i, v) in lp_residual.iter_mut().enumerate() {
            let t = i as f32;
            *v = (0.012 * t + phase).sin() + 0.17 * (0.037 * t - 0.4 * phase).cos();
        }

        let p_a = estimator_a.estimate(&f32::sqrt, &calculator(), &lp_residual);
        let s_a = estimator_a.last_pitch_strength_for_testing();

        let p_b = estimator_b.estimate(&f32::sqrt, &calculator(), &lp_residual);
        let s_b = estimator_b.last_pitch_strength_for_testing();

        assert!(
            p_a >= MIN_PITCH_48_KHZ as i32 && p_a <= MAX_PITCH_48_KHZ as i32,
            "frame={frame_idx}, p_a={p_a}"
        );
        assert!(
            p_b >= MIN_PITCH_48_KHZ as i32 && p_b <= MAX_PITCH_48_KHZ as i32,
            "frame={frame_idx}, p_b={p_b}"
        );
        assert!(s_a.is_finite(), "frame={frame_idx}, s_a={s_a}");
        assert!(s_b.is_finite(), "frame={frame_idx}, s_b={s_b}");

        assert_eq!(p_a, p_b, "frame={frame_idx}");
        assert!(
            (s_a - s_b).abs() < 1e-6,
            "frame={frame_idx}, s_a={s_a}, s_b={s_b}"
        );
    }
}
