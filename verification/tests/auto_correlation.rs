use aec3::audio_processing::agc2::rnn_vad::auto_correlation::{
    AutoCorrelationCalculator, CONVOLUTION_LENGTH, FFT_FRAME_SIZE,
};
use aec3::audio_processing::agc2::rnn_vad::common::{BUF_SIZE_12_KHZ, FRAME_SIZE_20_MS_12_KHZ, NUM_LAGS_12_KHZ};
use num_complex::Complex32;
use rustfft::FftPlanner;

/// The circular convolution of two frames, by their spectra.
fn convolve(
    (x, h): ([f32; FFT_FRAME_SIZE], [f32; FFT_FRAME_SIZE]),
) -> [f32; FFT_FRAME_SIZE] {
    let mut planner = FftPlanner::<f32>::new();
    let forward = planner.plan_fft_forward(FFT_FRAME_SIZE);
    let inverse = planner.plan_fft_inverse(FFT_FRAME_SIZE);
    let mut x: Vec<Complex32> = x.iter().map(|v| Complex32::new(*v, 0.0)).collect();
    let mut h: Vec<Complex32> = h.iter().map(|v| Complex32::new(*v, 0.0)).collect();
    forward.process(&mut x);
    forward.process(&mut h);
    let mut product: Vec<Complex32> = x.iter().zip(h.iter()).map(|(a, b)| a * b).collect();
    inverse.process(&mut product);
    let mut out = [0.0f32; FFT_FRAME_SIZE];
    for (o, p) in out.iter_mut().zip(product.iter()) {
        *o = p.re / FFT_FRAME_SIZE as f32;
    }
    out
}

fn direct_auto_correlation(
    pitch_buf: &[f32; BUF_SIZE_12_KHZ],
    out: &mut [f32; NUM_LAGS_12_KHZ],
) {
    // x: fixed tail frame of length CONVOLUTION_LENGTH.
    // y_i: sliding window of same length, i in [0, NUM_LAGS_12_KHZ).
    let x_start = BUF_SIZE_12_KHZ - CONVOLUTION_LENGTH;
    for lag_inv in 0..NUM_LAGS_12_KHZ {
        let mut acc = 0.0f32;
        for n in 0..CONVOLUTION_LENGTH {
            acc += pitch_buf[lag_inv + n] * pitch_buf[x_start + n];
        }
        out[lag_inv] = acc;
    }
}

#[test]
fn check_auto_correlation_on_constant_pitch_buffer() {
    let pitch_buf_decimated = [1.0f32; BUF_SIZE_12_KHZ];
    let mut computed_output = [0.0f32; NUM_LAGS_12_KHZ];

    let auto_corr_calculator = AutoCorrelationCalculator::new(convolve);
    auto_corr_calculator.compute_on_pitch_buffer(&pitch_buf_decimated, &mut computed_output);

    let expected = FRAME_SIZE_20_MS_12_KHZ as f32;
    for &v in &computed_output {
        assert!((v - expected).abs() < 4e-5, "v={v}, expected={expected}");
    }
}

#[test]
fn pitch_buffer_auto_correlation_within_tolerance_against_reference() {
    let mut pitch_buf_decimated = [0.0f32; BUF_SIZE_12_KHZ];
    for (i, v) in pitch_buf_decimated.iter_mut().enumerate() {
        let t = i as f32;
        *v = (0.031 * t).sin() + 0.37 * (0.067 * t).cos() + 0.13 * ((t * 0.011).sin());
    }

    let mut computed_output = [0.0f32; NUM_LAGS_12_KHZ];
    let mut expected_output = [0.0f32; NUM_LAGS_12_KHZ];

    let auto_corr_calculator = AutoCorrelationCalculator::new(convolve);
    auto_corr_calculator.compute_on_pitch_buffer(&pitch_buf_decimated, &mut computed_output);
    direct_auto_correlation(&pitch_buf_decimated, &mut expected_output);

    for (expected, computed) in expected_output.iter().zip(computed_output.iter()) {
        assert!(
            (expected - computed).abs() < 3e-3,
            "expected={expected}, computed={computed}"
        );
    }
}
