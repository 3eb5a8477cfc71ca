use aec3::audio_processing::agc2::rnn_vad::common::FRAME_SIZE_10_MS_24_KHZ;
use aec3::audio_processing::agc2::rnn_vad::lp_residual::{
    compute_and_post_process_lpc_coefficients, compute_auto_correlation,
    compute_initial_inverse_filter_coefficients, compute_lp_residual, LpcParameters,
    NUM_LPC_COEFFICIENTS,
};

const LPC: LpcParameters<f32> = LpcParameters {
    noise_floor: 1.0001,
    lag_reduction: [0.000064, 0.000256, 0.000576, 0.001024],
    min_error: 1e-6,
    error_share: 0.001,
    decay: [0.9, 0.9 * 0.9, 0.9 * 0.9 * 0.9, 0.9 * 0.9 * 0.9 * 0.9],
    tilt: 0.8,
};

#[test]
fn lp_residual_of_empty_frame() {
    let empty_frame = [0.0f32; FRAME_SIZE_10_MS_24_KHZ];
    let mut lpc = [0.0f32; NUM_LPC_COEFFICIENTS];
    compute_and_post_process_lpc_coefficients(&LPC, &empty_frame, &mut lpc);

    let mut lp_residual = [0.0f32; FRAME_SIZE_10_MS_24_KHZ];
    compute_lp_residual(&lpc, &empty_frame, &mut lp_residual);

    assert!(lpc.iter().all(|v| *v == 0.0));
    assert!(lp_residual.iter().all(|v| *v == 0.0));
}

#[test]
fn lp_residual_in_place_matches_out_of_place() {
    let mut x = [0.0f32; 64];
    for (i, s) in x.iter_mut().enumerate() {
        *s = ((i as f32) * 0.07).sin();
    }

    let mut lpc = [0.0f32; NUM_LPC_COEFFICIENTS];
    compute_and_post_process_lpc_coefficients(&LPC, &x, &mut lpc);

    let mut out = [0.0f32; 64];
    compute_lp_residual(&lpc, &x, &mut out);

    let mut in_place = x;
    let snapshot = in_place;
    compute_lp_residual(&lpc, &snapshot, &mut in_place);

    for (a, b) in out.iter().zip(in_place.iter()) {
        assert!((a - b).abs() < 1e-6, "a={a}, b={b}");
    }
}

#[test]
fn residual_is_the_signal_plus_its_weighted_past() {
    let lpc = [0.5f64, -0.25, 2.0, 1.0, -1.0];
    let x = [1.0f64, 2.0, 3.0, 4.0, 5.0, 6.0, 7.0];
    let mut y = [0.0; 7];
    compute_lp_residual(&lpc, &x, &mut y);
    assert_eq!(y, [1.0, 2.5, 3.75, 7.0, 11.25, 14.5, 17.75]);
}

#[test]
fn auto_correlation_has_one_value_per_lag() {
    let x = [1.0f64, 2.0, 3.0, 4.0, 5.0, 6.0];
    let mut auto_corr = [0.0; NUM_LPC_COEFFICIENTS];
    compute_auto_correlation(&x, &mut auto_corr);
    assert_eq!(auto_corr, [91.0, 70.0, 50.0, 32.0, 17.0]);
}

#[test]
fn prediction_of_an_exponential_needs_one_coefficient() {
    let parameters = LpcParameters::<f64> {
        noise_floor: 1.0,
        lag_reduction: [0.0; 4],
        min_error: 1e-6,
        error_share: 0.001,
        decay: [1.0; 4],
        tilt: 0.0,
    };
    let coeffs = compute_initial_inverse_filter_coefficients(
        &parameters,
        &[1.0, 0.5, 0.25, 0.125, 0.0625],
    );
    assert_eq!(coeffs, [-0.5, 0.0, 0.0, 0.0]);
}
