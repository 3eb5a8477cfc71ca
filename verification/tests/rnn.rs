use aec3::audio_processing::agc2::rnn_vad::common::FEATURE_VECTOR_SIZE;
use aec3::audio_processing::agc2::rnn_vad::rnn::RnnVad;
use aec3::audio_processing::agc2::rnn_vad::rnn_fc::{ActivationFunction, FullyConnectedLayer};
use aec3::audio_processing::agc2::rnn_vad::rnn_gru::GatedRecurrentLayer;

/// The hyperbolic tangent, from samples of it and its slope there.
fn tansig(x: f32) -> f32 {
    if !(x < 8.0) {
        return 1.0;
    }
    if !(x > -8.0) {
        return -1.0;
    }
    let sign = if x < 0.0 { -1.0 } else { 1.0 };
    let x = x.abs();
    let i = (0.5 + 25.0 * x).floor();
    let d = x - 0.04 * i;
    let y = (0.04 * i as f64).tanh() as f32;
    sign * (y + d * (1.0 - y * y) * (1.0 - y * d))
}

fn sigmoid(x: f32) -> f32 {
    0.5 + 0.5 * tansig(0.5 * x)
}

fn scale(weight: i8) -> f32 {
    weight as f32 / 256.0
}

/// Weights of every size, the same in each run.
fn weights(len: usize, seed: u32) -> Vec<i8> {
    let mut state = seed;
    (0..len)
        .map(|_| {
            state = state.wrapping_mul(1664525).wrapping_add(1013904223);
            (state >> 24) as u8 as i8
        })
        .collect()
}

fn network() -> RnnVad<f32> {
    let input = FullyConnectedLayer::new(
        FEATURE_VECTOR_SIZE,
        24,
        &weights(24, 1),
        &weights(FEATURE_VECTOR_SIZE * 24, 2),
        ActivationFunction::TansigApproximated,
        &scale,
    );
    let hidden = GatedRecurrentLayer::new(
        24,
        24,
        &weights(72, 3),
        &weights(24 * 72, 4),
        &weights(24 * 72, 5),
        &scale,
        1.0,
    );
    let output = FullyConnectedLayer::new(
        24,
        1,
        &weights(1, 6),
        &weights(24, 7),
        ActivationFunction::SigmoidApproximated,
        &scale,
    );
    RnnVad::new(input, hidden, output)
}

const FEATURES: [f32; FEATURE_VECTOR_SIZE] = [
    -1.00131,
    -0.627069,
    -7.81097,
    7.86285,
    -2.87145,
    3.32365,
    -0.653161,
    0.529839,
    -0.425307,
    0.25583,
    0.235094,
    0.230527,
    -0.144687,
    0.182785,
    0.57102,
    0.125039,
    0.479482,
    -0.0255439,
    -0.0073141,
    -0.147346,
    -0.217106,
    -0.0846906,
    -8.34943,
    3.09065,
    1.42628,
    -0.85235,
    -0.220207,
    -0.811163,
    2.09032,
    -2.01425,
    -0.690268,
    -0.925327,
    -0.541354,
    0.58455,
    -0.606726,
    -0.0372358,
    0.565991,
    0.435854,
    0.420812,
    0.162198,
    -2.13,
    10.0089,
];

fn warm_up_rnn_vad(rnn_vad: &mut RnnVad<f32>) {
    for _ in 0..10 {
        rnn_vad.compute_vad_probability(&FEATURES, false, &tansig, &sigmoid);
    }
}

#[test]
fn check_zero_probability_with_silence() {
    let mut rnn_vad = network();
    warm_up_rnn_vad(&mut rnn_vad);
    assert_eq!(0.0, rnn_vad.compute_vad_probability(&FEATURES, true, &tansig, &sigmoid));
}

#[test]
fn check_rnn_vad_reset() {
    let mut rnn_vad = network();
    warm_up_rnn_vad(&mut rnn_vad);
    let pre = rnn_vad.compute_vad_probability(&FEATURES, false, &tansig, &sigmoid);
    rnn_vad.reset();
    warm_up_rnn_vad(&mut rnn_vad);
    let post = rnn_vad.compute_vad_probability(&FEATURES, false, &tansig, &sigmoid);
    assert_eq!(pre, post);
}

#[test]
fn check_rnn_vad_silence() {
    let mut rnn_vad = network();
    warm_up_rnn_vad(&mut rnn_vad);
    let pre = rnn_vad.compute_vad_probability(&FEATURES, false, &tansig, &sigmoid);
    rnn_vad.compute_vad_probability(&FEATURES, true, &tansig, &sigmoid);
    warm_up_rnn_vad(&mut rnn_vad);
    let post = rnn_vad.compute_vad_probability(&FEATURES, false, &tansig, &sigmoid);
    assert_eq!(pre, post);
}

#[test]
fn probability_depends_on_the_past() {
    let mut rnn_vad = network();
    let first = rnn_vad.compute_vad_probability(&FEATURES, false, &tansig, &sigmoid);
    let second = rnn_vad.compute_vad_probability(&FEATURES, false, &tansig, &sigmoid);
    assert_ne!(first, second);
    assert!(0.0 < first && first < 1.0);
}
