use aec3::audio_processing::agc2::rnn_vad::rnn_fc::{
    get_scaled_params, preprocess_weights, ActivationFunction, FullyConnectedLayer,
};

fn scale(weight: i8) -> f32 {
    weight as f32 / 256.0
}

#[test]
fn preprocess_weights_output_size_one_keeps_layout() {
    let in_weights = [10i8, -20, 30, -40];
    let w = preprocess_weights(&in_weights, 1, &scale);
    assert_eq!(w.len(), in_weights.len());
    for (i, &x) in in_weights.iter().enumerate() {
        assert!((w[i] - (x as f32 * 1.0 / 256.0)).abs() < 1e-6);
    }
}

#[test]
fn layer_size_accessors_match_ctor() {
    let fc: FullyConnectedLayer<f32> = FullyConnectedLayer::new(
        2,
        2,
        &[1, 2],
        &[1, 2, 3, 4],
        ActivationFunction::SigmoidApproximated,
        &scale,
    );

    assert_eq!(2, fc.input_size());
    assert_eq!(2, fc.size());
    assert_eq!(2, fc.output().len());
    assert_eq!(2, fc.data().len());
}

#[test]
fn weights_are_turned_round() {
    // Three inputs, two outputs.
    let w = preprocess_weights(&[1, 2, 3, 4, 5, 6], 2, &|v: i8| v as f32);
    assert_eq!(w, vec![1.0, 3.0, 5.0, 2.0, 4.0, 6.0]);
    assert_eq!(get_scaled_params(&[-128, 64], &scale), vec![-0.5, 0.25]);
}

#[test]
fn outputs_are_the_activated_sums() {
    let mut fc: FullyConnectedLayer<f32> = FullyConnectedLayer::new(
        3,
        2,
        &[1, -2],
        &[1, 2, 3, 4, 5, 6],
        ActivationFunction::TansigApproximated,
        &|v: i8| v as f32,
    );
    fc.compute_output(&[1.0, 10.0, 100.0], &|v: f32| 2.0 * v, &|v: f32| -v);
    assert_eq!(fc.output(), [2.0 * 532.0, 2.0 * 640.0]);
}
