use aec3::audio_processing::agc2::rnn_vad::rnn_gru::{preprocess_gru_tensor, GatedRecurrentLayer};

/// The hyperbolic tangent, from samples of it and its slope there.
fn tansig(x: f32) -> f32 {
    if !(x < 8.0) {
        return 1.0;
    }
    if !(x > -8.0) {
        return -1.0;
    }
    let sign = if x < 0.0 { -1.0 } else { 1.0 };
    let x = x.abs();
    let i = (0.5 + 25.0 * x).floor();
    let d = x - 0.04 * i;
    let y = (0.04 * i as f64).tanh() as f32;
    sign * (y + d * (1.0 - y * y) * (1.0 - y * d))
}

fn sigmoid(x: f32) -> f32 {
    0.5 + 0.5 * tansig(0.5 * x)
}

fn scale(weight: i8) -> f32 {
    weight as f32 / 256.0
}

fn expect_near_absolute(expected: &[f32], computed: &[f32], tolerance: f32) {
    assert_eq!(expected.len(), computed.len());
    for (i, (e, c)) in expected.iter().zip(computed.iter()).enumerate() {
        assert!((e - c).abs() <= tolerance, "index={i}, expected={e}, computed={c}");
    }
}

const GRU_INPUT_SIZE: usize = 5;
const GRU_OUTPUT_SIZE: usize = 4;

const GRU_BIAS: [i8; 12] = [96, -99, -81, -114, 49, 119, -118, 68, -76, 91, 121, 125];

const GRU_WEIGHTS: [i8; 60] = [
    // Input 0.
    124, 9, 1, 116, -66, -21, -118, -110, 104, 75, -23, -51,
    // Input 1.
    -72, -111, 47, 93, 77, -98, 41, -8, 40, -23, -43, -107,
    // Input 2.
    9, -73, 30, -32, -2, 64, -26, 91, -48, -24, -28, -104,
    // Input 3.
    74, -46, 116, 15, 32, 52, -126, -38, -121, 12, -16, 110,
    // Input 4.
    -95, 66, -103, -35, -38, 3, -126, -61, 28, 98, -117, -43,
];

const GRU_RECURRENT_WEIGHTS: [i8; 48] = [
    // Output 0.
    -3, 87, 50, 51, -22, 27, -39, 62, 31, -83, -52, -48,
    // Output 1.
    -6, 83, -19, 104, 105, 48, 23, 68, 23, 40, 7, -120,
    // Output 2.
    64, -62, 117, 85, 51, -43, 54, -105, 120, 56, -128, -107,
    // Output 3.
    39, 50, -17, -47, -117, 14, 108, 12, -7, -72, 103, -87,
];

const GRU_INPUT_SEQUENCE: [f32; 20] = [
    0.89395463,
    0.93224651,
    0.55788344,
    0.32341808,
    0.93355054,
    0.13475326,
    0.97370994,
    0.14253306,
    0.93710381,
    0.76093364,
    0.65780413,
    0.41657975,
    0.49403164,
    0.46843281,
    0.75138855,
    0.24517593,
    0.47657707,
    0.57064998,
    0.435184,
    0.19319285,
];

const GRU_EXPECTED_OUTPUT_SEQUENCE: [f32; 16] = [
    0.0239123,
    0.5773077,
    0.0,
    0.0,
    0.01282811,
    0.64330572,
    0.0,
    0.04863098,
    0.00781069,
    0.75267816,
    0.0,
    0.02579715,
    0.00471378,
    0.59162533,
    0.11087593,
    0.01334511,
];

fn test_gated_recurrent_layer(
    gru: &mut GatedRecurrentLayer<f32>,
    input_sequence: &[f32],
    expected_output_sequence: &[f32],
) {
    assert_eq!(0, input_sequence.len() % gru.input_size());
    assert_eq!(0, expected_output_sequence.len() % gru.size());

    let input_sequence_length = input_sequence.len() / gru.input_size();
    let output_sequence_length = expected_output_sequence.len() / gru.size();
    assert_eq!(input_sequence_length, output_sequence_length);

    gru.reset();
    for i in 0..input_sequence_length {
        gru.compute_output(
            &input_sequence[i * gru.input_size()..(i + 1) * gru.input_size()],
            &sigmoid,
        );
        let expected_output = &expected_output_sequence[i * gru.size()..(i + 1) * gru.size()];
        expect_near_absolute(expected_output, gru.output(), 3e-6);
    }
}

#[test]
fn check_gated_recurrent_layer() {
    let mut gru = GatedRecurrentLayer::new(
        GRU_INPUT_SIZE,
        GRU_OUTPUT_SIZE,
        &GRU_BIAS,
        &GRU_WEIGHTS,
        &GRU_RECURRENT_WEIGHTS,
        &scale,
        1.0,
    );
    test_gated_recurrent_layer(
        &mut gru,
        &GRU_INPUT_SEQUENCE,
        &GRU_EXPECTED_OUTPUT_SEQUENCE,
    );
}

#[test]
fn reset_clears_state() {
    let mut gru = GatedRecurrentLayer::new(
        GRU_INPUT_SIZE,
        GRU_OUTPUT_SIZE,
        &GRU_BIAS,
        &GRU_WEIGHTS,
        &GRU_RECURRENT_WEIGHTS,
        &scale,
        1.0,
    );
    gru.compute_output(&GRU_INPUT_SEQUENCE[..GRU_INPUT_SIZE], &sigmoid);
    assert!(gru.output().iter().any(|&x| x != 0.0));
    gru.reset();
    assert!(gru.output().iter().all(|&x| x == 0.0));
}

#[test]
fn tensors_are_turned_round_by_gate() {
    // Two inputs, one output: update, reset, output of each input.
    let tensor = preprocess_gru_tensor(&[1, 2, 3, 4, 5, 6], 1, &|v: i8| v as f32);
    assert_eq!(tensor, vec![1.0, 4.0, 2.0, 5.0, 3.0, 6.0]);
}

#[test]
fn state_follows_the_gates() {
    let mut gru: GatedRecurrentLayer<f32> = GatedRecurrentLayer::new(
        1,
        1,
        &[1, 0, 4],
        &[0, 0, 0],
        &[0, 0, 0],
        &|v: i8| v as f32,
        1.0,
    );
    // With an update gate of one quarter, three quarters of the candidate come in.
    gru.compute_output(&[1.0], &|v: f32| v / 4.0);
    assert_eq!(gru.output(), [3.0]);
    gru.compute_output(&[1.0], &|v: f32| v / 4.0);
    assert_eq!(gru.output(), [3.75]);
    assert_eq!(gru.data(), [3.75]);
}
