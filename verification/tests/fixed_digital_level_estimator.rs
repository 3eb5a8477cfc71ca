use aec3::audio_processing::agc2::agc2_common::{FRAME_DURATION_MS, SUB_FRAMES_IN_FRAME};
use aec3::audio_processing::agc2::fixed_digital_level_estimator::{FixedDigitalLevelEstimator, LevelEstimatorParameters};

const MAX_ABS_FLOAT_S16_VALUE: f32 = 32768.0;

fn estimator(samples_per_channel: usize) -> FixedDigitalLevelEstimator<f32> {
    FixedDigitalLevelEstimator::new(
        samples_per_channel,
        LevelEstimatorParameters {
            one: 1.0,
            attack_filter_constant: 0.0,
            decay_filter_constant: 0.9971259,
        },
    )
}

const INPUT_LEVEL: f32 = 10000.0;
const DECAY_MS: f32 = 20.0;

fn sample_rate_to_default_channel_size(sample_rate_hz: usize) -> usize {
    sample_rate_hz / 100
}

fn db_to_ratio(v: f32) -> f32 {
    10.0f32.powf(v / 20.0)
}

fn dbfs_to_float_s16(v: f32) -> f32 {
    db_to_ratio(v) * MAX_ABS_FLOAT_S16_VALUE
}

// Run audio at specified settings through the level estimator and verify bounds.
fn test_level_estimator(
    samples_per_channel: usize,
    num_channels: usize,
    input_level_linear_scale: f32,
    expected_min: f32,
    expected_max: f32,
) {
    let mut level_estimator = estimator(samples_per_channel);
    let vectors_with_float_frame =
        vec![vec![input_level_linear_scale; samples_per_channel]; num_channels];

    for i in 0..500 {
        let channel_views = &vectors_with_float_frame;
        let level = level_estimator.compute_level(channel_views);

        if i < 50 {
            continue;
        }

        for &x in &level {
            assert!(expected_min <= x, "expected_min={expected_min}, got={x}");
            assert!(x <= expected_max, "expected_max={expected_max}, got={x}");
        }
    }
}

// Returns time for level estimator to decrease its level estimate by `level_reduction_db`.
fn time_ms_to_decrease_level(
    samples_per_channel: usize,
    num_channels: usize,
    input_level_db: f32,
    level_reduction_db: f32,
) -> f32 {
    let input_level = dbfs_to_float_s16(input_level_db);
    assert!(level_reduction_db > 0.0);

    let vectors_with_float_frame =
        vec![vec![input_level; samples_per_channel]; num_channels];

    let mut level_estimator = estimator(samples_per_channel);

    // Give estimator plenty of time to ramp up and stabilize.
    let mut last_level = 0.0f32;
    for _ in 0..500 {
        let channel_views = &vectors_with_float_frame;
        let level_envelope = level_estimator.compute_level(channel_views);
        last_level = *level_envelope.last().expect("subframes are non-empty");
    }

    // Set input to 0.
    let vectors_with_zero_float_frame =
        vec![vec![0.0f32; samples_per_channel]; num_channels];

    let reduced_level_linear = dbfs_to_float_s16(input_level_db - level_reduction_db);
    let mut sub_frames_until_level_reduction = 0i32;
    while last_level > reduced_level_linear {
        let channel_views = &vectors_with_zero_float_frame;
        let level_envelope = level_estimator.compute_level(channel_views);
        for &v in &level_envelope {
            assert!(v < last_level);
            sub_frames_until_level_reduction += 1;
            last_level = v;
            if last_level <= reduced_level_linear {
                break;
            }
        }
    }

    sub_frames_until_level_reduction as f32
        * FRAME_DURATION_MS as f32
        / SUB_FRAMES_IN_FRAME as f32
}

#[test]
fn estimator_should_not_crash() {
    test_level_estimator(
        sample_rate_to_default_channel_size(8000),
        1,
        0.0,
        f32::MIN,
        f32::MAX,
    );
}

#[test]
fn estimator_should_estimate_constant_level() {
    test_level_estimator(
        sample_rate_to_default_channel_size(10000),
        1,
        INPUT_LEVEL,
        INPUT_LEVEL * 0.99,
        INPUT_LEVEL * 1.01,
    );
}

#[test]
fn estimator_should_estimate_constant_level_for_many_channels() {
    const NUM_CHANNELS: usize = 10;
    test_level_estimator(
        sample_rate_to_default_channel_size(20000),
        NUM_CHANNELS,
        INPUT_LEVEL,
        INPUT_LEVEL * 0.99,
        INPUT_LEVEL * 1.01,
    );
}

#[test]
fn time_to_decrease_for_low_level() {
    const LEVEL_REDUCTION_DB: f32 = 25.0;
    const INITIAL_LOW_LEVEL: f32 = -40.0;
    const EXPECTED_TIME: f32 = LEVEL_REDUCTION_DB * DECAY_MS;

    let time_to_decrease = time_ms_to_decrease_level(
        sample_rate_to_default_channel_size(22000),
        1,
        INITIAL_LOW_LEVEL,
        LEVEL_REDUCTION_DB,
    );

    assert!(EXPECTED_TIME * 0.9 <= time_to_decrease);
    assert!(time_to_decrease <= EXPECTED_TIME * 1.1);
}

#[test]
fn time_to_decrease_for_full_scale_level() {
    const LEVEL_REDUCTION_DB: f32 = 25.0;
    const EXPECTED_TIME: f32 = LEVEL_REDUCTION_DB * DECAY_MS;

    let time_to_decrease = time_ms_to_decrease_level(
        sample_rate_to_default_channel_size(26000),
        1,
        0.0,
        LEVEL_REDUCTION_DB,
    );

    assert!(EXPECTED_TIME * 0.9 <= time_to_decrease);
    assert!(time_to_decrease <= EXPECTED_TIME * 1.1);
}

#[test]
fn time_to_decrease_for_multiple_channels() {
    const LEVEL_REDUCTION_DB: f32 = 25.0;
    const EXPECTED_TIME: f32 = LEVEL_REDUCTION_DB * DECAY_MS;
    const NUM_CHANNELS: usize = 10;

    let time_to_decrease = time_ms_to_decrease_level(
        sample_rate_to_default_channel_size(28000),
        NUM_CHANNELS,
        0.0,
        LEVEL_REDUCTION_DB,
    );

    assert!(EXPECTED_TIME * 0.9 <= time_to_decrease);
    assert!(time_to_decrease <= EXPECTED_TIME * 1.1);
}

#[test]
fn louder_sub_frame_is_foretold_by_one() {
    let mut level_estimator = estimator(80);
    let mut channel = vec![0.0f32; 80];
    channel[9] = -500.0;
    let levels = level_estimator.compute_level(&[channel]);
    // Sub frames of four samples; the third is the loud one.
    assert_eq!(levels[0], 0.0);
    assert_eq!(levels[1], 500.0);
    assert_eq!(levels[2], 500.0);
    assert!(levels[3] < 500.0);
    assert_eq!(level_estimator.last_audio_level(), levels[19]);
    level_estimator.reset();
    assert_eq!(level_estimator.last_audio_level(), 0.0);
    level_estimator.set_samples_per_channel(160);
    let levels = level_estimator.compute_level(&[vec![7.0f32; 160]]);
    assert_eq!(levels[19], 7.0);
}
