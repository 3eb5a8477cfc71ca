use aec3::audio_processing::agc2::clipping_predictor::{
    adaptive_step, create_clipping_predictor, lower_level, ClippingPredictor,
    ClippingPredictorConfig, ClippingPredictorMode, LevelFunctions, LevelParameters,
};

fn default_config() -> ClippingPredictorConfig<f32> {
    ClippingPredictorConfig {
        enabled: false,
        mode: ClippingPredictorMode::AdaptiveStepClippingPeakPrediction,
        window_length: 5,
        reference_window_length: 5,
        reference_window_delay: 5,
        clipping_threshold: -1.0,
        crest_factor_margin: 3.0,
    }
}

fn functions() -> LevelFunctions<
    impl Fn(i32) -> f32,
    impl Fn(f32) -> f32,
    impl Fn(f32) -> f32,
    impl Fn(f32) -> i32,
> {
    LevelFunctions {
        number: |n: i32| n as f32,
        log10: |v: f32| v.log10(),
        root: |v: f32| v.sqrt(),
        ceil: |v: f32| v.ceil() as i32,
    }
}

/// A predictor on single precision samples.
struct Predictor(ClippingPredictor<f32>);

impl Predictor {
    fn reset(&mut self) {
        self.0.reset();
    }

    fn analyze(&mut self, frame: &[Vec<f32>]) {
        self.0.analyze(frame, &functions());
    }

    fn estimate_clipped_level_step(
        &self,
        channel: i32,
        level: i32,
        default_step: i32,
        min_mic_level: i32,
        max_mic_level: i32,
    ) -> Option<i32> {
        self.0.estimate_clipped_level_step(
            channel,
            level,
            default_step,
            min_mic_level,
            max_mic_level,
            &functions(),
        )
    }
}

fn create_predictor(num_channels: i32, config: ClippingPredictorConfig<f32>) -> Option<Predictor> {
    create_clipping_predictor(
        num_channels,
        config,
        LevelParameters {
            one: 1.0,
            twenty: 20.0,
            min_level_dbfs: -90.31,
        },
        &|n: i32| n as f32,
        &|v: f32| v as i32,
    )
    .map(Predictor)
}

const SAMPLE_RATE_HZ: usize = 32_000;
const NUM_CHANNELS: i32 = 1;
const SAMPLES_PER_CHANNEL: usize = SAMPLE_RATE_HZ / 100;
const MAX_MIC_LEVEL: i32 = 255;
const MIN_MIC_LEVEL: i32 = 12;
const DEFAULT_CLIPPED_LEVEL_STEP: i32 = 15;
const MAX_SAMPLE_S16: f32 = i16::MAX as f32;

// `20 * log10(0.99)`.
const CLIPPING_THRESHOLD_DB: f32 = -0.08729611;

fn call_analyze(num_calls: i32, frame: &[Vec<f32>], predictor: &mut Predictor) {
    for _ in 0..num_calls {
        predictor.analyze(frame);
    }
}

fn analyze_non_zero_crest_factor_audio(
    num_calls: i32,
    num_channels: i32,
    peak_ratio: f32,
    predictor: &mut Predictor,
) {
    assert!(num_calls > 0);
    assert!(num_channels > 0);
    assert!(peak_ratio <= 1.0);
    let mut audio_data = vec![vec![0.0f32; SAMPLES_PER_CHANNEL]; num_channels as usize];
    for channel in audio_data.iter_mut().take(num_channels as usize) {
        for sample in (0..SAMPLES_PER_CHANNEL).step_by(10) {
            channel[sample] = 0.1 * peak_ratio * MAX_SAMPLE_S16;
            channel[sample + 1] = 0.2 * peak_ratio * MAX_SAMPLE_S16;
            channel[sample + 2] = 0.3 * peak_ratio * MAX_SAMPLE_S16;
            channel[sample + 3] = 0.4 * peak_ratio * MAX_SAMPLE_S16;
            channel[sample + 4] = 0.5 * peak_ratio * MAX_SAMPLE_S16;
            channel[sample + 5] = 0.6 * peak_ratio * MAX_SAMPLE_S16;
            channel[sample + 6] = 0.7 * peak_ratio * MAX_SAMPLE_S16;
            channel[sample + 7] = 0.8 * peak_ratio * MAX_SAMPLE_S16;
            channel[sample + 8] = 0.9 * peak_ratio * MAX_SAMPLE_S16;
            channel[sample + 9] = 1.0 * peak_ratio * MAX_SAMPLE_S16;
        }
    }
    call_analyze(num_calls, &audio_data, predictor);
}

fn analyze_zero_crest_factor_audio(
    num_calls: i32,
    num_channels: i32,
    peak_ratio: f32,
    predictor: &mut Predictor,
) {
    assert!(num_calls > 0);
    assert!(num_channels > 0);
    assert!(peak_ratio <= 1.0);
    let mut audio_data = vec![vec![0.0f32; SAMPLES_PER_CHANNEL]; num_channels as usize];
    for channel in audio_data.iter_mut().take(num_channels as usize) {
        for sample in channel.iter_mut() {
            *sample = peak_ratio * MAX_SAMPLE_S16;
        }
    }
    call_analyze(num_calls, &audio_data, predictor);
}

fn check_channel_estimates_with_value(
    num_channels: i32,
    level: i32,
    default_step: i32,
    min_mic_level: i32,
    max_mic_level: i32,
    predictor: &Predictor,
    expected: i32,
) {
    for i in 0..num_channels {
        assert_eq!(
            predictor.estimate_clipped_level_step(
                i,
                level,
                default_step,
                min_mic_level,
                max_mic_level,
            ),
            Some(expected)
        );
    }
}

fn check_channel_estimates_without_value(
    num_channels: i32,
    level: i32,
    default_step: i32,
    min_mic_level: i32,
    max_mic_level: i32,
    predictor: &Predictor,
) {
    for i in 0..num_channels {
        assert_eq!(
            predictor.estimate_clipped_level_step(
                i,
                level,
                default_step,
                min_mic_level,
                max_mic_level,
            ),
            None
        );
    }
}

fn get_config(
    mode: ClippingPredictorMode,
    window_length: i32,
    reference_window_length: i32,
    reference_window_delay: i32,
) -> ClippingPredictorConfig<f32> {
    ClippingPredictorConfig {
        enabled: true,
        mode,
        window_length,
        reference_window_length,
        reference_window_delay,
        clipping_threshold: -1.0,
        crest_factor_margin: 0.5,
    }
}

#[test]
fn no_predictor_created() {
    let predictor = create_predictor(
        NUM_CHANNELS,
        ClippingPredictorConfig {
            enabled: false,
            ..default_config()
        },
    );
    assert!(predictor.is_none());
}

#[test]
fn clipping_event_prediction_created() {
    let predictor = create_predictor(
        NUM_CHANNELS,
        ClippingPredictorConfig {
            enabled: true,
            mode: ClippingPredictorMode::ClippingEventPrediction,
            ..default_config()
        },
    );
    assert!(predictor.is_some());
}

#[test]
fn adaptive_step_clipping_peak_prediction_created() {
    let predictor = create_predictor(
        NUM_CHANNELS,
        ClippingPredictorConfig {
            enabled: true,
            mode: ClippingPredictorMode::AdaptiveStepClippingPeakPrediction,
            ..default_config()
        },
    );
    assert!(predictor.is_some());
}

#[test]
fn fixed_step_clipping_peak_prediction_created() {
    let predictor = create_predictor(
        NUM_CHANNELS,
        ClippingPredictorConfig {
            enabled: true,
            mode: ClippingPredictorMode::FixedStepClippingPeakPrediction,
            ..default_config()
        },
    );
    assert!(predictor.is_some());
}

#[test]
fn check_clipping_event_predictor_estimate_after_crest_factor_drop() {
    for num_channels in [1, 5] {
        for window_length in [1, 5, 10] {
            for reference_window_length in [1, 5] {
                for reference_window_delay in [0, 1, 5] {
                    let config = get_config(
                        ClippingPredictorMode::ClippingEventPrediction,
                        window_length,
                        reference_window_length,
                        reference_window_delay,
                    );
                    if config.reference_window_length + config.reference_window_delay
                        <= config.window_length
                    {
                        continue;
                    }

                    let mut predictor =
                        create_predictor(num_channels, config).expect("predictor");
                    analyze_non_zero_crest_factor_audio(
                        config.reference_window_length + config.reference_window_delay
                            - config.window_length,
                        num_channels,
                        0.99,
                        &mut predictor,
                    );
                    check_channel_estimates_without_value(
                        num_channels,
                        255,
                        DEFAULT_CLIPPED_LEVEL_STEP,
                        MIN_MIC_LEVEL,
                        MAX_MIC_LEVEL,
                        &predictor,
                    );
                    analyze_zero_crest_factor_audio(
                        config.window_length,
                        num_channels,
                        0.99,
                        &mut predictor,
                    );
                    check_channel_estimates_with_value(
                        num_channels,
                        255,
                        DEFAULT_CLIPPED_LEVEL_STEP,
                        MIN_MIC_LEVEL,
                        MAX_MIC_LEVEL,
                        &predictor,
                        DEFAULT_CLIPPED_LEVEL_STEP,
                    );
                }
            }
        }
    }
}

#[test]
fn check_clipping_event_predictor_no_estimate_after_constant_crest_factor() {
    for num_channels in [1, 5] {
        for window_length in [1, 5, 10] {
            for reference_window_length in [1, 5] {
                for reference_window_delay in [0, 1, 5] {
                    let config = get_config(
                        ClippingPredictorMode::ClippingEventPrediction,
                        window_length,
                        reference_window_length,
                        reference_window_delay,
                    );
                    if config.reference_window_length + config.reference_window_delay
                        <= config.window_length
                    {
                        continue;
                    }

                    let mut predictor =
                        create_predictor(num_channels, config).expect("predictor");
                    analyze_non_zero_crest_factor_audio(
                        config.reference_window_length + config.reference_window_delay
                            - config.window_length,
                        num_channels,
                        0.99,
                        &mut predictor,
                    );
                    check_channel_estimates_without_value(
                        num_channels,
                        255,
                        DEFAULT_CLIPPED_LEVEL_STEP,
                        MIN_MIC_LEVEL,
                        MAX_MIC_LEVEL,
                        &predictor,
                    );
                    analyze_non_zero_crest_factor_audio(
                        config.window_length,
                        num_channels,
                        0.99,
                        &mut predictor,
                    );
                    check_channel_estimates_without_value(
                        num_channels,
                        255,
                        DEFAULT_CLIPPED_LEVEL_STEP,
                        MIN_MIC_LEVEL,
                        MAX_MIC_LEVEL,
                        &predictor,
                    );
                }
            }
        }
    }
}

#[test]
fn check_clipping_peak_predictor_estimate_after_high_crest_factor() {
    for num_channels in [1, 5] {
        for window_length in [1, 5, 10] {
            for reference_window_length in [1, 5] {
                for reference_window_delay in [0, 1, 5] {
                    let config = get_config(
                        ClippingPredictorMode::AdaptiveStepClippingPeakPrediction,
                        window_length,
                        reference_window_length,
                        reference_window_delay,
                    );
                    if config.reference_window_length + config.reference_window_delay
                        <= config.window_length
                    {
                        continue;
                    }

                    let mut predictor =
                        create_predictor(num_channels, config).expect("predictor");
                    analyze_non_zero_crest_factor_audio(
                        config.reference_window_length + config.reference_window_delay
                            - config.window_length,
                        num_channels,
                        0.99,
                        &mut predictor,
                    );
                    check_channel_estimates_without_value(
                        num_channels,
                        255,
                        DEFAULT_CLIPPED_LEVEL_STEP,
                        MIN_MIC_LEVEL,
                        MAX_MIC_LEVEL,
                        &predictor,
                    );
                    analyze_non_zero_crest_factor_audio(
                        config.window_length,
                        num_channels,
                        0.99,
                        &mut predictor,
                    );
                    check_channel_estimates_with_value(
                        num_channels,
                        255,
                        DEFAULT_CLIPPED_LEVEL_STEP,
                        MIN_MIC_LEVEL,
                        MAX_MIC_LEVEL,
                        &predictor,
                        DEFAULT_CLIPPED_LEVEL_STEP,
                    );
                }
            }
        }
    }
}

#[test]
fn check_clipping_peak_predictor_no_estimate_after_low_crest_factor() {
    for num_channels in [1, 5] {
        for window_length in [1, 5, 10] {
            for reference_window_length in [1, 5] {
                for reference_window_delay in [0, 1, 5] {
                    let config = get_config(
                        ClippingPredictorMode::AdaptiveStepClippingPeakPrediction,
                        window_length,
                        reference_window_length,
                        reference_window_delay,
                    );
                    if config.reference_window_length + config.reference_window_delay
                        <= config.window_length
                    {
                        continue;
                    }

                    let mut predictor =
                        create_predictor(num_channels, config).expect("predictor");
                    analyze_zero_crest_factor_audio(
                        config.reference_window_length + config.reference_window_delay
                            - config.window_length,
                        num_channels,
                        0.99,
                        &mut predictor,
                    );
                    check_channel_estimates_without_value(
                        num_channels,
                        255,
                        DEFAULT_CLIPPED_LEVEL_STEP,
                        MIN_MIC_LEVEL,
                        MAX_MIC_LEVEL,
                        &predictor,
                    );
                    analyze_non_zero_crest_factor_audio(
                        config.window_length,
                        num_channels,
                        0.99,
                        &mut predictor,
                    );
                    check_channel_estimates_without_value(
                        num_channels,
                        255,
                        DEFAULT_CLIPPED_LEVEL_STEP,
                        MIN_MIC_LEVEL,
                        MAX_MIC_LEVEL,
                        &predictor,
                    );
                }
            }
        }
    }
}

#[test]
fn check_estimate_after_crest_factor_drop_parametrized() {
    for clipping_threshold in [-1.0f32, 0.0f32] {
        for crest_factor_margin in [3.0f32, 4.16f32] {
            let config = ClippingPredictorConfig {
                enabled: true,
                mode: ClippingPredictorMode::ClippingEventPrediction,
                window_length: 5,
                reference_window_length: 5,
                reference_window_delay: 5,
                clipping_threshold,
                crest_factor_margin,
            };
            let mut predictor = create_predictor(NUM_CHANNELS, config).expect("predictor");
            analyze_non_zero_crest_factor_audio(
                config.reference_window_length,
                NUM_CHANNELS,
                0.99,
                &mut predictor,
            );
            check_channel_estimates_without_value(
                NUM_CHANNELS,
                255,
                DEFAULT_CLIPPED_LEVEL_STEP,
                MIN_MIC_LEVEL,
                MAX_MIC_LEVEL,
                &predictor,
            );
            analyze_zero_crest_factor_audio(
                config.window_length,
                NUM_CHANNELS,
                0.99,
                &mut predictor,
            );
            if config.clipping_threshold < CLIPPING_THRESHOLD_DB
                && config.crest_factor_margin < 4.15
            {
                check_channel_estimates_with_value(
                    NUM_CHANNELS,
                    255,
                    DEFAULT_CLIPPED_LEVEL_STEP,
                    MIN_MIC_LEVEL,
                    MAX_MIC_LEVEL,
                    &predictor,
                    DEFAULT_CLIPPED_LEVEL_STEP,
                );
            } else {
                check_channel_estimates_without_value(
                    NUM_CHANNELS,
                    255,
                    DEFAULT_CLIPPED_LEVEL_STEP,
                    MIN_MIC_LEVEL,
                    MAX_MIC_LEVEL,
                    &predictor,
                );
            }
        }
    }
}

#[test]
fn check_estimate_after_high_crest_factor_with_no_clipping_margin() {
    for mode in [
        ClippingPredictorMode::AdaptiveStepClippingPeakPrediction,
        ClippingPredictorMode::FixedStepClippingPeakPrediction,
    ] {
        let config = ClippingPredictorConfig {
            enabled: true,
            mode,
            window_length: 5,
            reference_window_length: 5,
            reference_window_delay: 5,
            clipping_threshold: 0.0,
            crest_factor_margin: 3.0,
        };
        let mut predictor = create_predictor(NUM_CHANNELS, config).expect("predictor");
        analyze_non_zero_crest_factor_audio(
            config.reference_window_length,
            NUM_CHANNELS,
            0.99,
            &mut predictor,
        );
        check_channel_estimates_without_value(
            NUM_CHANNELS,
            255,
            DEFAULT_CLIPPED_LEVEL_STEP,
            MIN_MIC_LEVEL,
            MAX_MIC_LEVEL,
            &predictor,
        );
        analyze_zero_crest_factor_audio(config.window_length, NUM_CHANNELS, 0.99, &mut predictor);
        check_channel_estimates_without_value(
            NUM_CHANNELS,
            255,
            DEFAULT_CLIPPED_LEVEL_STEP,
            MIN_MIC_LEVEL,
            MAX_MIC_LEVEL,
            &predictor,
        );
    }
}

#[test]
fn check_estimate_after_high_crest_factor_with_clipping_margin() {
    for mode in [
        ClippingPredictorMode::AdaptiveStepClippingPeakPrediction,
        ClippingPredictorMode::FixedStepClippingPeakPrediction,
    ] {
        let config = ClippingPredictorConfig {
            enabled: true,
            mode,
            window_length: 5,
            reference_window_length: 5,
            reference_window_delay: 5,
            clipping_threshold: -1.0,
            crest_factor_margin: 3.0,
        };
        let mut predictor = create_predictor(NUM_CHANNELS, config).expect("predictor");
        analyze_non_zero_crest_factor_audio(
            config.reference_window_length,
            NUM_CHANNELS,
            0.99,
            &mut predictor,
        );
        check_channel_estimates_without_value(
            NUM_CHANNELS,
            255,
            DEFAULT_CLIPPED_LEVEL_STEP,
            MIN_MIC_LEVEL,
            MAX_MIC_LEVEL,
            &predictor,
        );
        analyze_zero_crest_factor_audio(config.window_length, NUM_CHANNELS, 0.99, &mut predictor);
        let expected_step = if mode
            == ClippingPredictorMode::AdaptiveStepClippingPeakPrediction
        {
            17
        } else {
            DEFAULT_CLIPPED_LEVEL_STEP
        };
        check_channel_estimates_with_value(
            NUM_CHANNELS,
            255,
            DEFAULT_CLIPPED_LEVEL_STEP,
            MIN_MIC_LEVEL,
            MAX_MIC_LEVEL,
            &predictor,
            expected_step,
        );
    }
}

#[test]
fn check_estimate_after_reset_event_predictor() {
    let config = ClippingPredictorConfig {
        enabled: true,
        mode: ClippingPredictorMode::ClippingEventPrediction,
        window_length: 5,
        reference_window_length: 5,
        reference_window_delay: 5,
        clipping_threshold: -1.0,
        crest_factor_margin: 3.0,
    };
    let mut predictor = create_predictor(NUM_CHANNELS, config).expect("predictor");
    analyze_non_zero_crest_factor_audio(
        config.reference_window_length,
        NUM_CHANNELS,
        0.99,
        &mut predictor,
    );
    check_channel_estimates_without_value(
        NUM_CHANNELS,
        255,
        DEFAULT_CLIPPED_LEVEL_STEP,
        MIN_MIC_LEVEL,
        MAX_MIC_LEVEL,
        &predictor,
    );
    predictor.reset();
    analyze_zero_crest_factor_audio(config.window_length, NUM_CHANNELS, 0.99, &mut predictor);
    check_channel_estimates_without_value(
        NUM_CHANNELS,
        255,
        DEFAULT_CLIPPED_LEVEL_STEP,
        MIN_MIC_LEVEL,
        MAX_MIC_LEVEL,
        &predictor,
    );
}

#[test]
fn check_no_estimate_after_reset_peak_predictor() {
    let config = ClippingPredictorConfig {
        enabled: true,
        mode: ClippingPredictorMode::AdaptiveStepClippingPeakPrediction,
        window_length: 5,
        reference_window_length: 5,
        reference_window_delay: 5,
        clipping_threshold: -1.0,
        crest_factor_margin: 3.0,
    };
    let mut predictor = create_predictor(NUM_CHANNELS, config).expect("predictor");
    analyze_non_zero_crest_factor_audio(
        config.reference_window_length,
        NUM_CHANNELS,
        0.99,
        &mut predictor,
    );
    check_channel_estimates_without_value(
        NUM_CHANNELS,
        255,
        DEFAULT_CLIPPED_LEVEL_STEP,
        MIN_MIC_LEVEL,
        MAX_MIC_LEVEL,
        &predictor,
    );
    predictor.reset();
    analyze_zero_crest_factor_audio(config.window_length, NUM_CHANNELS, 0.99, &mut predictor);
    check_channel_estimates_without_value(
        NUM_CHANNELS,
        255,
        DEFAULT_CLIPPED_LEVEL_STEP,
        MIN_MIC_LEVEL,
        MAX_MIC_LEVEL,
        &predictor,
    );
}

#[test]
fn check_adaptive_step_estimate() {
    let config = ClippingPredictorConfig {
        enabled: true,
        mode: ClippingPredictorMode::AdaptiveStepClippingPeakPrediction,
        window_length: 5,
        reference_window_length: 5,
        reference_window_delay: 5,
        clipping_threshold: -1.0,
        crest_factor_margin: 3.0,
    };
    let mut predictor = create_predictor(NUM_CHANNELS, config).expect("predictor");
    analyze_non_zero_crest_factor_audio(
        config.reference_window_length,
        NUM_CHANNELS,
        0.99,
        &mut predictor,
    );
    check_channel_estimates_without_value(
        NUM_CHANNELS,
        255,
        DEFAULT_CLIPPED_LEVEL_STEP,
        MIN_MIC_LEVEL,
        MAX_MIC_LEVEL,
        &predictor,
    );
    analyze_zero_crest_factor_audio(config.window_length, NUM_CHANNELS, 0.99, &mut predictor);
    check_channel_estimates_with_value(
        NUM_CHANNELS,
        255,
        DEFAULT_CLIPPED_LEVEL_STEP,
        MIN_MIC_LEVEL,
        MAX_MIC_LEVEL,
        &predictor,
        17,
    );
}

#[test]
fn check_fixed_step_estimate() {
    let config = ClippingPredictorConfig {
        enabled: true,
        mode: ClippingPredictorMode::FixedStepClippingPeakPrediction,
        window_length: 5,
        reference_window_length: 5,
        reference_window_delay: 5,
        clipping_threshold: -1.0,
        crest_factor_margin: 3.0,
    };
    let mut predictor = create_predictor(NUM_CHANNELS, config).expect("predictor");
    analyze_non_zero_crest_factor_audio(
        config.reference_window_length,
        NUM_CHANNELS,
        0.99,
        &mut predictor,
    );
    check_channel_estimates_without_value(
        NUM_CHANNELS,
        255,
        DEFAULT_CLIPPED_LEVEL_STEP,
        MIN_MIC_LEVEL,
        MAX_MIC_LEVEL,
        &predictor,
    );
    analyze_zero_crest_factor_audio(config.window_length, NUM_CHANNELS, 0.99, &mut predictor);
    check_channel_estimates_with_value(
        NUM_CHANNELS,
        255,
        DEFAULT_CLIPPED_LEVEL_STEP,
        MIN_MIC_LEVEL,
        MAX_MIC_LEVEL,
        &predictor,
        DEFAULT_CLIPPED_LEVEL_STEP,
    );
}

#[test]
fn channels_outside_the_range_have_no_estimate() {
    let config = ClippingPredictorConfig {
        enabled: true,
        ..default_config()
    };
    let mut predictor = create_predictor(2, config).expect("predictor");
    analyze_non_zero_crest_factor_audio(5, 2, 0.99, &mut predictor);
    analyze_zero_crest_factor_audio(5, 2, 0.99, &mut predictor);
    assert_eq!(predictor.estimate_clipped_level_step(0, 255, 15, 12, 255), Some(17));
    assert_eq!(predictor.estimate_clipped_level_step(1, 255, 15, 12, 255), Some(17));
    assert_eq!(predictor.estimate_clipped_level_step(1, 12, 15, 12, 255), None);
    assert_eq!(predictor.estimate_clipped_level_step(1, 5, 15, 12, 255), None);
}

#[test]
fn steps_do_not_go_below_the_lowest_level() {
    assert_eq!(lower_level(100, 15, 12, 255), Some(15));
    assert_eq!(lower_level(20, 15, 12, 255), Some(8));
    assert_eq!(lower_level(12, 15, 12, 255), None);
    assert_eq!(adaptive_step(0, 255, 15, 12, 255), 15);
    assert_eq!(adaptive_step(15, 255, 15, 12, 255), 57);
    assert_eq!(adaptive_step(100, 255, 15, 12, 255), 57);
}
