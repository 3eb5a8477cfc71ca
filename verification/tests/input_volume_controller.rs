use aec3::audio_processing::agc2::clipping_predictor::{LevelFunctions, LevelParameters};
use aec3::audio_processing::agc2::gain_map::{compute_volume_update, GAIN_MAP};
use aec3::audio_processing::agc2::input_volume_controller::{
    Config, InputVolumeController, MonoInputVolumeController, VolumeFunctions, VolumeParameters,
};
use aec3::audio_processing::agc2::input_volume_stats_reporter::HistogramSamples;

fn default_config() -> Config<f32> {
    Config {
        min_input_volume: 20,
        clipped_level_min: 70,
        clipped_level_step: 15,
        clipped_ratio_threshold: 0.1,
        clipped_wait_frames: 300,
        enable_clipping_predictor: true,
        target_range_max_dbfs: -30,
        target_range_experimental_max_dbfs: -12,
        target_range_min_dbfs: -50,
        update_input_volume_wait_frames: 100,
        speech_probability_threshold: 0.7,
        speech_ratio_threshold: 0.6,
    }
}

fn functions() -> VolumeFunctions<
    impl Fn(i32) -> f32,
    impl Fn(f32) -> f32,
    impl Fn(f32) -> f32,
    impl Fn(f32) -> i32,
    impl Fn(f32) -> i32,
> {
    VolumeFunctions {
        levels: LevelFunctions {
            number: |n: i32| n as f32,
            log10: |v: f32| v.log10(),
            root: |v: f32| v.sqrt(),
            ceil: |v: f32| v.ceil() as i32,
        },
        round: |v: f32| v.round() as i32,
    }
}

/// Samples, channel by channel.
struct AudioBuffer {
    channels: Vec<Vec<f32>>,
}

impl AudioBuffer {
    fn num_frames(&self) -> usize {
        self.channels[0].len()
    }

    fn num_channels(&self) -> usize {
        self.channels.len()
    }

    fn channel_mut(&mut self, channel: usize) -> &mut [f32] {
        &mut self.channels[channel]
    }
}

/// A volume controller on single precision samples, with what it counted.
struct Controller {
    inner: InputVolumeController<f32>,
    samples: HistogramSamples,
}

impl Controller {
    fn new(num_capture_channels: i32, config: Config<f32>) -> Self {
        Controller {
            inner: InputVolumeController::new(
                num_capture_channels,
                config,
                VolumeParameters {
                    levels: LevelParameters {
                        one: 1.0,
                        twenty: 20.0,
                        min_level_dbfs: -90.31,
                    },
                    min_sample: -32768.0,
                    max_sample: 32767.0,
                    min_speech_level_dbfs: -90.0,
                    max_speech_level_dbfs: 30.0,
                    predictor_clipping_threshold: -1.0,
                    predictor_crest_factor_margin: 3.0,
                },
                &|n: i32| n as f32,
                &|v: f32| v as i32,
            ),
            samples: HistogramSamples::default(),
        }
    }

    fn initialize(&mut self) {
        self.inner.initialize();
    }

    fn analyze_input_audio(&mut self, applied_input_volume: i32, audio_buffer: &AudioBuffer) {
        self.inner
            .analyze_input_audio(applied_input_volume, &audio_buffer.channels, &functions());
    }

    fn recommend_input_volume(
        &mut self,
        speech_probability: f32,
        speech_level_dbfs: Option<f32>,
    ) -> Option<i32> {
        self.inner.recommend_input_volume(
            speech_probability,
            speech_level_dbfs,
            &functions(),
            &mut self.samples,
        )
    }

    fn handle_capture_output_used_change(&mut self, capture_output_used: bool) {
        self.inner.handle_capture_output_used_change(capture_output_used);
    }

    fn recommended_input_volume(&self) -> i32 {
        self.inner.recommended_input_volume()
    }
}

const SAMPLE_RATE_HZ: usize = 32_000;
const NUM_CHANNELS: usize = 1;
const DEFAULT_INITIAL_INPUT_VOLUME: i32 = 128;
const HIGH_SPEECH_PROBABILITY: f32 = 0.7;
const LOW_SPEECH_PROBABILITY: f32 = 0.1;
const SPEECH_LEVEL: f32 = -25.0;
const MAX_SAMPLE_S16: f32 = 32767.0;

fn create_audio_buffer() -> AudioBuffer {
    AudioBuffer {
        channels: vec![vec![0.0; SAMPLE_RATE_HZ / 100]; NUM_CHANNELS],
    }
}

fn write_audio_buffer_samples(
    samples_value: f32,
    clipped_ratio: f32,
    audio_buffer: &mut AudioBuffer,
) {
    assert!(clipped_ratio >= 0.0 && clipped_ratio <= 1.0);
    let num_samples = audio_buffer.num_frames();
    let num_clipping_samples = (clipped_ratio * num_samples as f32) as usize;
    for ch in 0..audio_buffer.num_channels() {
        let channel = audio_buffer.channel_mut(ch);
        for (i, sample) in channel.iter_mut().enumerate() {
            if i < num_clipping_samples {
                *sample = 32767.0;
            } else {
                *sample = samples_value;
            }
        }
    }
}

fn write_alternating_audio_buffer_samples(samples_value: f32, audio_buffer: &mut AudioBuffer) {
    for ch in 0..audio_buffer.num_channels() {
        let channel = audio_buffer.channel_mut(ch);
        for i in (0..channel.len()).step_by(2) {
            channel[i] = samples_value;
            if i + 1 < channel.len() {
                channel[i + 1] = 0.0;
            }
        }
    }
}

fn test_config(min_input_volume: i32) -> Config<f32> {
    Config {
        min_input_volume,
        clipped_level_min: 165,
        clipped_level_step: 15,
        clipped_ratio_threshold: 0.1,
        clipped_wait_frames: 300,
        enable_clipping_predictor: false,
        target_range_max_dbfs: -18,
        target_range_experimental_max_dbfs: -12,
        target_range_min_dbfs: -30,
        update_input_volume_wait_frames: 0,
        speech_probability_threshold: 0.5,
        speech_ratio_threshold: 1.0,
    }
}

fn call_agc_sequence(
    controller: &mut Controller,
    audio_buffer: &AudioBuffer,
    applied_input_volume: i32,
    speech_probability: f32,
    speech_level_dbfs: Option<f32>,
    num_calls: i32,
) -> Option<i32> {
    assert!(num_calls >= 1);
    let mut volume = Some(applied_input_volume);
    for _ in 0..num_calls {
        controller.analyze_input_audio(volume.unwrap_or(applied_input_volume), audio_buffer);
        volume = controller.recommend_input_volume(speech_probability, speech_level_dbfs);
        if let Some(v) = volume {
            assert_eq!(v, controller.recommended_input_volume());
        }
    }
    volume
}

fn call_recommend_input_volume(
    controller: &mut Controller,
    audio_buffer: &AudioBuffer,
    num_calls: i32,
    initial_volume: i32,
    speech_probability: f32,
    speech_level_dbfs: Option<f32>,
) -> i32 {
    call_agc_sequence(
        controller,
        audio_buffer,
        initial_volume,
        speech_probability,
        speech_level_dbfs,
        num_calls,
    )
    .expect("volume expected")
}

fn update_recommended_input_volume(
    mono_controller: &mut MonoInputVolumeController<f32>,
    applied_input_volume: i32,
    speech_probability: f32,
    rms_error_dbfs: Option<i32>,
) -> i32 {
    mono_controller.set_stream_analog_level(applied_input_volume);
    assert_eq!(
        mono_controller.recommended_analog_level(),
        applied_input_volume
    );
    mono_controller.process(rms_error_dbfs, speech_probability, &|n: i32| n as f32);
    mono_controller.recommended_analog_level()
}

fn feed_frames(
    controller: &mut Controller,
    audio_buffer: &AudioBuffer,
    num_frames: i32,
    mut applied_input_volume: i32,
    speech_probability: f32,
    speech_level_dbfs: Option<f32>,
) -> i32 {
    for _ in 0..num_frames {
        controller.analyze_input_audio(applied_input_volume, audio_buffer);
        applied_input_volume = controller
            .recommend_input_volume(speech_probability, speech_level_dbfs)
            .expect("volume expected");
    }
    applied_input_volume
}

#[test]
fn check_handle_clipping_lowers_volume() {
    const INITIAL_INPUT_VOLUME: i32 = 100;
    const INPUT_VOLUME_STEP: i32 = 29;
    let mut mono_controller = MonoInputVolumeController::new(70, 32, 3, 0.7, 0.8);
    mono_controller.initialize();

    update_recommended_input_volume(&mut mono_controller, INITIAL_INPUT_VOLUME, 0.1, Some(-10));
    mono_controller.handle_clipping(INPUT_VOLUME_STEP);

    assert_eq!(
        mono_controller.recommended_analog_level(),
        INITIAL_INPUT_VOLUME - INPUT_VOLUME_STEP
    );
}

#[test]
fn check_process_negative_rms_error_decreases_input_volume() {
    const INITIAL_INPUT_VOLUME: i32 = 100;
    let mut mono_controller = MonoInputVolumeController::new(64, 32, 3, 0.7, 0.8);
    mono_controller.initialize();

    let mut volume = update_recommended_input_volume(
        &mut mono_controller,
        INITIAL_INPUT_VOLUME,
        0.7,
        Some(-10),
    );
    volume = update_recommended_input_volume(&mut mono_controller, volume, 0.7, Some(-10));
    volume = update_recommended_input_volume(&mut mono_controller, volume, 0.7, Some(-10));

    assert!(volume < INITIAL_INPUT_VOLUME);
}

#[test]
fn check_process_positive_rms_error_increases_input_volume() {
    const INITIAL_INPUT_VOLUME: i32 = 100;
    let mut mono_controller = MonoInputVolumeController::new(64, 32, 3, 0.7, 0.8);
    mono_controller.initialize();

    let mut volume = update_recommended_input_volume(
        &mut mono_controller,
        INITIAL_INPUT_VOLUME,
        0.7,
        Some(10),
    );
    volume = update_recommended_input_volume(&mut mono_controller, volume, 0.7, Some(10));
    volume = update_recommended_input_volume(&mut mono_controller, volume, 0.7, Some(10));

    assert!(volume > INITIAL_INPUT_VOLUME);
}

#[test]
fn check_process_negative_rms_error_decreases_input_volume_with_limit() {
    const INITIAL_INPUT_VOLUME: i32 = 100;
    let mut mono_controller_1 = MonoInputVolumeController::new(64, 32, 2, 0.7, 0.8);
    let mut mono_controller_2 = MonoInputVolumeController::new(64, 32, 2, 0.7, 0.8);
    let mut mono_controller_3 = MonoInputVolumeController::new(64, 32, 2, 0.7, 0.8);
    mono_controller_1.initialize();
    mono_controller_2.initialize();
    mono_controller_3.initialize();

    let mut volume_1 = update_recommended_input_volume(
        &mut mono_controller_1,
        INITIAL_INPUT_VOLUME,
        0.7,
        Some(-14),
    );
    volume_1 =
        update_recommended_input_volume(&mut mono_controller_1, volume_1, 0.7, Some(-14));

    let mut volume_2 = update_recommended_input_volume(
        &mut mono_controller_2,
        INITIAL_INPUT_VOLUME,
        0.7,
        Some(-15),
    );
    let mut volume_3 = update_recommended_input_volume(
        &mut mono_controller_3,
        INITIAL_INPUT_VOLUME,
        0.7,
        Some(-30),
    );
    volume_2 =
        update_recommended_input_volume(&mut mono_controller_2, volume_2, 0.7, Some(-15));
    volume_3 =
        update_recommended_input_volume(&mut mono_controller_3, volume_3, 0.7, Some(-30));

    assert!(volume_1 < INITIAL_INPUT_VOLUME);
    assert!(volume_2 < volume_1);
    assert_eq!(volume_2, volume_3);
}

#[test]
fn check_process_positive_rms_error_increases_input_volume_with_limit() {
    const INITIAL_INPUT_VOLUME: i32 = 100;
    let mut mono_controller_1 = MonoInputVolumeController::new(64, 32, 2, 0.7, 0.8);
    let mut mono_controller_2 = MonoInputVolumeController::new(64, 32, 2, 0.7, 0.8);
    let mut mono_controller_3 = MonoInputVolumeController::new(64, 32, 2, 0.7, 0.8);
    mono_controller_1.initialize();
    mono_controller_2.initialize();
    mono_controller_3.initialize();

    let mut volume_1 = update_recommended_input_volume(
        &mut mono_controller_1,
        INITIAL_INPUT_VOLUME,
        0.7,
        Some(14),
    );
    volume_1 = update_recommended_input_volume(&mut mono_controller_1, volume_1, 0.7, Some(14));

    let mut volume_2 = update_recommended_input_volume(
        &mut mono_controller_2,
        INITIAL_INPUT_VOLUME,
        0.7,
        Some(15),
    );
    let mut volume_3 = update_recommended_input_volume(
        &mut mono_controller_3,
        INITIAL_INPUT_VOLUME,
        0.7,
        Some(30),
    );
    volume_2 = update_recommended_input_volume(&mut mono_controller_2, volume_2, 0.7, Some(15));
    volume_3 = update_recommended_input_volume(&mut mono_controller_3, volume_3, 0.7, Some(30));

    assert!(volume_1 > INITIAL_INPUT_VOLUME);
    assert!(volume_2 > volume_1);
    assert_eq!(volume_2, volume_3);
}

#[test]
fn check_clipped_level_min_is_effective() {
    const INITIAL_INPUT_VOLUME: i32 = 100;
    const CLIPPED_LEVEL_MIN: i32 = 70;
    let mut mono_controller_1 =
        MonoInputVolumeController::new(CLIPPED_LEVEL_MIN, 84, 2, 0.7, 0.8);
    let mut mono_controller_2 =
        MonoInputVolumeController::new(CLIPPED_LEVEL_MIN, 84, 2, 0.7, 0.8);
    mono_controller_1.initialize();
    mono_controller_2.initialize();

    assert_eq!(
        update_recommended_input_volume(
            &mut mono_controller_1,
            INITIAL_INPUT_VOLUME,
            0.1,
            Some(-10)
        ),
        INITIAL_INPUT_VOLUME
    );
    assert_eq!(
        update_recommended_input_volume(
            &mut mono_controller_2,
            INITIAL_INPUT_VOLUME,
            0.1,
            Some(-10)
        ),
        INITIAL_INPUT_VOLUME
    );

    mono_controller_1.handle_clipping(29);
    mono_controller_2.handle_clipping(31);

    assert_eq!(
        mono_controller_2.recommended_analog_level(),
        CLIPPED_LEVEL_MIN
    );
    assert!(
        mono_controller_2.recommended_analog_level()
            < mono_controller_1.recommended_analog_level()
    );
}

#[test]
fn check_process_empty_rms_error_does_not_lower_volume() {
    const INITIAL_INPUT_VOLUME: i32 = 100;
    let mut mono_controller_1 = MonoInputVolumeController::new(64, 84, 2, 0.7, 0.8);
    let mut mono_controller_2 = MonoInputVolumeController::new(64, 84, 2, 0.7, 0.8);
    mono_controller_1.initialize();
    mono_controller_2.initialize();

    let mut volume_1 = update_recommended_input_volume(
        &mut mono_controller_1,
        INITIAL_INPUT_VOLUME,
        0.7,
        Some(-10),
    );
    let mut volume_2 = update_recommended_input_volume(
        &mut mono_controller_2,
        INITIAL_INPUT_VOLUME,
        0.7,
        Some(-10),
    );

    assert_eq!(volume_1, INITIAL_INPUT_VOLUME);
    assert_eq!(volume_2, INITIAL_INPUT_VOLUME);

    volume_1 = update_recommended_input_volume(&mut mono_controller_1, volume_1, 0.7, None);
    volume_2 =
        update_recommended_input_volume(&mut mono_controller_2, volume_2, 0.7, Some(-10));

    assert_eq!(volume_1, INITIAL_INPUT_VOLUME);
    assert!(volume_2 < volume_1);
}

#[test]
fn no_clipping_has_no_impact() {
    let config = Config {
        min_input_volume: 20,
        enable_clipping_predictor: false,
        ..default_config()
    };
    let mut controller = Controller::new(1, config);
    controller.initialize();

    let mut audio_buffer = create_audio_buffer();
    write_audio_buffer_samples(0.0, 0.0, &mut audio_buffer);

    let _ = call_agc_sequence(
        &mut controller,
        &audio_buffer,
        DEFAULT_INITIAL_INPUT_VOLUME,
        HIGH_SPEECH_PROBABILITY,
        Some(SPEECH_LEVEL),
        1,
    );

    for _ in 0..100 {
        let current_volume = controller.recommended_input_volume();
        let volume = call_agc_sequence(
            &mut controller,
            &audio_buffer,
            current_volume,
            LOW_SPEECH_PROBABILITY,
            Some(SPEECH_LEVEL),
            1,
        )
        .expect("volume expected");
        assert_eq!(volume, DEFAULT_INITIAL_INPUT_VOLUME);
    }
}

#[test]
fn clipping_under_threshold_has_no_impact() {
    let config = Config {
        min_input_volume: 20,
        enable_clipping_predictor: false,
        clipped_ratio_threshold: 0.1,
        ..default_config()
    };
    let mut controller = Controller::new(1, config);
    controller.initialize();

    let mut audio_buffer = create_audio_buffer();
    write_audio_buffer_samples(0.0, 0.099, &mut audio_buffer);

    let _ = call_agc_sequence(
        &mut controller,
        &audio_buffer,
        DEFAULT_INITIAL_INPUT_VOLUME,
        HIGH_SPEECH_PROBABILITY,
        Some(SPEECH_LEVEL),
        1,
    );

    assert_eq!(
        controller.recommended_input_volume(),
        DEFAULT_INITIAL_INPUT_VOLUME
    );
}

#[test]
fn clipping_lowers_volume() {
    let config = Config {
        min_input_volume: 20,
        enable_clipping_predictor: false,
        clipped_level_step: 15,
        clipped_ratio_threshold: 0.1,
        ..default_config()
    };
    let mut controller = Controller::new(1, config);
    controller.initialize();

    let mut audio_buffer = create_audio_buffer();
    // Prime the controller state on non-clipping audio first.
    write_audio_buffer_samples(1000.0, 0.0, &mut audio_buffer);
    let _ = call_agc_sequence(
        &mut controller,
        &audio_buffer,
        255,
        HIGH_SPEECH_PROBABILITY,
        Some(SPEECH_LEVEL),
        1,
    );

    write_audio_buffer_samples(0.0, 0.2, &mut audio_buffer);

    let _ = call_agc_sequence(
        &mut controller,
        &audio_buffer,
        255,
        HIGH_SPEECH_PROBABILITY,
        Some(SPEECH_LEVEL),
        1,
    );

    assert_eq!(controller.recommended_input_volume(), 240);
}

#[test]
fn waiting_period_between_clipping_checks() {
    let config = Config {
        min_input_volume: 20,
        enable_clipping_predictor: false,
        clipped_level_step: 15,
        clipped_ratio_threshold: 0.1,
        clipped_wait_frames: 300,
        ..default_config()
    };
    let mut controller = Controller::new(1, config);
    controller.initialize();

    let mut audio_buffer = create_audio_buffer();
    // Prime the controller state on non-clipping audio first.
    write_audio_buffer_samples(1000.0, 0.0, &mut audio_buffer);
    let _ = call_agc_sequence(
        &mut controller,
        &audio_buffer,
        255,
        HIGH_SPEECH_PROBABILITY,
        Some(SPEECH_LEVEL),
        1,
    );

    write_audio_buffer_samples(0.0, 0.2, &mut audio_buffer);

    let mut volume = call_agc_sequence(
        &mut controller,
        &audio_buffer,
        255,
        LOW_SPEECH_PROBABILITY,
        Some(SPEECH_LEVEL),
        1,
    )
    .expect("volume expected");
    assert_eq!(volume, 240);

    for _ in 0..300 {
        volume = call_agc_sequence(
            &mut controller,
            &audio_buffer,
            volume,
            LOW_SPEECH_PROBABILITY,
            Some(SPEECH_LEVEL),
            1,
        )
        .expect("volume expected");
    }
    assert_eq!(volume, 240);

    volume = call_agc_sequence(
        &mut controller,
        &audio_buffer,
        volume,
        LOW_SPEECH_PROBABILITY,
        Some(SPEECH_LEVEL),
        1,
    )
    .expect("volume expected");
    assert_eq!(volume, 225);
}

#[test]
fn takes_no_action_on_zero_mic_volume_after_startup() {
    let config = Config {
        min_input_volume: 20,
        enable_clipping_predictor: false,
        ..default_config()
    };
    let mut controller = Controller::new(1, config);
    controller.initialize();

    let mut audio_buffer = create_audio_buffer();
    write_audio_buffer_samples(1000.0, 0.0, &mut audio_buffer);

    let _ = call_agc_sequence(
        &mut controller,
        &audio_buffer,
        DEFAULT_INITIAL_INPUT_VOLUME,
        HIGH_SPEECH_PROBABILITY,
        Some(SPEECH_LEVEL),
        1,
    );

    let volume = call_agc_sequence(
        &mut controller,
        &audio_buffer,
        0,
        HIGH_SPEECH_PROBABILITY,
        Some(-48.0),
        10,
    )
    .expect("volume expected");
    assert_eq!(volume, 0);
}

#[test]
fn startup_min_volume_configuration_respected_when_applied_input_volume_above_min() {
    for min_input_volume in [12, 20] {
        let config = test_config(min_input_volume);
        let mut controller = Controller::new(1, config);
        controller.initialize();

        let mut audio_buffer = create_audio_buffer();
        write_audio_buffer_samples(0.0, 0.0, &mut audio_buffer);

        let volume =
            call_agc_sequence(&mut controller, &audio_buffer, 128, 0.9, Some(-80.0), 1)
                .expect("volume expected");
        assert_eq!(volume, 128);
    }
}

#[test]
fn startup_min_volume_configuration_respected_when_applied_input_volume_maybe_below_min() {
    for min_input_volume in [12, 20] {
        let config = test_config(min_input_volume);
        let mut controller = Controller::new(1, config);
        controller.initialize();

        let mut audio_buffer = create_audio_buffer();
        write_audio_buffer_samples(0.0, 0.0, &mut audio_buffer);

        let volume = call_agc_sequence(&mut controller, &audio_buffer, 10, 0.9, Some(-80.0), 1)
            .expect("volume expected");
        assert!(volume >= 10);
    }
}

#[test]
fn startup_min_volume_respected_once_when_applied_volume_zero() {
    for min_input_volume in [12, 20] {
        let mut config = test_config(min_input_volume);
        config.update_input_volume_wait_frames = 1;
        config.speech_ratio_threshold = 0.5;

        let mut controller = Controller::new(1, config);
        controller.initialize();

        let mut audio_buffer = create_audio_buffer();
        write_audio_buffer_samples(0.0, 0.0, &mut audio_buffer);

        let volume = call_agc_sequence(&mut controller, &audio_buffer, 0, 0.9, Some(-80.0), 1)
            .expect("volume expected");
        assert_eq!(volume, min_input_volume);

        let volume = call_agc_sequence(&mut controller, &audio_buffer, 0, 0.9, Some(-80.0), 1)
            .expect("volume expected");
        assert_eq!(volume, 0);
    }
}

#[test]
fn no_action_while_muted() {
    for min_input_volume in [12, 20] {
        let config = test_config(min_input_volume);
        let mut controller_1 = Controller::new(1, config);
        let mut controller_2 = Controller::new(1, config);
        controller_1.initialize();
        controller_2.initialize();

        let mut audio_buffer_1 = create_audio_buffer();
        let mut audio_buffer_2 = create_audio_buffer();
        write_audio_buffer_samples(1000.0, 0.0, &mut audio_buffer_1);
        write_audio_buffer_samples(1000.0, 0.0, &mut audio_buffer_2);

        let mut volume_1 = call_agc_sequence(
            &mut controller_1,
            &audio_buffer_1,
            255,
            HIGH_SPEECH_PROBABILITY,
            Some(SPEECH_LEVEL),
            1,
        )
        .expect("volume expected");
        let mut volume_2 = call_agc_sequence(
            &mut controller_2,
            &audio_buffer_2,
            255,
            HIGH_SPEECH_PROBABILITY,
            Some(SPEECH_LEVEL),
            1,
        )
        .expect("volume expected");

        assert_eq!(volume_1, 255);
        assert_eq!(volume_2, 255);

        controller_2.handle_capture_output_used_change(false);

        write_alternating_audio_buffer_samples(32767.0, &mut audio_buffer_1);
        write_alternating_audio_buffer_samples(32767.0, &mut audio_buffer_2);

        volume_1 = call_agc_sequence(
            &mut controller_1,
            &audio_buffer_1,
            volume_1,
            HIGH_SPEECH_PROBABILITY,
            Some(SPEECH_LEVEL),
            1,
        )
        .expect("volume expected");
        volume_2 = call_agc_sequence(
            &mut controller_2,
            &audio_buffer_2,
            volume_2,
            HIGH_SPEECH_PROBABILITY,
            Some(SPEECH_LEVEL),
            1,
        )
        .expect("volume expected");

        assert!(volume_1 < 255);
        assert_eq!(volume_2, 255);
    }
}

#[test]
fn unmuting_checks_volume_without_raising() {
    for min_input_volume in [12, 20] {
        let config = test_config(min_input_volume);
        let mut controller = Controller::new(1, config);
        controller.initialize();

        let mut audio_buffer = create_audio_buffer();
        write_audio_buffer_samples(1000.0, 0.0, &mut audio_buffer);

        let _ = call_agc_sequence(
            &mut controller,
            &audio_buffer,
            DEFAULT_INITIAL_INPUT_VOLUME,
            HIGH_SPEECH_PROBABILITY,
            Some(SPEECH_LEVEL),
            1,
        );

        controller.handle_capture_output_used_change(false);
        controller.handle_capture_output_used_change(true);

        let volume = call_agc_sequence(
            &mut controller,
            &audio_buffer,
            127,
            HIGH_SPEECH_PROBABILITY,
            Some(SPEECH_LEVEL),
            1,
        )
        .expect("volume expected");
        assert_eq!(volume, 127);
    }
}

#[test]
fn unmuting_raises_too_low_volume() {
    for min_input_volume in [12, 20] {
        let config = test_config(min_input_volume);
        let mut controller = Controller::new(1, config);
        controller.initialize();

        let mut audio_buffer = create_audio_buffer();
        write_audio_buffer_samples(1000.0, 0.0, &mut audio_buffer);

        let _ = call_agc_sequence(
            &mut controller,
            &audio_buffer,
            DEFAULT_INITIAL_INPUT_VOLUME,
            HIGH_SPEECH_PROBABILITY,
            Some(SPEECH_LEVEL),
            1,
        );

        controller.handle_capture_output_used_change(false);
        controller.handle_capture_output_used_change(true);

        let volume = call_agc_sequence(
            &mut controller,
            &audio_buffer,
            11,
            HIGH_SPEECH_PROBABILITY,
            Some(SPEECH_LEVEL),
            1,
        )
        .expect("volume expected");
        assert_eq!(volume, min_input_volume);
    }
}

#[test]
fn manual_level_change_results_in_no_set_mic_call() {
    for min_input_volume in [12, 20] {
        let config = test_config(min_input_volume);
        let mut controller = Controller::new(1, config);
        controller.initialize();

        let mut audio_buffer = create_audio_buffer();
        write_alternating_audio_buffer_samples(3276.7, &mut audio_buffer);

        let mut volume = call_agc_sequence(
            &mut controller,
            &audio_buffer,
            DEFAULT_INITIAL_INPUT_VOLUME,
            HIGH_SPEECH_PROBABILITY,
            Some(SPEECH_LEVEL),
            1,
        )
        .expect("volume expected");

        assert_ne!(volume, 154);

        volume = call_agc_sequence(
            &mut controller,
            &audio_buffer,
            154,
            HIGH_SPEECH_PROBABILITY,
            Some(-29.0),
            1,
        )
        .expect("volume expected");
        assert_eq!(volume, 154);

        volume = call_agc_sequence(
            &mut controller,
            &audio_buffer,
            100,
            HIGH_SPEECH_PROBABILITY,
            Some(-17.0),
            1,
        )
        .expect("volume expected");
        assert_eq!(volume, 100);

        volume = call_agc_sequence(
            &mut controller,
            &audio_buffer,
            volume,
            HIGH_SPEECH_PROBABILITY,
            Some(-17.0),
            1,
        )
        .expect("volume expected");
        assert_eq!(volume, 99);
    }
}

#[test]
fn recovery_after_manual_level_change_from_max() {
    for min_input_volume in [12, 20] {
        let config = test_config(min_input_volume);
        let mut controller = Controller::new(1, config);
        controller.initialize();

        let mut audio_buffer = create_audio_buffer();
        write_alternating_audio_buffer_samples(3276.7, &mut audio_buffer);

        let mut volume = call_agc_sequence(
            &mut controller,
            &audio_buffer,
            DEFAULT_INITIAL_INPUT_VOLUME,
            HIGH_SPEECH_PROBABILITY,
            Some(SPEECH_LEVEL),
            1,
        )
        .expect("volume expected");

        volume = call_agc_sequence(
            &mut controller,
            &audio_buffer,
            volume,
            HIGH_SPEECH_PROBABILITY,
            Some(-48.0),
            1,
        )
        .expect("volume expected");
        assert_eq!(volume, 183);

        volume = call_agc_sequence(
            &mut controller,
            &audio_buffer,
            volume,
            HIGH_SPEECH_PROBABILITY,
            Some(-48.0),
            1,
        )
        .expect("volume expected");
        assert_eq!(volume, 243);

        volume = call_agc_sequence(
            &mut controller,
            &audio_buffer,
            volume,
            HIGH_SPEECH_PROBABILITY,
            Some(-48.0),
            1,
        )
        .expect("volume expected");
        assert_eq!(volume, 255);

        volume = call_agc_sequence(
            &mut controller,
            &audio_buffer,
            50,
            HIGH_SPEECH_PROBABILITY,
            Some(-17.0),
            1,
        )
        .expect("volume expected");
        assert_eq!(controller.recommended_input_volume(), 50);

        volume = call_agc_sequence(
            &mut controller,
            &audio_buffer,
            volume,
            HIGH_SPEECH_PROBABILITY,
            Some(-38.0),
            1,
        )
        .expect("volume expected");

        assert_eq!(volume, 65);
    }
}

#[test]
fn clipping_lowering_is_limited() {
    for min_input_volume in [12, 20] {
        let config = test_config(min_input_volume);
        let mut controller = Controller::new(1, config);
        controller.initialize();

        let mut audio_buffer = create_audio_buffer();
        write_audio_buffer_samples(1000.0, 0.0, &mut audio_buffer);
        let _ = call_agc_sequence(
            &mut controller,
            &audio_buffer,
            180,
            HIGH_SPEECH_PROBABILITY,
            Some(SPEECH_LEVEL),
            1,
        );

        write_audio_buffer_samples(0.0, 0.2, &mut audio_buffer);
        let _ = call_agc_sequence(
            &mut controller,
            &audio_buffer,
            180,
            HIGH_SPEECH_PROBABILITY,
            Some(SPEECH_LEVEL),
            1,
        );
        assert_eq!(controller.recommended_input_volume(), 165);

        let mut volume = controller.recommended_input_volume();
        for _ in 0..1000 {
            volume = call_agc_sequence(
                &mut controller,
                &audio_buffer,
                volume,
                HIGH_SPEECH_PROBABILITY,
                Some(SPEECH_LEVEL),
                1,
            )
            .expect("volume expected");
        }
        assert_eq!(volume, 165);
    }
}

#[test]
fn clipping_max_is_respected_when_equal_to_level() {
    for min_input_volume in [12, 20] {
        let config = test_config(min_input_volume);
        let mut controller = Controller::new(1, config);
        controller.initialize();

        let mut audio_buffer = create_audio_buffer();
        write_audio_buffer_samples(1000.0, 0.0, &mut audio_buffer);
        let _ = call_agc_sequence(
            &mut controller,
            &audio_buffer,
            255,
            HIGH_SPEECH_PROBABILITY,
            Some(SPEECH_LEVEL),
            1,
        );

        write_audio_buffer_samples(0.0, 0.2, &mut audio_buffer);
        let _ = call_agc_sequence(
            &mut controller,
            &audio_buffer,
            255,
            HIGH_SPEECH_PROBABILITY,
            Some(SPEECH_LEVEL),
            1,
        );
        assert_eq!(controller.recommended_input_volume(), 240);

        write_alternating_audio_buffer_samples(3276.7, &mut audio_buffer);
        let mut volume = controller.recommended_input_volume();
        for _ in 0..10 {
            volume = call_agc_sequence(
                &mut controller,
                &audio_buffer,
                volume,
                HIGH_SPEECH_PROBABILITY,
                Some(-48.0),
                1,
            )
            .expect("volume expected");
        }
        assert_eq!(volume, 240);
    }
}

#[test]
fn clipping_max_is_respected_when_higher_than_level() {
    for min_input_volume in [12, 20] {
        let config = test_config(min_input_volume);
        let mut controller = Controller::new(1, config);
        controller.initialize();

        let mut audio_buffer = create_audio_buffer();
        write_audio_buffer_samples(1000.0, 0.0, &mut audio_buffer);
        let _ = call_agc_sequence(
            &mut controller,
            &audio_buffer,
            200,
            HIGH_SPEECH_PROBABILITY,
            Some(SPEECH_LEVEL),
            1,
        );

        write_audio_buffer_samples(0.0, 0.2, &mut audio_buffer);
        let mut volume = call_agc_sequence(
            &mut controller,
            &audio_buffer,
            200,
            HIGH_SPEECH_PROBABILITY,
            Some(SPEECH_LEVEL),
            1,
        )
        .expect("volume expected");
        assert_eq!(volume, 185);

        write_alternating_audio_buffer_samples(3276.7, &mut audio_buffer);
        volume = call_agc_sequence(
            &mut controller,
            &audio_buffer,
            volume,
            HIGH_SPEECH_PROBABILITY,
            Some(-58.0),
            1,
        )
        .expect("volume expected");
        assert_eq!(volume, 240);

        volume = call_agc_sequence(
            &mut controller,
            &audio_buffer,
            volume,
            HIGH_SPEECH_PROBABILITY,
            Some(-58.0),
            10,
        )
        .expect("volume expected");
        assert_eq!(volume, 240);
    }
}

#[test]
fn user_can_raise_volume_after_clipping() {
    for min_input_volume in [12, 20] {
        let config = test_config(min_input_volume);
        let mut controller = Controller::new(1, config);
        controller.initialize();

        let mut audio_buffer = create_audio_buffer();
        write_audio_buffer_samples(1000.0, 0.0, &mut audio_buffer);
        let _ = call_agc_sequence(
            &mut controller,
            &audio_buffer,
            225,
            HIGH_SPEECH_PROBABILITY,
            Some(SPEECH_LEVEL),
            1,
        );

        write_audio_buffer_samples(0.0, 0.2, &mut audio_buffer);
        let _ = call_agc_sequence(
            &mut controller,
            &audio_buffer,
            225,
            HIGH_SPEECH_PROBABILITY,
            Some(SPEECH_LEVEL),
            1,
        );
        assert_eq!(controller.recommended_input_volume(), 210);

        write_alternating_audio_buffer_samples(3276.7, &mut audio_buffer);
        let mut volume = call_agc_sequence(
            &mut controller,
            &audio_buffer,
            250,
            HIGH_SPEECH_PROBABILITY,
            Some(-32.0),
            1,
        )
        .expect("volume expected");
        assert_eq!(volume, 250);

        volume = call_agc_sequence(
            &mut controller,
            &audio_buffer,
            volume,
            HIGH_SPEECH_PROBABILITY,
            Some(-8.0),
            1,
        )
        .expect("volume expected");
        assert_eq!(volume, 210);

        volume = call_agc_sequence(
            &mut controller,
            &audio_buffer,
            volume,
            HIGH_SPEECH_PROBABILITY,
            Some(-58.0),
            1,
        )
        .expect("volume expected");
        assert_eq!(volume, 250);

        volume = call_agc_sequence(
            &mut controller,
            &audio_buffer,
            volume,
            HIGH_SPEECH_PROBABILITY,
            Some(-48.0),
            1,
        )
        .expect("volume expected");
        assert_eq!(volume, 250);
    }
}

#[test]
fn clipping_does_not_pull_low_volume_back_up() {
    for min_input_volume in [12, 20] {
        let config = test_config(min_input_volume);
        let mut controller = Controller::new(1, config);
        controller.initialize();

        let mut audio_buffer = create_audio_buffer();
        write_audio_buffer_samples(1000.0, 0.0, &mut audio_buffer);
        let _ = call_agc_sequence(
            &mut controller,
            &audio_buffer,
            80,
            HIGH_SPEECH_PROBABILITY,
            Some(SPEECH_LEVEL),
            1,
        );

        let initial_volume = controller.recommended_input_volume();
        write_audio_buffer_samples(0.0, 0.2, &mut audio_buffer);
        let _ = call_agc_sequence(
            &mut controller,
            &audio_buffer,
            initial_volume,
            HIGH_SPEECH_PROBABILITY,
            Some(SPEECH_LEVEL),
            1,
        );

        assert_eq!(controller.recommended_input_volume(), initial_volume);
    }
}

#[test]
fn enforce_min_input_volume_during_upwards_adjustment() {
    for min_input_volume in [12, 20] {
        let mut config = test_config(min_input_volume);
        config.target_range_min_dbfs = -30;
        config.update_input_volume_wait_frames = 1;
        config.speech_probability_threshold = 0.5;
        config.speech_ratio_threshold = 0.5;

        let mut controller = Controller::new(1, config);
        controller.initialize();

        let mut audio_buffer = create_audio_buffer();
        write_alternating_audio_buffer_samples(3276.7, &mut audio_buffer);

        let _ = call_agc_sequence(
            &mut controller,
            &audio_buffer,
            DEFAULT_INITIAL_INPUT_VOLUME,
            HIGH_SPEECH_PROBABILITY,
            Some(SPEECH_LEVEL),
            1,
        );

        let mut volume = call_agc_sequence(
            &mut controller,
            &audio_buffer,
            1,
            HIGH_SPEECH_PROBABILITY,
            Some(-17.0),
            1,
        )
        .expect("volume expected");

        assert_eq!(volume, min_input_volume);

        volume = call_agc_sequence(
            &mut controller,
            &audio_buffer,
            volume,
            HIGH_SPEECH_PROBABILITY,
            Some(-29.0),
            1,
        )
        .expect("volume expected");
        assert_eq!(volume, min_input_volume);

        volume = call_agc_sequence(
            &mut controller,
            &audio_buffer,
            volume,
            HIGH_SPEECH_PROBABILITY,
            Some(-30.0),
            1,
        )
        .expect("volume expected");
        assert_eq!(volume, min_input_volume);

        volume = call_agc_sequence(
            &mut controller,
            &audio_buffer,
            volume,
            HIGH_SPEECH_PROBABILITY,
            Some(-38.0),
            10,
        )
        .expect("volume expected");
        assert!(volume > min_input_volume);
    }
}

#[test]
fn recovery_after_manual_level_change_below_min() {
    for min_input_volume in [12, 20] {
        let config = test_config(min_input_volume);
        let mut controller = Controller::new(1, config);
        controller.initialize();

        let mut audio_buffer = create_audio_buffer();
        write_alternating_audio_buffer_samples(3276.7, &mut audio_buffer);

        let _ = call_agc_sequence(
            &mut controller,
            &audio_buffer,
            DEFAULT_INITIAL_INPUT_VOLUME,
            HIGH_SPEECH_PROBABILITY,
            Some(SPEECH_LEVEL),
            1,
        );

        let volume = call_agc_sequence(
            &mut controller,
            &audio_buffer,
            1,
            HIGH_SPEECH_PROBABILITY,
            Some(-17.0),
            1,
        )
        .expect("volume expected");

        assert_eq!(volume, min_input_volume);
    }
}

#[test]
fn mic_volume_response_to_rms_error() {
    for min_input_volume in [12, 20] {
        let config = test_config(min_input_volume);
        let mut controller = Controller::new(1, config);
        controller.initialize();

        let mut audio_buffer = create_audio_buffer();
        write_alternating_audio_buffer_samples(3276.7, &mut audio_buffer);

        let mut volume = call_agc_sequence(
            &mut controller,
            &audio_buffer,
            DEFAULT_INITIAL_INPUT_VOLUME,
            HIGH_SPEECH_PROBABILITY,
            Some(SPEECH_LEVEL),
            1,
        )
        .expect("volume expected");

        volume = call_recommend_input_volume(
            &mut controller,
            &audio_buffer,
            1,
            volume,
            HIGH_SPEECH_PROBABILITY,
            Some(-23.0),
        );
        volume = call_recommend_input_volume(
            &mut controller,
            &audio_buffer,
            1,
            volume,
            HIGH_SPEECH_PROBABILITY,
            Some(-28.0),
        );

        volume = call_recommend_input_volume(
            &mut controller,
            &audio_buffer,
            1,
            volume,
            HIGH_SPEECH_PROBABILITY,
            Some(-29.0),
        );
        assert_eq!(volume, 128);

        volume = call_recommend_input_volume(
            &mut controller,
            &audio_buffer,
            1,
            volume,
            HIGH_SPEECH_PROBABILITY,
            Some(-38.0),
        );
        assert_eq!(volume, 156);

        volume = call_recommend_input_volume(
            &mut controller,
            &audio_buffer,
            1,
            volume,
            HIGH_SPEECH_PROBABILITY,
            Some(-23.0),
        );
        volume = call_recommend_input_volume(
            &mut controller,
            &audio_buffer,
            1,
            volume,
            HIGH_SPEECH_PROBABILITY,
            Some(-18.0),
        );

        volume = call_recommend_input_volume(
            &mut controller,
            &audio_buffer,
            1,
            volume,
            HIGH_SPEECH_PROBABILITY,
            Some(-17.0),
        );
        assert_eq!(volume, 155);

        volume = call_recommend_input_volume(
            &mut controller,
            &audio_buffer,
            1,
            volume,
            HIGH_SPEECH_PROBABILITY,
            Some(-17.0),
        );
        assert_eq!(volume, 151);

        volume = call_recommend_input_volume(
            &mut controller,
            &audio_buffer,
            1,
            volume,
            HIGH_SPEECH_PROBABILITY,
            Some(-9.0),
        );
        assert_eq!(volume, 119);
    }
}

#[test]
fn mic_volume_is_limited() {
    for min_input_volume in [12, 20] {
        let config = test_config(min_input_volume);
        let mut controller = Controller::new(1, config);
        controller.initialize();

        let mut audio_buffer = create_audio_buffer();
        write_alternating_audio_buffer_samples(3276.7, &mut audio_buffer);

        let mut volume = call_agc_sequence(
            &mut controller,
            &audio_buffer,
            DEFAULT_INITIAL_INPUT_VOLUME,
            HIGH_SPEECH_PROBABILITY,
            Some(SPEECH_LEVEL),
            1,
        )
        .expect("volume expected");

        volume = call_recommend_input_volume(
            &mut controller,
            &audio_buffer,
            1,
            volume,
            HIGH_SPEECH_PROBABILITY,
            Some(-48.0),
        );
        assert_eq!(volume, 183);

        volume = call_recommend_input_volume(
            &mut controller,
            &audio_buffer,
            1,
            volume,
            HIGH_SPEECH_PROBABILITY,
            Some(-48.0),
        );
        assert_eq!(volume, 243);

        volume = call_recommend_input_volume(
            &mut controller,
            &audio_buffer,
            1,
            volume,
            HIGH_SPEECH_PROBABILITY,
            Some(-48.0),
        );
        assert_eq!(volume, 255);

        volume = call_recommend_input_volume(
            &mut controller,
            &audio_buffer,
            1,
            volume,
            HIGH_SPEECH_PROBABILITY,
            Some(-17.0),
        );
        assert_eq!(volume, 254);

        volume = call_recommend_input_volume(
            &mut controller,
            &audio_buffer,
            1,
            volume,
            HIGH_SPEECH_PROBABILITY,
            Some(22.0),
        );
        assert_eq!(volume, 194);

        volume = call_recommend_input_volume(
            &mut controller,
            &audio_buffer,
            1,
            volume,
            HIGH_SPEECH_PROBABILITY,
            Some(22.0),
        );
        assert_eq!(volume, 137);

        volume = call_recommend_input_volume(
            &mut controller,
            &audio_buffer,
            1,
            volume,
            HIGH_SPEECH_PROBABILITY,
            Some(22.0),
        );
        assert_eq!(volume, 88);

        volume = call_recommend_input_volume(
            &mut controller,
            &audio_buffer,
            1,
            volume,
            HIGH_SPEECH_PROBABILITY,
            Some(22.0),
        );
        assert_eq!(volume, 54);

        volume = call_recommend_input_volume(
            &mut controller,
            &audio_buffer,
            1,
            volume,
            HIGH_SPEECH_PROBABILITY,
            Some(22.0),
        );
        assert_eq!(volume, 33);

        volume = call_recommend_input_volume(
            &mut controller,
            &audio_buffer,
            1,
            volume,
            HIGH_SPEECH_PROBABILITY,
            Some(22.0),
        );
        assert_eq!(volume, std::cmp::max(18, min_input_volume));

        volume = call_recommend_input_volume(
            &mut controller,
            &audio_buffer,
            1,
            volume,
            HIGH_SPEECH_PROBABILITY,
            Some(22.0),
        );
        assert_eq!(volume, std::cmp::max(12, min_input_volume));
    }
}

#[test]
fn update_input_volume_wait_frames_is_effective_controller_level() {
    let mut config_wait_0 = test_config(20);
    config_wait_0.update_input_volume_wait_frames = 0;
    config_wait_0.speech_probability_threshold = 0.5;
    config_wait_0.speech_ratio_threshold = 0.8;

    let mut config_wait_100 = config_wait_0;
    config_wait_100.update_input_volume_wait_frames = 100;

    let mut controller_wait_0 = Controller::new(1, config_wait_0);
    let mut controller_wait_100 = Controller::new(1, config_wait_100);
    controller_wait_0.initialize();
    controller_wait_100.initialize();

    let mut audio_buffer = create_audio_buffer();
    write_alternating_audio_buffer_samples(3276.7, &mut audio_buffer);

    let input_volume = DEFAULT_INITIAL_INPUT_VOLUME;
    let mut volume_wait_0 = feed_frames(
        &mut controller_wait_0,
        &audio_buffer,
        99,
        input_volume,
        HIGH_SPEECH_PROBABILITY,
        Some(-42.0),
    );
    let mut volume_wait_100 = feed_frames(
        &mut controller_wait_100,
        &audio_buffer,
        99,
        input_volume,
        HIGH_SPEECH_PROBABILITY,
        Some(-42.0),
    );

    assert!(volume_wait_0 > input_volume);
    assert_eq!(volume_wait_100, input_volume);

    volume_wait_0 = feed_frames(
        &mut controller_wait_0,
        &audio_buffer,
        1,
        volume_wait_0,
        HIGH_SPEECH_PROBABILITY,
        Some(-42.0),
    );
    volume_wait_100 = feed_frames(
        &mut controller_wait_100,
        &audio_buffer,
        1,
        volume_wait_100,
        HIGH_SPEECH_PROBABILITY,
        Some(-42.0),
    );

    assert!(volume_wait_0 > input_volume);
    assert!(volume_wait_100 > input_volume);
}

#[test]
fn speech_ratio_threshold_is_effective_controller_level() {
    let mut config = test_config(20);
    config.update_input_volume_wait_frames = 10;
    config.speech_probability_threshold = 0.5;
    config.speech_ratio_threshold = 0.8;

    let mut controller_1 = Controller::new(1, config);
    let mut controller_2 = Controller::new(1, config);
    controller_1.initialize();
    controller_2.initialize();

    let mut audio_buffer = create_audio_buffer();
    write_alternating_audio_buffer_samples(3276.7, &mut audio_buffer);

    let input_volume = DEFAULT_INITIAL_INPUT_VOLUME;

    let mut volume_1 = feed_frames(
        &mut controller_1,
        &audio_buffer,
        1,
        input_volume,
        0.7,
        Some(-42.0),
    );
    let mut volume_2 = feed_frames(
        &mut controller_2,
        &audio_buffer,
        1,
        input_volume,
        0.4,
        Some(-42.0),
    );
    assert_eq!(volume_1, input_volume);
    assert_eq!(volume_2, input_volume);

    volume_1 = feed_frames(
        &mut controller_1,
        &audio_buffer,
        2,
        volume_1,
        0.4,
        Some(-42.0),
    );
    volume_2 = feed_frames(
        &mut controller_2,
        &audio_buffer,
        2,
        volume_2,
        0.4,
        Some(-42.0),
    );
    assert_eq!(volume_1, input_volume);
    assert_eq!(volume_2, input_volume);

    volume_1 = feed_frames(
        &mut controller_1,
        &audio_buffer,
        7,
        volume_1,
        0.7,
        Some(-42.0),
    );
    volume_2 = feed_frames(
        &mut controller_2,
        &audio_buffer,
        7,
        volume_2,
        0.7,
        Some(-42.0),
    );

    assert!(volume_1 > input_volume);
    assert_eq!(volume_2, input_volume);
}

#[test]
fn speech_probability_threshold_is_effective_controller_level() {
    let mut config = test_config(20);
    config.update_input_volume_wait_frames = 10;
    config.speech_probability_threshold = 0.5;
    config.speech_ratio_threshold = 0.8;

    let mut controller_1 = Controller::new(1, config);
    let mut controller_2 = Controller::new(1, config);
    controller_1.initialize();
    controller_2.initialize();

    let mut audio_buffer = create_audio_buffer();
    write_alternating_audio_buffer_samples(3276.7, &mut audio_buffer);

    let input_volume = DEFAULT_INITIAL_INPUT_VOLUME;

    let mut volume_1 = feed_frames(
        &mut controller_1,
        &audio_buffer,
        1,
        input_volume,
        0.5,
        Some(-42.0),
    );
    let mut volume_2 = feed_frames(
        &mut controller_2,
        &audio_buffer,
        1,
        input_volume,
        0.49,
        Some(-42.0),
    );
    assert_eq!(volume_1, input_volume);
    assert_eq!(volume_2, input_volume);

    volume_1 = feed_frames(
        &mut controller_1,
        &audio_buffer,
        2,
        volume_1,
        0.49,
        Some(-42.0),
    );
    volume_2 = feed_frames(
        &mut controller_2,
        &audio_buffer,
        2,
        volume_2,
        0.49,
        Some(-42.0),
    );
    assert_eq!(volume_1, input_volume);
    assert_eq!(volume_2, input_volume);

    volume_1 = feed_frames(
        &mut controller_1,
        &audio_buffer,
        7,
        volume_1,
        0.5,
        Some(-42.0),
    );
    volume_2 = feed_frames(
        &mut controller_2,
        &audio_buffer,
        7,
        volume_2,
        0.5,
        Some(-42.0),
    );

    assert!(volume_1 > input_volume);
    assert_eq!(volume_2, input_volume);
}

#[test]
fn min_input_volume_enforced_with_clipping_when_above_clipped_level_min() {
    let mut config = test_config(80);
    config.clipped_level_min = 70;

    let mut controller = Controller::new(1, config);
    controller.initialize();

    let mut audio_buffer = create_audio_buffer();
    write_audio_buffer_samples(4000.0, 0.8, &mut audio_buffer);

    let _ = call_agc_sequence(
        &mut controller,
        &audio_buffer,
        100,
        LOW_SPEECH_PROBABILITY,
        Some(-18.0),
        800,
    )
    .expect("volume expected");

    assert_eq!(controller.recommended_input_volume(), 80);
}

#[test]
fn clipped_level_min_enforced_with_clipping_when_above_min_input_volume() {
    let mut config = test_config(70);
    config.clipped_level_min = 80;

    let mut controller = Controller::new(1, config);
    controller.initialize();

    let mut audio_buffer = create_audio_buffer();
    write_audio_buffer_samples(4000.0, 0.8, &mut audio_buffer);

    let _ = call_agc_sequence(
        &mut controller,
        &audio_buffer,
        100,
        LOW_SPEECH_PROBABILITY,
        Some(-18.0),
        800,
    )
    .expect("volume expected");
    assert_eq!(controller.recommended_input_volume(), 80);
}

#[test]
fn do_not_log_recommended_input_volume_on_change_to_match_target() {
    let mut config = test_config(20);
    config.enable_clipping_predictor = false;
    let mut controller = Controller::new(1, config);
    controller.initialize();

    let mut audio_buffer = create_audio_buffer();
    write_audio_buffer_samples(1000.0, 0.0, &mut audio_buffer);

    let startup_volume = 255;
    let _ = call_agc_sequence(
        &mut controller,
        &audio_buffer,
        startup_volume,
        HIGH_SPEECH_PROBABILITY,
        Some(-20.0),
        1,
    )
    .expect("volume expected");

    write_audio_buffer_samples(32767.0, 1.0, &mut audio_buffer);
    let volume = call_agc_sequence(
        &mut controller,
        &audio_buffer,
        startup_volume,
        HIGH_SPEECH_PROBABILITY,
        Some(-20.0),
        1,
    )
    .expect("volume expected");

    assert!(volume < startup_volume);
    assert_eq!(controller.samples.as_pairs(), vec![]);
}

#[test]
fn log_recommended_input_volume_on_upward_change_to_match_target() {
    let mut config = test_config(20);
    config.enable_clipping_predictor = false;
    let mut controller = Controller::new(1, config);
    controller.initialize();

    let mut audio_buffer = create_audio_buffer();
    write_audio_buffer_samples(0.99 * 32767.0, 0.0, &mut audio_buffer);

    let startup_volume = 100;
    let volume = call_agc_sequence(
        &mut controller,
        &audio_buffer,
        startup_volume,
        HIGH_SPEECH_PROBABILITY,
        Some(-50.0),
        14,
    )
    .expect("volume expected");
    assert!(volume > startup_volume);
    assert!(!controller.samples.as_pairs().is_empty());
}

#[test]
fn log_recommended_input_volume_on_downward_change_to_match_target() {
    let mut config = test_config(20);
    config.enable_clipping_predictor = false;
    let mut controller = Controller::new(1, config);
    controller.initialize();

    let mut audio_buffer = create_audio_buffer();
    write_audio_buffer_samples(0.99 * 32767.0, 0.0, &mut audio_buffer);

    let startup_volume = 100;
    let volume = call_agc_sequence(
        &mut controller,
        &audio_buffer,
        startup_volume,
        HIGH_SPEECH_PROBABILITY,
        Some(-5.0),
        14,
    )
    .expect("volume expected");
    assert!(volume < startup_volume);
    assert!(!controller.samples.as_pairs().is_empty());
}

#[test]
fn disable_clipping_predictor_disables_clipping_predictor() {
    let mut config = test_config(20);
    config.enable_clipping_predictor = false;
    let mut controller = Controller::new(1, config);
    controller.initialize();

    assert!(!controller.inner.predicts_clipping());
}

#[test]
fn enable_clipping_predictor_enables_clipping_predictor() {
    let mut config = test_config(20);
    config.enable_clipping_predictor = true;
    let mut controller = Controller::new(1, config);
    controller.initialize();

    assert!(controller.inner.predicts_clipping());
}

#[test]
fn disable_clipping_predictor_does_not_lower_volume() {
    let mut volume = 255;
    let mut config = test_config(20);
    config.enable_clipping_predictor = false;
    let mut controller = Controller::new(1, config);
    controller.initialize();

    assert!(!controller.inner.predicts_clipping());

    let mut audio_buffer = create_audio_buffer();
    for _ in 0..31 {
        write_alternating_audio_buffer_samples(0.99 * MAX_SAMPLE_S16, &mut audio_buffer);
        volume = call_agc_sequence(
            &mut controller,
            &audio_buffer,
            volume,
            LOW_SPEECH_PROBABILITY,
            Some(SPEECH_LEVEL),
            5,
        )
        .expect("volume expected");

        write_audio_buffer_samples(0.99 * MAX_SAMPLE_S16, 0.0, &mut audio_buffer);
        volume = call_agc_sequence(
            &mut controller,
            &audio_buffer,
            volume,
            LOW_SPEECH_PROBABILITY,
            Some(SPEECH_LEVEL),
            5,
        )
        .expect("volume expected");

        assert_eq!(volume, 255);
    }
}

#[test]
fn used_clipping_predictions_produce_lower_analog_levels() {
    const INITIAL_LEVEL: i32 = 255;
    const CLOSE_TO_CLIPPING_PEAK_RATIO: f32 = 0.99;
    let mut volume_1 = INITIAL_LEVEL;
    let mut volume_2 = INITIAL_LEVEL;

    let mut config_1 = test_config(20);
    let mut config_2 = test_config(20);
    config_1.enable_clipping_predictor = true;
    config_2.enable_clipping_predictor = false;

    let mut controller_1 = Controller::new(1, config_1);
    let mut controller_2 = Controller::new(1, config_2);
    controller_1.initialize();
    controller_2.initialize();

    assert!(controller_1.inner.predicts_clipping());
    assert!(!controller_2.inner.predicts_clipping());

    let mut audio_buffer_1 = create_audio_buffer();
    let mut audio_buffer_2 = create_audio_buffer();

    write_alternating_audio_buffer_samples(
        CLOSE_TO_CLIPPING_PEAK_RATIO * MAX_SAMPLE_S16,
        &mut audio_buffer_1,
    );
    write_alternating_audio_buffer_samples(
        CLOSE_TO_CLIPPING_PEAK_RATIO * MAX_SAMPLE_S16,
        &mut audio_buffer_2,
    );
    volume_1 = call_agc_sequence(
        &mut controller_1,
        &audio_buffer_1,
        volume_1,
        LOW_SPEECH_PROBABILITY,
        Some(SPEECH_LEVEL),
        5,
    )
    .expect("volume expected");
    volume_2 = call_agc_sequence(
        &mut controller_2,
        &audio_buffer_2,
        volume_2,
        LOW_SPEECH_PROBABILITY,
        Some(SPEECH_LEVEL),
        5,
    )
    .expect("volume expected");

    write_audio_buffer_samples(
        CLOSE_TO_CLIPPING_PEAK_RATIO * MAX_SAMPLE_S16,
        0.0,
        &mut audio_buffer_1,
    );
    write_audio_buffer_samples(
        CLOSE_TO_CLIPPING_PEAK_RATIO * MAX_SAMPLE_S16,
        0.0,
        &mut audio_buffer_2,
    );
    volume_1 = call_agc_sequence(
        &mut controller_1,
        &audio_buffer_1,
        volume_1,
        LOW_SPEECH_PROBABILITY,
        Some(SPEECH_LEVEL),
        5,
    )
    .expect("volume expected");
    volume_2 = call_agc_sequence(
        &mut controller_2,
        &audio_buffer_2,
        volume_2,
        LOW_SPEECH_PROBABILITY,
        Some(SPEECH_LEVEL),
        5,
    )
    .expect("volume expected");

    assert_eq!(volume_1, INITIAL_LEVEL - 15);
    assert_eq!(volume_2, INITIAL_LEVEL);

    for _ in 0..30 {
        write_alternating_audio_buffer_samples(
            CLOSE_TO_CLIPPING_PEAK_RATIO * MAX_SAMPLE_S16,
            &mut audio_buffer_1,
        );
        write_alternating_audio_buffer_samples(
            CLOSE_TO_CLIPPING_PEAK_RATIO * MAX_SAMPLE_S16,
            &mut audio_buffer_2,
        );
        volume_1 = call_agc_sequence(
            &mut controller_1,
            &audio_buffer_1,
            volume_1,
            LOW_SPEECH_PROBABILITY,
            Some(SPEECH_LEVEL),
            5,
        )
        .expect("volume expected");
        volume_2 = call_agc_sequence(
            &mut controller_2,
            &audio_buffer_2,
            volume_2,
            LOW_SPEECH_PROBABILITY,
            Some(SPEECH_LEVEL),
            5,
        )
        .expect("volume expected");

        write_audio_buffer_samples(
            CLOSE_TO_CLIPPING_PEAK_RATIO * MAX_SAMPLE_S16,
            0.0,
            &mut audio_buffer_1,
        );
        write_audio_buffer_samples(
            CLOSE_TO_CLIPPING_PEAK_RATIO * MAX_SAMPLE_S16,
            0.0,
            &mut audio_buffer_2,
        );
        volume_1 = call_agc_sequence(
            &mut controller_1,
            &audio_buffer_1,
            volume_1,
            LOW_SPEECH_PROBABILITY,
            Some(SPEECH_LEVEL),
            5,
        )
        .expect("volume expected");
        volume_2 = call_agc_sequence(
            &mut controller_2,
            &audio_buffer_2,
            volume_2,
            LOW_SPEECH_PROBABILITY,
            Some(SPEECH_LEVEL),
            5,
        )
        .expect("volume expected");

        assert_eq!(volume_1, INITIAL_LEVEL - 15);
        assert_eq!(volume_2, INITIAL_LEVEL);
    }

    write_alternating_audio_buffer_samples(
        CLOSE_TO_CLIPPING_PEAK_RATIO * MAX_SAMPLE_S16,
        &mut audio_buffer_1,
    );
    write_alternating_audio_buffer_samples(
        CLOSE_TO_CLIPPING_PEAK_RATIO * MAX_SAMPLE_S16,
        &mut audio_buffer_2,
    );
    volume_1 = call_agc_sequence(
        &mut controller_1,
        &audio_buffer_1,
        volume_1,
        LOW_SPEECH_PROBABILITY,
        Some(SPEECH_LEVEL),
        5,
    )
    .expect("volume expected");
    volume_2 = call_agc_sequence(
        &mut controller_2,
        &audio_buffer_2,
        volume_2,
        LOW_SPEECH_PROBABILITY,
        Some(SPEECH_LEVEL),
        5,
    )
    .expect("volume expected");

    write_audio_buffer_samples(
        CLOSE_TO_CLIPPING_PEAK_RATIO * MAX_SAMPLE_S16,
        0.0,
        &mut audio_buffer_1,
    );
    write_audio_buffer_samples(
        CLOSE_TO_CLIPPING_PEAK_RATIO * MAX_SAMPLE_S16,
        0.0,
        &mut audio_buffer_2,
    );
    volume_1 = call_agc_sequence(
        &mut controller_1,
        &audio_buffer_1,
        volume_1,
        LOW_SPEECH_PROBABILITY,
        Some(SPEECH_LEVEL),
        5,
    )
    .expect("volume expected");
    volume_2 = call_agc_sequence(
        &mut controller_2,
        &audio_buffer_2,
        volume_2,
        LOW_SPEECH_PROBABILITY,
        Some(SPEECH_LEVEL),
        5,
    )
    .expect("volume expected");

    assert_eq!(volume_1, INITIAL_LEVEL - 2 * 15);
    assert_eq!(volume_2, INITIAL_LEVEL);

    for _ in 0..60 {
        write_alternating_audio_buffer_samples(0.0, &mut audio_buffer_1);
        write_alternating_audio_buffer_samples(0.0, &mut audio_buffer_2);
        volume_1 = call_agc_sequence(
            &mut controller_1,
            &audio_buffer_1,
            volume_1,
            LOW_SPEECH_PROBABILITY,
            Some(SPEECH_LEVEL),
            5,
        )
        .expect("volume expected");
        volume_2 = call_agc_sequence(
            &mut controller_2,
            &audio_buffer_2,
            volume_2,
            LOW_SPEECH_PROBABILITY,
            Some(SPEECH_LEVEL),
            5,
        )
        .expect("volume expected");

        write_audio_buffer_samples(0.0, 0.0, &mut audio_buffer_1);
        write_audio_buffer_samples(0.0, 0.0, &mut audio_buffer_2);
        volume_1 = call_agc_sequence(
            &mut controller_1,
            &audio_buffer_1,
            volume_1,
            LOW_SPEECH_PROBABILITY,
            Some(SPEECH_LEVEL),
            5,
        )
        .expect("volume expected");
        volume_2 = call_agc_sequence(
            &mut controller_2,
            &audio_buffer_2,
            volume_2,
            LOW_SPEECH_PROBABILITY,
            Some(SPEECH_LEVEL),
            5,
        )
        .expect("volume expected");
    }

    assert_eq!(volume_1, INITIAL_LEVEL - 2 * 15);
    assert_eq!(volume_2, INITIAL_LEVEL);

    write_alternating_audio_buffer_samples(MAX_SAMPLE_S16, &mut audio_buffer_1);
    write_alternating_audio_buffer_samples(MAX_SAMPLE_S16, &mut audio_buffer_2);
    volume_1 = call_agc_sequence(
        &mut controller_1,
        &audio_buffer_1,
        volume_1,
        LOW_SPEECH_PROBABILITY,
        Some(SPEECH_LEVEL),
        1,
    )
    .expect("volume expected");
    volume_2 = call_agc_sequence(
        &mut controller_2,
        &audio_buffer_2,
        volume_2,
        LOW_SPEECH_PROBABILITY,
        Some(SPEECH_LEVEL),
        1,
    )
    .expect("volume expected");

    assert_eq!(volume_1, INITIAL_LEVEL - 3 * 15);
    assert_eq!(volume_2, INITIAL_LEVEL - 15);

    for _ in 0..30 {
        write_alternating_audio_buffer_samples(MAX_SAMPLE_S16, &mut audio_buffer_1);
        write_alternating_audio_buffer_samples(MAX_SAMPLE_S16, &mut audio_buffer_2);
        volume_1 = call_agc_sequence(
            &mut controller_1,
            &audio_buffer_1,
            volume_1,
            LOW_SPEECH_PROBABILITY,
            Some(SPEECH_LEVEL),
            5,
        )
        .expect("volume expected");
        volume_2 = call_agc_sequence(
            &mut controller_2,
            &audio_buffer_2,
            volume_2,
            LOW_SPEECH_PROBABILITY,
            Some(SPEECH_LEVEL),
            5,
        )
        .expect("volume expected");

        write_audio_buffer_samples(MAX_SAMPLE_S16, 1.0, &mut audio_buffer_1);
        write_audio_buffer_samples(MAX_SAMPLE_S16, 1.0, &mut audio_buffer_2);
        volume_1 = call_agc_sequence(
            &mut controller_1,
            &audio_buffer_1,
            volume_1,
            LOW_SPEECH_PROBABILITY,
            Some(SPEECH_LEVEL),
            5,
        )
        .expect("volume expected");
        volume_2 = call_agc_sequence(
            &mut controller_2,
            &audio_buffer_2,
            volume_2,
            LOW_SPEECH_PROBABILITY,
            Some(SPEECH_LEVEL),
            5,
        )
        .expect("volume expected");
    }

    assert_eq!(volume_1, INITIAL_LEVEL - 3 * 15);
    assert_eq!(volume_2, INITIAL_LEVEL - 15);

    write_alternating_audio_buffer_samples(MAX_SAMPLE_S16, &mut audio_buffer_1);
    write_alternating_audio_buffer_samples(MAX_SAMPLE_S16, &mut audio_buffer_2);
    volume_1 = call_agc_sequence(
        &mut controller_1,
        &audio_buffer_1,
        volume_1,
        LOW_SPEECH_PROBABILITY,
        Some(SPEECH_LEVEL),
        1,
    )
    .expect("volume expected");
    volume_2 = call_agc_sequence(
        &mut controller_2,
        &audio_buffer_2,
        volume_2,
        LOW_SPEECH_PROBABILITY,
        Some(SPEECH_LEVEL),
        1,
    )
    .expect("volume expected");

    assert_eq!(volume_1, INITIAL_LEVEL - 4 * 15);
    assert_eq!(volume_2, INITIAL_LEVEL - 2 * 15);
}

#[test]
fn no_recommendation_before_audio_was_analyzed() {
    let mut controller = Controller::new(1, default_config());
    controller.initialize();
    assert_eq!(controller.recommend_input_volume(0.9, Some(-20.0)), None);
}

#[test]
fn lowest_channel_decides() {
    let mut config = test_config(20);
    config.clipped_wait_frames = 0;
    let mut controller = Controller::new(2, config);
    controller.initialize();
    let audio_buffer = AudioBuffer {
        channels: vec![vec![1000.0; 320], vec![1000.0; 320]],
    };
    let volume = call_agc_sequence(&mut controller, &audio_buffer, 200, 0.9, Some(-40.0), 2);
    assert_eq!(volume, Some(controller.recommended_input_volume()));
}

#[test]
fn volume_updates_follow_the_gain_map() {
    assert_eq!(compute_volume_update(0, 100, 12, 255), 100);
    assert_eq!(GAIN_MAP[0], -56);
    // The first volume whose gain is at least five above that of 100.
    let raised = compute_volume_update(5, 100, 12, 255);
    assert!(GAIN_MAP[raised as usize] - GAIN_MAP[100] >= 5);
    assert!(GAIN_MAP[raised as usize - 1] - GAIN_MAP[100] < 5);
    // The first volume from above whose gain is at least five below.
    let lowered = compute_volume_update(-5, 100, 12, 255);
    assert!(GAIN_MAP[lowered as usize] - GAIN_MAP[100] <= -5);
    assert!(GAIN_MAP[lowered as usize + 1] - GAIN_MAP[100] > -5);
    assert_eq!(compute_volume_update(100, 100, 12, 200), 200);
    assert_eq!(compute_volume_update(-100, 100, 12, 200), 12);
}

#[test]
fn steps_beyond_the_volume_range_are_accepted_without_predictor() {
    let mut config = test_config(20);
    config.enable_clipping_predictor = false;
    config.clipped_level_step = 300;
    let controller = Controller::new(1, config);
    assert_eq!(controller.recommended_input_volume(), 0);
    // A step is only needed once the volume is to be lowered by it.
    config.clipped_level_step = 0;
    let controller = Controller::new(1, config);
    assert_eq!(controller.recommended_input_volume(), 0);
}
