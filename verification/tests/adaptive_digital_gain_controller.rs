use aec3::audio_processing::agc2::adaptive_digital_gain_controller::{
    AdaptiveDigitalConfig, AdaptiveDigitalGainController, FrameInfo, GainControllerFunctions,
    GainControllerParameters,
};
use aec3::audio_processing::agc2::agc2_common::{ADJACENT_SPEECH_FRAMES_THRESHOLD, FRAME_DURATION_MS};
use aec3::audio_processing::agc2::gain_applier::GainApplierParameters;

const MIN_LEVEL_DBFS: f32 = -90.31;

fn db_to_ratio(v: f32) -> f32 {
    10.0f32.powf(v / 20.0)
}

fn default_config() -> AdaptiveDigitalConfig<f32> {
    AdaptiveDigitalConfig {
        headroom_db: 5.0,
        max_gain_db: 50.0,
        initial_gain_db: 15.0,
        max_gain_change_db_per_second: 6.0,
        max_output_noise_level_dbfs: -50.0,
    }
}

fn functions() -> GainControllerFunctions<impl Fn(i32) -> f32, impl Fn((f32, f32)) -> f32> {
    GainControllerFunctions {
        number: |n: i32| n as f32,
        power: |(base, exponent): (f32, f32)| base.powf(exponent),
    }
}

/// A gain controller of single precision samples.
struct Controller(AdaptiveDigitalGainController<f32>);

impl Controller {
    fn new(config: AdaptiveDigitalConfig<f32>, adjacent_speech_frames_threshold: i32) -> Self {
        Controller(AdaptiveDigitalGainController::new(
            config,
            adjacent_speech_frames_threshold,
            GainControllerParameters {
                samples: GainApplierParameters {
                    one: 1.0,
                    min_sample: -32768.0,
                    max_sample: 32767.0,
                },
                ten: 10.0,
                twenty: 20.0,
                frame_duration_ms: FRAME_DURATION_MS as f32,
                second_ms: 1000.0,
                vad_confidence_threshold: 0.95,
                limiter_threshold_dbfs: -1.0,
                min_speech_level_dbfs: -150.0,
                min_noise_level_dbfs: -90.0,
            },
            &functions(),
        ))
    }

    fn process(&mut self, info: &FrameInfo<f32>, frame: &mut [Vec<f32>]) {
        self.0.process(info, frame, &functions());
    }
}

/// A frame of samples, channel by channel.
struct VectorFloatFrame {
    channels: Vec<Vec<f32>>,
}

impl VectorFloatFrame {
    fn new(num_channels: usize, samples_per_channel: usize, value: f32) -> Self {
        VectorFloatFrame {
            channels: vec![vec![value; samples_per_channel]; num_channels],
        }
    }

    fn view(&mut self) -> &mut [Vec<f32>] {
        &mut self.channels
    }

    fn view_const(&self) -> Vec<&[f32]> {
        self.channels.iter().map(Vec::as_slice).collect()
    }

    fn sample(&self, channel: usize, index: usize) -> f32 {
        self.channels[channel][index]
    }
}

const MONO: usize = 1;
const STEREO: usize = 2;
const FRAME_LEN_10MS_8KHZ: usize = 80;
const FRAME_LEN_10MS_48KHZ: usize = 480;

const MAX_SPEECH_PROBABILITY: f32 = 1.0;
const NO_NOISE_DBFS: f32 = MIN_LEVEL_DBFS;
const WITH_NOISE_DBFS: f32 = -20.0;
const NUM_EXTRA_FRAMES: i32 = 10;

fn get_max_gain_change_per_frame_db(max_gain_change_db_per_second: f32) -> f32 {
    max_gain_change_db_per_second * FRAME_DURATION_MS as f32 / 1000.0
}

fn get_frame_info_to_not_adapt(config: AdaptiveDigitalConfig<f32>) -> FrameInfo<f32> {
    FrameInfo {
        speech_probability: MAX_SPEECH_PROBABILITY,
        speech_level_dbfs: -config.initial_gain_db - config.headroom_db,
        speech_level_reliable: true,
        noise_rms_dbfs: NO_NOISE_DBFS,
        headroom_db: config.headroom_db,
        limiter_envelope_dbfs: -2.0,
    }
}

#[test]
fn gain_applier_should_not_crash() {
    let mut gain_applier =
        Controller::new(default_config(), ADJACENT_SPEECH_FRAMES_THRESHOLD as i32);
    let mut fake_audio = VectorFloatFrame::new(STEREO, FRAME_LEN_10MS_48KHZ, 10000.0);
    let mut fake_view = fake_audio.view();
    gain_applier.process(&get_frame_info_to_not_adapt(default_config()), &mut fake_view);
}

#[test]
fn max_gain_applied() {
    let default_config = default_config();
    let num_frames_to_adapt =
        (default_config.max_gain_db / get_max_gain_change_per_frame_db(default_config.max_gain_change_db_per_second)) as i32
            + NUM_EXTRA_FRAMES;
    let config = AdaptiveDigitalConfig {
        max_output_noise_level_dbfs: -40.0,
        ..default_config
    };
    let mut gain_applier = Controller::new(
        config,
        ADJACENT_SPEECH_FRAMES_THRESHOLD as i32,
    );
    let mut info = get_frame_info_to_not_adapt(config);
    info.speech_level_dbfs = -60.0;

    let mut applied_gain = 0.0;
    for _ in 0..num_frames_to_adapt {
        let mut fake_audio = VectorFloatFrame::new(MONO, FRAME_LEN_10MS_8KHZ, 1.0);
        let mut fake_view = fake_audio.view();
        gain_applier.process(&info, &mut fake_view);
        applied_gain = fake_audio.sample(0, 0);
    }
    let applied_gain_db = 20.0 * applied_gain.log10();
    assert!((applied_gain_db - default_config.max_gain_db).abs() <= 0.1);
}

#[test]
fn gain_does_not_change_fast() {
    let default_config = default_config();
    let mut gain_applier = Controller::new(
        default_config,
        ADJACENT_SPEECH_FRAMES_THRESHOLD as i32,
    );

    const INITIAL_LEVEL_DBFS: f32 = -25.0;
    let max_gain_change_db_per_frame =
        get_max_gain_change_per_frame_db(default_config.max_gain_change_db_per_second);
    let num_frames_to_adapt = (INITIAL_LEVEL_DBFS.abs() / max_gain_change_db_per_frame) as i32
        + NUM_EXTRA_FRAMES;

    let max_change_per_frame_linear = db_to_ratio(max_gain_change_db_per_frame);

    let mut last_gain_linear = db_to_ratio(default_config.initial_gain_db);
    for _ in 0..num_frames_to_adapt {
        let mut fake_audio = VectorFloatFrame::new(MONO, FRAME_LEN_10MS_8KHZ, 1.0);
        let mut info = get_frame_info_to_not_adapt(default_config);
        info.speech_level_dbfs = INITIAL_LEVEL_DBFS;
        let mut fake_view = fake_audio.view();
        gain_applier.process(&info, &mut fake_view);
        let current_gain_linear = fake_audio.sample(0, 0);
        assert!((current_gain_linear - last_gain_linear).abs() <= max_change_per_frame_linear);
        last_gain_linear = current_gain_linear;
    }

    for _ in 0..num_frames_to_adapt {
        let mut fake_audio = VectorFloatFrame::new(MONO, FRAME_LEN_10MS_8KHZ, 1.0);
        let mut info = get_frame_info_to_not_adapt(default_config);
        info.speech_level_dbfs = 0.0;
        let mut fake_view = fake_audio.view();
        gain_applier.process(&info, &mut fake_view);
        let current_gain_linear = fake_audio.sample(0, 0);
        assert!((current_gain_linear - last_gain_linear).abs() <= max_change_per_frame_linear);
        last_gain_linear = current_gain_linear;
    }
}

#[test]
fn gain_is_ramped_in_a_frame() {
    let default_config = default_config();
    let mut gain_applier = Controller::new(
        default_config,
        ADJACENT_SPEECH_FRAMES_THRESHOLD as i32,
    );

    const INITIAL_LEVEL_DBFS: f32 = -25.0;
    let mut fake_audio = VectorFloatFrame::new(MONO, FRAME_LEN_10MS_48KHZ, 1.0);
    let mut info = get_frame_info_to_not_adapt(default_config);
    info.speech_level_dbfs = INITIAL_LEVEL_DBFS;
    let mut fake_view = fake_audio.view();
    gain_applier.process(&info, &mut fake_view);

    let channel = fake_audio.view_const();
    let mut maximal_difference: f32 = 0.0;
    let mut current_value = db_to_ratio(default_config.initial_gain_db);
    for &x in channel[0] {
        let difference = (x - current_value).abs();
        maximal_difference = maximal_difference.max(difference);
        current_value = x;
    }

    let max_change_per_frame_linear =
        db_to_ratio(get_max_gain_change_per_frame_db(default_config.max_gain_change_db_per_second));
    let max_change_per_sample = max_change_per_frame_linear / FRAME_LEN_10MS_48KHZ as f32;
    assert!(maximal_difference <= max_change_per_sample);
}

#[test]
fn noise_limits_gain() {
    let default_config = default_config();
    let mut gain_applier = Controller::new(
        default_config,
        ADJACENT_SPEECH_FRAMES_THRESHOLD as i32,
    );

    const INITIAL_LEVEL_DBFS: f32 = -25.0;
    let num_initial_frames =
        (default_config.initial_gain_db / get_max_gain_change_per_frame_db(default_config.max_gain_change_db_per_second)) as i32;
    const NUM_FRAMES: i32 = 50;

    assert!(WITH_NOISE_DBFS > default_config.max_output_noise_level_dbfs);

    for i in 0..(num_initial_frames + NUM_FRAMES) {
        let mut fake_audio = VectorFloatFrame::new(MONO, FRAME_LEN_10MS_48KHZ, 1.0);
        let mut info = get_frame_info_to_not_adapt(default_config);
        info.speech_level_dbfs = INITIAL_LEVEL_DBFS;
        info.noise_rms_dbfs = WITH_NOISE_DBFS;
        let mut fake_view = fake_audio.view();
        gain_applier.process(&info, &mut fake_view);

        if i > num_initial_frames {
            let max_ratio = fake_audio
                .view_const()[0]
                .iter()
                .copied()
                .fold(f32::MIN, f32::max);
            assert!((max_ratio - 1.0).abs() <= 0.001);
        }
    }
}

#[test]
fn can_handle_positive_speech_levels() {
    let default_config = default_config();
    let mut gain_applier = Controller::new(
        default_config,
        ADJACENT_SPEECH_FRAMES_THRESHOLD as i32,
    );

    let mut fake_audio = VectorFloatFrame::new(STEREO, FRAME_LEN_10MS_48KHZ, 10000.0);
    let mut info = get_frame_info_to_not_adapt(default_config);
    info.speech_level_dbfs = 5.0;
    let mut fake_view = fake_audio.view();
    gain_applier.process(&info, &mut fake_view);
}

#[test]
fn audio_level_limits_gain() {
    let default_config = default_config();
    let mut gain_applier = Controller::new(
        default_config,
        ADJACENT_SPEECH_FRAMES_THRESHOLD as i32,
    );

    const INITIAL_LEVEL_DBFS: f32 = -25.0;
    let num_initial_frames =
        (default_config.initial_gain_db / get_max_gain_change_per_frame_db(default_config.max_gain_change_db_per_second)) as i32;
    const NUM_FRAMES: i32 = 50;

    assert!(WITH_NOISE_DBFS > default_config.max_output_noise_level_dbfs);

    for i in 0..(num_initial_frames + NUM_FRAMES) {
        let mut fake_audio = VectorFloatFrame::new(MONO, FRAME_LEN_10MS_48KHZ, 1.0);
        let mut info = get_frame_info_to_not_adapt(default_config);
        info.speech_level_dbfs = INITIAL_LEVEL_DBFS;
        info.limiter_envelope_dbfs = 1.0;
        info.speech_level_reliable = false;
        let mut fake_view = fake_audio.view();
        gain_applier.process(&info, &mut fake_view);

        if i > num_initial_frames {
            let max_ratio = fake_audio
                .view_const()[0]
                .iter()
                .copied()
                .fold(f32::MIN, f32::max);
            assert!((max_ratio - 1.0).abs() <= 0.001);
        }
    }
}

#[test]
fn do_not_increase_gain_with_too_few_speech_frames() {
    for adjacent_speech_frames_threshold in [
        1,
        7,
        31,
        ADJACENT_SPEECH_FRAMES_THRESHOLD as i32,
    ] {
        let default_config = default_config();
        let mut gain_applier =
            Controller::new(default_config, adjacent_speech_frames_threshold);

        let mut info = get_frame_info_to_not_adapt(default_config);
        info.speech_level_dbfs -= 12.0;

        let mut prev_gain = 0.0;
        for i in 0..adjacent_speech_frames_threshold {
            let mut audio = VectorFloatFrame::new(MONO, FRAME_LEN_10MS_48KHZ, 1.0);
            let mut audio_view = audio.view();
            gain_applier.process(&info, &mut audio_view);
            let gain = audio.sample(0, 0);
            if i > 0 {
                assert_eq!(prev_gain, gain);
            }
            prev_gain = gain;
        }
    }
}

#[test]
fn increase_gain_with_enough_speech_frames() {
    for adjacent_speech_frames_threshold in [
        1,
        7,
        31,
        ADJACENT_SPEECH_FRAMES_THRESHOLD as i32,
    ] {
        let default_config = default_config();
        let mut gain_applier =
            Controller::new(default_config, adjacent_speech_frames_threshold);

        let mut info = get_frame_info_to_not_adapt(default_config);
        info.speech_level_dbfs -= 12.0;

        let mut prev_gain = 0.0;
        for _ in 0..adjacent_speech_frames_threshold {
            let mut audio = VectorFloatFrame::new(MONO, FRAME_LEN_10MS_48KHZ, 1.0);
            let mut audio_view = audio.view();
            gain_applier.process(&info, &mut audio_view);
            prev_gain = audio.sample(0, 0);
        }

        let mut audio = VectorFloatFrame::new(MONO, FRAME_LEN_10MS_48KHZ, 1.0);
        let mut audio_view = audio.view();
        gain_applier.process(&info, &mut audio_view);
        assert!(audio.sample(0, 0) > prev_gain);
    }
}

#[test]
fn low_speech_probability_restarts_the_count() {
    let config = default_config();
    let mut gain_applier = Controller::new(config, 3);
    let mut info = get_frame_info_to_not_adapt(config);
    info.speech_level_dbfs -= 12.0;
    let mut gains = Vec::new();
    for probability in [1.0, 1.0, 0.5, 1.0, 1.0, 1.0, 1.0] {
        info.speech_probability = probability;
        let mut audio = VectorFloatFrame::new(MONO, FRAME_LEN_10MS_8KHZ, 1.0);
        gain_applier.process(&info, audio.view());
        gains.push(audio.sample(0, 79));
    }
    for i in 1..5 {
        assert_eq!(gains[i], gains[0]);
    }
    assert!(gains[5] > gains[4]);
    assert!(gains[6] > gains[5]);
}
