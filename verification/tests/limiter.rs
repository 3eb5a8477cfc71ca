use aec3::audio_processing::agc2::agc2_common::INTERPOLATED_GAIN_CURVE_TOTAL_POINTS;
use aec3::audio_processing::agc2::fixed_digital_level_estimator::LevelEstimatorParameters;
use aec3::audio_processing::agc2::interpolated_gain_curve::GainCurveParameters;
use aec3::audio_processing::agc2::limiter::{Limiter, LimiterFunctions, SampleRange};

const MAX_ABS_FLOAT_S16_VALUE: f32 = 32768.0;

const APPROXIMATION_PARAMS_X: [f32; INTERPOLATED_GAIN_CURVE_TOTAL_POINTS] = [
    30057.296875,
    30148.986328125,
    30240.67578125,
    30424.052734375,
    30607.4296875,
    30790.806640625,
    30974.18359375,
    31157.560546875,
    31340.939453125,
    31524.31640625,
    31707.693359375,
    31891.0703125,
    32074.447265625,
    32257.82421875,
    32441.201171875,
    32624.580078125,
    32807.95703125,
    32991.33203125,
    33174.7109375,
    33358.08984375,
    33541.46484375,
    33724.84375,
    33819.53515625,
    34009.5390625,
    34200.05859375,
    34389.81640625,
    34674.48828125,
    35054.375,
    35434.86328125,
    35814.81640625,
    36195.16796875,
    36575.03125,
];

const APPROXIMATION_PARAMS_M: [f32; INTERPOLATED_GAIN_CURVE_TOTAL_POINTS] = [
    -3.515235675877192989e-07,
    -1.050251626111275982e-06,
    -2.085213736791047268e-06,
    -3.443004743530764244e-06,
    -4.773849468620028347e-06,
    -6.077375928725814447e-06,
    -7.353257842623861507e-06,
    -8.601219633419532329e-06,
    -9.821013009059242904e-06,
    -1.101243378798244521e-05,
    -1.217532644659513608e-05,
    -1.330956911260727793e-05,
    -1.441507538402220234e-05,
    -1.549179251014720649e-05,
    -1.653970684856176376e-05,
    -1.755882840370759368e-05,
    -1.854918446042574942e-05,
    -1.951086778717581183e-05,
    -2.044398024736437947e-05,
    -2.134862734237685800e-05,
    -2.222496914328075945e-05,
    -2.265374678245279938e-05,
    -2.242570917587727308e-05,
    -2.220122041762806475e-05,
    -2.198020956711843610e-05,
    -2.176260204578284174e-05,
    -2.133731686626560986e-05,
    -2.092481918225530535e-05,
    -2.052459603874012828e-05,
    -2.013615448959171772e-05,
    -1.975903069251216948e-05,
    -1.939277899509761482e-05,
];

const APPROXIMATION_PARAMS_Q: [f32; INTERPOLATED_GAIN_CURVE_TOTAL_POINTS] = [
    1.010565876960754395,
    1.031631827354431152,
    1.062929749488830566,
    1.104239225387573242,
    1.144973039627075195,
    1.185109615325927734,
    1.224629044532775879,
    1.263512492179870605,
    1.301741957664489746,
    1.339300632476806641,
    1.376173257827758789,
    1.412345528602600098,
    1.447803974151611328,
    1.482536554336547852,
    1.516532182693481445,
    1.549780607223510742,
    1.582272171974182129,
    1.613999366760253906,
    1.644955039024353027,
    1.675132393836975098,
    1.704526185989379883,
    1.718986630439758301,
    1.711274504661560059,
    1.703639745712280273,
    1.696081161499023438,
    1.688597679138183594,
    1.673851132392883301,
    1.659391283988952637,
    1.645209431648254395,
    1.631297469139099121,
    1.617647409439086914,
    1.604251742362976074,
];

fn curve_parameters() -> GainCurveParameters<f32> {
    GainCurveParameters {
        x: APPROXIMATION_PARAMS_X,
        m: APPROXIMATION_PARAMS_M,
        q: APPROXIMATION_PARAMS_Q,
        one: 1.0,
        max_input_level_linear: 36766.300710566735f32,
        input_level_scaling_factor: 32768.0,
    }
}

fn functions() -> LimiterFunctions<impl Fn(usize) -> f32, impl Fn(f32) -> f32> {
    LimiterFunctions {
        number: |n: usize| n as f32,
        attack_power: |v: f32| v.powf(8.0),
    }
}

fn limiter(samples_per_channel: usize) -> Limiter<f32> {
    Limiter::new(
        samples_per_channel,
        SampleRange {
            one: 1.0,
            min_sample: -32768.0,
            max_sample: 32767.0,
        },
        curve_parameters(),
        LevelEstimatorParameters {
            one: 1.0,
            attack_filter_constant: 0.0,
            decay_filter_constant: 0.9971259,
        },
    )
}

/// A frame of samples, channel by channel.
struct VectorFloatFrame {
    channels: Vec<Vec<f32>>,
}

impl VectorFloatFrame {
    fn new(num_channels: usize, samples_per_channel: usize, value: f32) -> Self {
        VectorFloatFrame {
            channels: vec![vec![value; samples_per_channel]; num_channels],
        }
    }

    fn view(&mut self) -> &mut [Vec<f32>] {
        &mut self.channels
    }

    fn view_const(&self) -> Vec<&[f32]> {
        self.channels.iter().map(Vec::as_slice).collect()
    }
}

fn db_to_ratio(v: f32) -> f32 {
    10.0f32.powf(v / 20.0)
}

fn dbfs_to_float_s16(v: f32) -> f32 {
    db_to_ratio(v) * MAX_ABS_FLOAT_S16_VALUE
}

#[test]
fn limiter_should_construct_and_run() {
    const SAMPLES_PER_CHANNEL: usize = 480;
    let mut limiter = limiter(SAMPLES_PER_CHANNEL);

    let mut frame = VectorFloatFrame::new(1, SAMPLES_PER_CHANNEL, MAX_ABS_FLOAT_S16_VALUE);
    let mut view = frame.view();
    limiter.process(&mut view, &functions());
}

#[test]
fn output_volume_above_threshold() {
    const SAMPLES_PER_CHANNEL: usize = 480;
    let input_level = (MAX_ABS_FLOAT_S16_VALUE
        + dbfs_to_float_s16(1.0))
        / 2.0;
    let mut limiter = limiter(SAMPLES_PER_CHANNEL);

    let mut frame = VectorFloatFrame::new(1, SAMPLES_PER_CHANNEL, input_level);

    for _ in 0..5 {
        {
            let mut view = frame.view();
            view[0].fill(input_level);
            limiter.process(&mut view, &functions());
        }
    }

    {
        let mut view = frame.view();
        view[0].fill(input_level);
        limiter.process(&mut view, &functions());
    }

    for &sample in frame.view_const()[0] {
        assert!(0.9 * MAX_ABS_FLOAT_S16_VALUE < sample);
    }
}

#[test]
fn quiet_samples_pass_unchanged() {
    let mut limiter = limiter(80);
    let samples: Vec<f32> = (0..80).map(|i| i as f32 * 10.0).collect();
    let mut frame = vec![samples.clone(); 2];
    limiter.process(&mut frame, &functions());
    assert_eq!(frame[0], samples);
    assert_eq!(frame[1], samples);
    assert_eq!(limiter.last_audio_level(), 790.0);
    assert_eq!(limiter.get_gain_curve_stats().look_ups_identity_region, 20);
    limiter.reset();
    assert_eq!(limiter.last_audio_level(), 0.0);
    limiter.set_samples_per_channel(160);
    let mut frame = vec![vec![40000.0f32; 160]];
    limiter.process(&mut frame, &functions());
    assert!(frame[0].iter().all(|s| *s <= 32767.0));
}
