use aec3::audio_processing::agc2::rnn_vad::common::{FRAME_SIZE_20_MS_24_KHZ, NUM_BANDS, SAMPLE_RATE_24_KHZ};
use aec3::audio_processing::agc2::rnn_vad::spectral_features_internal::{
    compute_dct, compute_dct_table, compute_smoothed_log_magnitude_spectrum,
    get_opus_scale_num_bins_24khz_20ms, LogSpectrumParameters, SpectralCorrelator,
    TrigonometricFunctions, DCT_TABLE_SIZE, NUM_BINS, OPUS_BANDS_24_KHZ,
};

const LOG_SPECTRUM: LogSpectrumParameters<f32> = LogSpectrumParameters {
    floor: 1e-2,
    log_floor: -2.0,
    max_drop: 7.0,
    max_decay: 1.5,
};

/// The share of each bin that the upper of its two bands has.
fn band_weights() -> [f32; NUM_BINS] {
    let mut weights = [0.0f32; NUM_BINS];
    let mut k = 0;
    for size in get_opus_scale_num_bins_24khz_20ms() {
        for i in 0..size {
            weights[k] = i as f32 / size as f32;
            k += 1;
        }
    }
    weights
}

fn trigonometry() -> TrigonometricFunctions<
    f64,
    impl Fn(usize) -> f64,
    impl Fn(f64) -> f64,
    impl Fn(f64) -> f64,
> {
    TrigonometricFunctions {
        half: 0.5,
        pi: std::f64::consts::PI,
        number: |n: usize| n as f64,
        sine: |v: f64| v.sin(),
        cosine: |v: f64| v.cos(),
    }
}

fn dct_table() -> [f32; DCT_TABLE_SIZE] {
    compute_dct_table(&trigonometry(), &|v: f64| v as f32, 0.5f64.sqrt() as f32)
}

#[test]
fn test_opus_scale_boundaries() {
    let band_frequency_boundaries_hz = [
        200, 400, 600, 800, 1000, 1200, 1400, 1600, 2000, 2400, 2800, 3200, 4000, 4800,
        5600, 6800, 8000, 9600, 12000, 15600, 20000,
    ];
    let bins = get_opus_scale_num_bins_24khz_20ms();

    let mut prev = 0usize;
    for i in 0..bins.len() {
        let boundary = (band_frequency_boundaries_hz[i] as usize) * FRAME_SIZE_20_MS_24_KHZ
            / SAMPLE_RATE_24_KHZ;
        assert_eq!(bins[i], boundary - prev);
        prev = boundary;
    }
}

#[test]
fn spectral_correlator_valid_output() {
    let mut input = [1.0f32; FRAME_SIZE_20_MS_24_KHZ];
    input[1] = 0.0; // Nyquist frequency.

    let mut out = [0.0f32; OPUS_BANDS_24_KHZ];
    let c = SpectralCorrelator::new(band_weights(), 2.0);
    c.compute_auto_correlation(&input, &mut out);

    for &v in &out {
        assert!(v > 0.0, "v={v}");
    }
}

#[test]
fn compute_smoothed_log_magnitude_spectrum_within_tolerance() {
    let input = [
        86.060539245605, 275.668334960938, 43.4065284729, 6.541896820068, 17.964015960693,
        8.090919494629, 1.26192009449, 1.21270263195, 1.619154453278, 0.508935272694,
        0.346316039562, 0.237035423517, 0.172424271703, 0.271657168865, 0.126088857651,
        0.139967113733, 0.207200810313, 0.155893072486, 0.091090843081, 0.033391401172,
        0.013879744336, 0.011973354965,
    ];
    let expected = [
        1.934854507446,
        2.440402746201,
        1.637655138969,
        0.816367030144,
        1.254645109177,
        0.908534288406,
        0.104459829628,
        0.087320849299,
        0.211962252855,
        -0.284886807203,
        -0.448164641857,
        -0.607240796089,
        -0.738917350769,
        -0.550279200077,
        -0.86617743969,
        -0.824003994465,
        -0.663138568401,
        -0.780171751976,
        -0.995288193226,
        -1.362596273422,
        -1.621970295906,
        -1.658103585243,
    ];

    let mut computed = [0.0f32; NUM_BANDS];
    compute_smoothed_log_magnitude_spectrum(
        &LOG_SPECTRUM,
        &|v: f32| v.log10(),
        &input,
        &mut computed,
    );

    for (e, c) in expected.iter().zip(computed.iter()) {
        assert!((e - c).abs() < 1e-5, "e={e}, c={c}");
    }
}

#[test]
fn compute_dct_within_tolerance() {
    let input = [
        0.232155621052,
        0.678957760334,
        0.220818966627,
        -0.077363930643,
        -0.559227049351,
        0.432545185089,
        0.353900641203,
        0.398993015289,
        0.409774333239,
        0.45497789979,
        0.300520688295,
        -0.010286616161,
        0.272525429726,
        0.098067551851,
        0.083649002016,
        0.04622688517,
        -0.033228103071,
        0.144773483276,
        -0.117661058903,
        -0.00562880002,
        -0.00954768993,
        -0.045382082462,
    ];
    let expected = [
        0.697072803974,
        0.442710995674,
        -0.293156713247,
        -0.060711503029,
        0.292050391436,
        0.489301353693,
        0.402255415916,
        0.134404733777,
        -0.086305990815,
        -0.199605688453,
        -0.234511867166,
        -0.413774639368,
        -0.388507157564,
        -0.032798115164,
        0.0446055457,
        0.112466648221,
        -0.050096966326,
        0.045971218497,
        -0.029815061018,
        -0.410366982222,
        -0.209233760834,
        -0.128037497401,
    ];

    let table = dct_table();
    let mut computed = [0.0f32; NUM_BANDS];
    compute_dct(&input, &table, 0.301_511_35, &mut computed);

    for (e, c) in expected.iter().zip(computed.iter()) {
        assert!((e - c).abs() < 1e-5, "e={e}, c={c}");
    }
}

#[test]
fn correlation_gives_every_bin_to_two_bands() {
    let mut x = [0.0f32; FRAME_SIZE_20_MS_24_KHZ];
    // The third bin of the first band.
    x[4] = 3.0;
    x[5] = 4.0;
    let mut out = [0.0f32; OPUS_BANDS_24_KHZ];
    let c = SpectralCorrelator::new(band_weights(), 2.0);
    c.compute_auto_correlation(&x, &mut out);
    assert_eq!(out[0], 25.0);
    assert_eq!(out[1], 12.5);
    assert!(out[2..].iter().all(|v| *v == 0.0));
    let mut y = [0.0f32; FRAME_SIZE_20_MS_24_KHZ];
    y[4] = -1.0;
    c.compute_cross_correlation(&x, &y, &mut out);
    assert_eq!(out[1], -1.5);
}
