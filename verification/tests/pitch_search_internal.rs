use aec3::audio_processing::agc2::rnn_vad::common::{
    BUF_SIZE_12_KHZ, BUF_SIZE_24_KHZ, FRAME_SIZE_20_MS_12_KHZ, FRAME_SIZE_20_MS_24_KHZ,
    INITIAL_NUM_LAGS_24_KHZ, MAX_PITCH_48_KHZ, MIN_PITCH_48_KHZ, NUM_LAGS_12_KHZ,
    REFINE_NUM_LAGS_24_KHZ,
};
use aec3::audio_processing::agc2::rnn_vad::pitch_search_internal::{
    compute_extended_pitch_period_48khz, compute_pitch_period_12khz, compute_pitch_period_48khz,
    compute_sliding_frame_square_energies_24khz, create_inverted_lag_range, decimate_2x,
    get_alternative_pitch_period, get_pitch_pseudo_interpolation_offset, CandidatePitchPeriods,
    LagRange, PitchInfo, PitchSearchParameters,
};

const PITCH_SEARCH: PitchSearchParameters<f32> = PitchSearchParameters {
    one: 1.0,
    half: 0.5,
    interpolation_slope: 0.7,
    initial_share: 0.7,
    least_strength: 0.3,
    short_initial_share: 0.85,
    short_least_strength: 0.4,
};

fn make_synthetic_pitch_buffer() -> [f32; BUF_SIZE_24_KHZ] {
    let mut pitch = [0.0f32; BUF_SIZE_24_KHZ];
    for (i, v) in pitch.iter_mut().enumerate() {
        *v = (0.021 * i as f32).sin() + 0.31 * (0.046 * i as f32).cos();
    }
    pitch
}

#[test]
fn decimate_2x_keeps_even_samples() {
    let mut src = [0.0f32; BUF_SIZE_24_KHZ];
    for (i, v) in src.iter_mut().enumerate() {
        *v = i as f32;
    }
    let mut dst = [0.0f32; BUF_SIZE_12_KHZ];
    decimate_2x(&src, &mut dst);

    for i in 0..BUF_SIZE_12_KHZ {
        assert_eq!(src[2 * i], dst[i]);
    }
}

#[test]
fn compute_sliding_frame_square_energies_constant_signal() {
    let src = [1.0f32; BUF_SIZE_24_KHZ];
    let mut y_energy = [0.0f32; REFINE_NUM_LAGS_24_KHZ];
    compute_sliding_frame_square_energies_24khz(1.0, &src, &mut y_energy);

    let expected = FRAME_SIZE_20_MS_24_KHZ as f32;
    for &v in &y_energy {
        assert!((v - expected).abs() < 1e-4, "v={v}, expected={expected}");
    }
}

#[test]
fn compute_pitch_period_48khz_order_does_not_matter_parametrized() {
    let mut pitch = [0.0f32; BUF_SIZE_24_KHZ];
    for (i, v) in pitch.iter_mut().enumerate() {
        *v = (0.023 * i as f32).sin() + 0.25 * (0.051 * i as f32).cos();
    }
    let mut y_energy = [0.0f32; REFINE_NUM_LAGS_24_KHZ];
    let candidate_sets = [
        CandidatePitchPeriods {
            best: 0,
            second_best: 2,
        },
        CandidatePitchPeriods {
            best: 260,
            second_best: 284,
        },
        CandidatePitchPeriods {
            best: 280,
            second_best: 284,
        },
        CandidatePitchPeriods {
            best: INITIAL_NUM_LAGS_24_KHZ as i32 - 2,
            second_best: INITIAL_NUM_LAGS_24_KHZ as i32 - 1,
        },
    ];

    compute_sliding_frame_square_energies_24khz(1.0, &pitch, &mut y_energy);
    for candidates in candidate_sets {
        let p1 = compute_pitch_period_48khz(&PITCH_SEARCH, &pitch, &y_energy, candidates);
        let p2 = compute_pitch_period_48khz(
            &PITCH_SEARCH,
            &pitch,
            &y_energy,
            CandidatePitchPeriods {
                best: candidates.second_best,
                second_best: candidates.best,
            },
        );
        assert_eq!(
            p1, p2,
            "candidates=({}, {})",
            candidates.best, candidates.second_best
        );
    }
}

#[test]
fn compute_extended_pitch_period_48khz_output_is_valid() {
    let pitch = make_synthetic_pitch_buffer();
    let mut y_energy = [0.0f32; REFINE_NUM_LAGS_24_KHZ];
    compute_sliding_frame_square_energies_24khz(1.0, &pitch, &mut y_energy);

    let out = compute_extended_pitch_period_48khz(
        &PITCH_SEARCH,
        &f32::sqrt,
        &pitch,
        &y_energy,
        560,
        PitchInfo {
            period: 180,
            strength: 0.35,
        },
    );

    assert!(out.period >= MIN_PITCH_48_KHZ as i32);
    assert!(out.period <= MAX_PITCH_48_KHZ as i32);
    assert!(out.strength.is_finite());
}

#[test]
fn compute_extended_pitch_period_48khz_parameter_sweep() {
    let pitch = make_synthetic_pitch_buffer();
    let mut y_energy = [0.0f32; REFINE_NUM_LAGS_24_KHZ];

    let test_pitch_periods_low = 3 * MIN_PITCH_48_KHZ as i32 / 2;
    let test_pitch_periods_high = (3 * MIN_PITCH_48_KHZ as i32 + MAX_PITCH_48_KHZ as i32) / 2;
    let last_periods = [test_pitch_periods_low, test_pitch_periods_high];
    let last_strengths = [0.35f32, 0.75f32];
    let initial_periods = [test_pitch_periods_low, test_pitch_periods_high];

    compute_sliding_frame_square_energies_24khz(1.0, &pitch, &mut y_energy);

    for &initial_pitch_period in &initial_periods {
        for &last_pitch_period in &last_periods {
            for &last_pitch_strength in &last_strengths {
                let last = PitchInfo {
                    period: last_pitch_period,
                    strength: last_pitch_strength,
                };
                let out1 = compute_extended_pitch_period_48khz(
                    &PITCH_SEARCH,
                    &f32::sqrt,
                    &pitch,
                    &y_energy,
                    initial_pitch_period,
                    last,
                );
                let out2 = compute_extended_pitch_period_48khz(
                    &PITCH_SEARCH,
                    &f32::sqrt,
                    &pitch,
                    &y_energy,
                    initial_pitch_period,
                    last,
                );

                assert_eq!(
                    out1.period, out2.period,
                    "period mismatch, initial={initial_pitch_period}, last={last_pitch_period}/{last_pitch_strength}"
                );
                assert!(
                    (out1.strength - out2.strength).abs() < 1e-6,
                    "strength mismatch, initial={initial_pitch_period}, last={last_pitch_period}/{last_pitch_strength}, out1={}, out2={}",
                    out1.strength,
                    out2.strength
                );
                assert!(out1.period >= MIN_PITCH_48_KHZ as i32);
                assert!(out1.period <= MAX_PITCH_48_KHZ as i32);
                assert!(out1.strength.is_finite());
            }
        }
    }
}

#[test]
fn compute_pitch_period_12khz_returns_valid_candidates() {
    let mut pitch_24 = [0.0f32; BUF_SIZE_24_KHZ];
    for (i, v) in pitch_24.iter_mut().enumerate() {
        *v = (0.019 * i as f32).sin() + 0.15 * (0.072 * i as f32).cos();
    }
    let mut pitch_12 = [0.0f32; BUF_SIZE_12_KHZ];
    decimate_2x(&pitch_24, &mut pitch_12);

    let mut auto_corr = [0.0f32; NUM_LAGS_12_KHZ];
    let x_start = BUF_SIZE_12_KHZ - FRAME_SIZE_20_MS_12_KHZ;
    for lag_inv in 0..NUM_LAGS_12_KHZ {
        let mut acc = 0.0f32;
        for n in 0..FRAME_SIZE_20_MS_12_KHZ {
            acc += pitch_12[lag_inv + n] * pitch_12[x_start + n];
        }
        auto_corr[lag_inv] = acc;
    }

    let out = compute_pitch_period_12khz(1.0, &pitch_12, &auto_corr);
    assert!(out.best >= 0 && out.best < NUM_LAGS_12_KHZ as i32);
    assert!(out.second_best >= 0 && out.second_best < NUM_LAGS_12_KHZ as i32);
    assert_ne!(out.best, out.second_best);
}

#[test]
fn periods_keep_close_to_their_fractions() {
    assert_eq!(get_alternative_pitch_period(100, 1, 2), 50);
    assert_eq!(get_alternative_pitch_period(101, 1, 2), 51);
    assert_eq!(get_alternative_pitch_period(100, 2, 3), 67);
}

#[test]
fn interpolation_offset_points_at_the_larger_neighbour() {
    assert_eq!(get_pitch_pseudo_interpolation_offset(0.7f32, 0.0, 1.0, 0.9), 1);
    assert_eq!(get_pitch_pseudo_interpolation_offset(0.7f32, 0.9, 1.0, 0.0), -1);
    assert_eq!(get_pitch_pseudo_interpolation_offset(0.7f32, 0.5, 1.0, 0.5), 0);
}

#[test]
fn lag_ranges_stay_within_the_lags() {
    assert_eq!(create_inverted_lag_range(0), LagRange { min: 0, max: 2 });
    assert_eq!(create_inverted_lag_range(100), LagRange { min: 98, max: 102 });
    assert_eq!(create_inverted_lag_range(293), LagRange { min: 291, max: 293 });
}

#[test]
fn candidates_beyond_the_last_lag_have_no_neighbours() {
    let pitch = make_synthetic_pitch_buffer();
    let mut y_energy = [0.0f32; REFINE_NUM_LAGS_24_KHZ];
    compute_sliding_frame_square_energies_24khz(1.0, &pitch, &mut y_energy);
    let beyond = INITIAL_NUM_LAGS_24_KHZ as i32 + 2;
    let none = CandidatePitchPeriods { best: beyond, second_best: beyond };
    assert_eq!(compute_pitch_period_48khz(&PITCH_SEARCH, &pitch, &y_energy, none), 0);
    let one = CandidatePitchPeriods { best: 150, second_best: beyond };
    let same = CandidatePitchPeriods { best: 150, second_best: 150 };
    assert_eq!(
        compute_pitch_period_48khz(&PITCH_SEARCH, &pitch, &y_energy, one),
        compute_pitch_period_48khz(&PITCH_SEARCH, &pitch, &y_energy, same)
    );
}
