use aec3::api::config::EchoCanceller3Config;
use aec3::audio_processing::aec3::aec3_common::BLOCK_SIZE;
use aec3::audio_processing::aec3::aec_state::saturation_detector::{
    EchoEstimatePeaks, SaturationParameters,
};
use aec3::audio_processing::aec3::aec_state::transparent_mode::HmmParameters;
use aec3::audio_processing::aec3::aec_state::{
    AecState, AecStateParameters, BlockAnalysis, EstimatorReset,
};
use aec3::audio_processing::aec3::delay_estimate::{DelayEstimate, DelayEstimateQuality};
use aec3::audio_processing::aec3::echo_path_variability::{DelayAdjustment, EchoPathVariability};

fn parameters() -> AecStateParameters<f32> {
    AecStateParameters {
        active_render_limit: 100.0,
        block_length: 64.0,
        hmm: HmmParameters {
            one: 1.0,
            initial_prob_transparent: 0.2,
            normal_to_transparent: 0.000001,
            transparent_to_transparent: 1.0 - 0.000001,
            converged_normal: 0.01,
            not_converged_normal: 1.0 - 0.01,
            converged_transparent: 0.001,
            not_converged_transparent: 1.0 - 0.001,
            activation: 0.95,
            deactivation: 0.5,
        },
        saturation: SaturationParameters {
            estimate_limit: 20_000.0,
            margin: 10.0,
            peak_limit: 32_000.0,
        },
    }
}

fn analysis(
    num_render_channels: usize,
    num_capture_channels: usize,
    render_level: f32,
) -> BlockAnalysis<f32> {
    BlockAnalysis {
        any_filter_converged: true,
        any_coarse_filter_converged: true,
        all_filters_diverged: false,
        any_filter_consistent: true,
        render_block: vec![vec![render_level; BLOCK_SIZE]; num_render_channels],
        echo_estimates: vec![
            EchoEstimatePeaks {
                s_main_max_abs: 100.0,
                s_shadow_max_abs: 0.0,
            };
            num_capture_channels
        ],
        max_echo_path_gain: 1.0,
    }
}

fn run_normal_usage_test(num_render_channels: usize, num_capture_channels: usize) {
    let mut state = AecState::new(
        EchoCanceller3Config::default(),
        num_capture_channels,
        parameters(),
    );
    let delay_estimate = Some(DelayEstimate::new(DelayEstimateQuality::Refined, 10));
    let delays = vec![2; num_capture_channels];
    let block = analysis(num_render_channels, num_capture_channels, 101.0);

    for _ in 0..3000 {
        state.update_delay(delay_estimate, &delays);
        state.update(delay_estimate, &block);
    }
    assert!(state.usable_linear_estimate());

    let reset = state.handle_echo_path_change(&EchoPathVariability::new(
        false,
        DelayAdjustment::BufferReadjustment,
        false,
    ));
    assert_eq!(reset, EstimatorReset::Full);
    state.update_delay(delay_estimate, &delays);
    state.update(delay_estimate, &block);
    assert!(!state.usable_linear_estimate());

    state.handle_echo_path_change(&EchoPathVariability::new(
        true,
        DelayAdjustment::NewDetectedDelay,
        false,
    ));
    state.update_delay(delay_estimate, &delays);
    state.update(delay_estimate, &block);
    assert!(!state.active_render());

    for _ in 0..1000 {
        state.update_delay(delay_estimate, &delays);
        state.update(delay_estimate, &block);
    }
    assert!(state.active_render());
    assert!(state.usable_linear_estimate());
    assert_eq!(state.min_direct_path_filter_delay(), 2);
    assert_eq!(state.usable_linear_filter_outputs().len(), num_capture_channels);
}

#[test]
fn normal_usage_matches_reference_behavior() {
    for &num_render_channels in &[1, 2, 8] {
        for &num_capture_channels in &[1, 2, 8] {
            run_normal_usage_test(num_render_channels, num_capture_channels);
        }
    }
}

#[test]
fn converged_filter_delay_processed_without_panics() {
    const FILTER_LENGTH_BLOCKS: usize = 10;
    let mut state = AecState::new(EchoCanceller3Config::default(), 1, parameters());
    let echo_path_variability =
        EchoPathVariability::new(false, DelayAdjustment::Unchanged, false);
    let block = analysis(1, 1, 0.0);
    for k in 0..FILTER_LENGTH_BLOCKS {
        assert_eq!(
            state.handle_echo_path_change(&echo_path_variability),
            EstimatorReset::Nothing
        );
        let delay = state.update_delay(None, &[k as i32]);
        state.update(None, &block);
        assert_eq!(delay, k as i32);
    }
}

#[test]
fn silent_render_is_not_active() {
    let mut state = AecState::new(EchoCanceller3Config::default(), 1, parameters());
    let actions = state.update(None, &analysis(2, 1, 100.0));
    assert!(!actions.active_render);
    let actions = state.update(None, &analysis(2, 1, 100.1));
    assert!(actions.active_render);
}

#[test]
fn echo_saturates_only_a_saturated_capture() {
    let mut state = AecState::new(EchoCanceller3Config::default(), 1, parameters());
    let mut block = analysis(1, 1, 0.0);
    block.render_block[0][7] = -3201.0;
    state.update(None, &block);
    assert!(!state.saturated_echo());
    assert_eq!(state.erle_uncertainty(), None);
    state.update_capture_saturation(true);
    state.update(None, &block);
    assert!(state.saturated_echo());
    assert_eq!(state.erle_uncertainty(), Some(1.0));
    block.render_block[0][7] = -3200.0;
    state.update(None, &block);
    assert!(!state.saturated_echo());
}

#[test]
fn gain_change_resets_the_enhancement_only() {
    let mut state = AecState::new(EchoCanceller3Config::default(), 1, parameters());
    let change = EchoPathVariability::new(true, DelayAdjustment::Unchanged, false);
    assert_eq!(state.handle_echo_path_change(&change), EstimatorReset::ErleOnly);
}
