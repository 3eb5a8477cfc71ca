use aec3::api::config::EchoCanceller3Config;
use aec3::audio_processing::aec3::aec_state::transparent_mode::{
    FilterObservation, HmmParameters, TransparentMode,
};

const SWITCH: f32 = 0.000001;
const CONVERGED_NORMAL: f32 = 0.01;
const CONVERGED_TRANSPARENT: f32 = 0.001;

fn parameters() -> HmmParameters<f32> {
    HmmParameters {
        one: 1.0,
        initial_prob_transparent: 0.2,
        normal_to_transparent: SWITCH,
        transparent_to_transparent: 1.0 - SWITCH,
        converged_normal: CONVERGED_NORMAL,
        not_converged_normal: 1.0 - CONVERGED_NORMAL,
        converged_transparent: CONVERGED_TRANSPARENT,
        not_converged_transparent: 1.0 - CONVERGED_TRANSPARENT,
        activation: 0.95,
        deactivation: 0.5,
    }
}

fn observation(any_coarse_filter_converged: bool, active_render: bool) -> FilterObservation {
    FilterObservation {
        filter_delay_blocks: 0,
        any_filter_consistent: false,
        any_filter_converged: false,
        any_coarse_filter_converged,
        all_filters_diverged: false,
        active_render,
        saturated_capture: false,
    }
}

#[test]
fn hmm_transparent_mode_toggles_as_reference() {
    let mut config = EchoCanceller3Config::default();
    config.transparent_mode.enabled = true;
    config.transparent_mode.use_hmm = true;
    config.ep_strength.bounded_erl = false;

    let mut mode = TransparentMode::new(&config, parameters());
    assert!(!mode.active());

    // With active render and no (relaxed) coarse convergence, probability of
    // transparent mode should increase and eventually activate.
    for _ in 0..1000 {
        mode.update(&observation(false, true));
    }
    assert!(mode.active());

    // Without active render nothing changes.
    for _ in 0..10 {
        mode.update(&observation(true, false));
    }
    assert!(mode.active());

    // A few converged-coarse observations should deactivate due to the
    // hysteresis thresholds.
    for _ in 0..10 {
        mode.update(&observation(true, true));
    }
    assert!(!mode.active());
}

#[test]
fn transparent_mode_kill_switch_disables_classifier() {
    let mut config = EchoCanceller3Config::default();
    config.transparent_mode.enabled = false;
    config.transparent_mode.use_hmm = true;
    config.ep_strength.bounded_erl = false;

    let mut mode = TransparentMode::new(&config, parameters());
    for _ in 0..2000 {
        mode.update(&observation(false, true));
    }
    assert!(!mode.active());
}

#[test]
fn bounded_echo_return_loss_disables_classifier() {
    let mut config = EchoCanceller3Config::default();
    config.ep_strength.bounded_erl = true;
    let mut mode = TransparentMode::new(&config, parameters());
    for _ in 0..2000 {
        mode.update(&observation(false, true));
    }
    assert!(!mode.active());
}

#[test]
fn counting_classifier_needs_strong_render() {
    let mut config = EchoCanceller3Config::default();
    config.transparent_mode.use_hmm = false;
    let mut mode = TransparentMode::new(&config, parameters());
    // Six seconds of render are not enough.
    for _ in 0..1500 {
        mode.update(&observation(false, true));
        assert!(!mode.active());
    }
    mode.update(&observation(false, true));
    assert!(mode.active());
    // A filter that converges over and over shows a finite echo return loss.
    let mut converged = observation(true, true);
    converged.any_filter_converged = true;
    for _ in 0..51 {
        mode.update(&converged);
    }
    assert!(!mode.active());
    mode.reset();
    assert!(!mode.active());
}

#[test]
fn convergence_keeps_the_mode_off_for_a_minute() {
    let mut config = EchoCanceller3Config::default();
    config.transparent_mode.use_hmm = false;
    let mut mode = TransparentMode::new(&config, parameters());
    let mut converged = observation(true, true);
    converged.any_filter_converged = true;
    for _ in 0..51 {
        mode.update(&converged);
    }
    for _ in 0..15000 {
        mode.update(&observation(false, true));
        assert!(!mode.active());
    }
    mode.update(&observation(false, true));
    assert!(mode.active());
}

#[test]
fn resets_do_not_end_the_minute() {
    let mut config = EchoCanceller3Config::default();
    config.transparent_mode.use_hmm = false;
    let mut mode = TransparentMode::new(&config, parameters());
    let mut converged = observation(true, true);
    converged.any_filter_converged = true;
    for n in 0..51 {
        mode.update(&converged);
        if n % 10 == 0 {
            mode.reset();
        }
    }
    for n in 0..15000 {
        mode.update(&observation(false, true));
        assert!(!mode.active());
        if n % 5000 == 0 {
            mode.reset();
            assert!(!mode.active());
        }
    }
}
