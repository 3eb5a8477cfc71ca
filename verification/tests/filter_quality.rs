use aec3::api::config::EchoCanceller3Config;
use aec3::audio_processing::aec3::aec_state::filter_delay::FilterDelay;
use aec3::audio_processing::aec3::aec_state::filtering_quality_analyzer::FilteringQualityAnalyzer;
use aec3::audio_processing::aec3::delay_estimate::{DelayEstimate, DelayEstimateQuality};

#[test]
fn any_reported_delay_counts() {
    let config = EchoCanceller3Config::default();
    let mut delay = FilterDelay::new(&config, 2);
    delay.update(&[3, 5], None, 0);
    assert!(!delay.external_delay_reported());
    assert_eq!(delay.direct_path_filter_delays(), &[3, 5]);
    assert_eq!(delay.min_direct_path_filter_delay(), 3);
    delay.update(&[3, 5], Some(DelayEstimate::new(DelayEstimateQuality::Coarse, 7)), 0);
    assert!(delay.external_delay_reported());
    delay.update(&[3, 5], None, 0);
    assert!(delay.external_delay_reported());
    let guess = (config.delay.delay_headroom_samples / 64) as i32;
    assert_eq!(delay.direct_path_filter_delays(), &[guess, guess]);
    // Converged filters are trusted.
    delay.update(&[3, 5], None, 500);
    assert_eq!(delay.direct_path_filter_delays(), &[3, 5]);
}

#[test]
fn output_is_usable_after_enough_updates() {
    let config = EchoCanceller3Config::default();
    let mut analyzer = FilteringQualityAnalyzer::new(&config, 1);
    // A saturated capture updates no filter, but its convergence counts.
    analyzer.update(true, false, true, None, true);
    for n in 1..=101 {
        analyzer.update(true, false, false, None, false);
        assert_eq!(analyzer.linear_filter_usable(), n > 100);
    }
    analyzer.update(true, true, false, None, false);
    assert!(!analyzer.linear_filter_usable());
    analyzer.reset();
    assert!(!analyzer.linear_filter_usable());
    for n in 1..=60 {
        analyzer.update(true, false, false, None, false);
        assert_eq!(analyzer.linear_filter_usable(), n > 50);
        assert_eq!(analyzer.usable_linear_filter_outputs(), &[n > 50]);
    }
}

#[test]
fn estimates_are_not_read_while_the_delay_is_guessed() {
    let config = EchoCanceller3Config::default();
    let mut delay = FilterDelay::new(&config, 2);
    delay.update(&[], Some(DelayEstimate::new(DelayEstimateQuality::Coarse, 7)), 0);
    let guess = (config.delay.delay_headroom_samples / 64) as i32;
    assert_eq!(delay.direct_path_filter_delays(), &[guess, guess]);
}
