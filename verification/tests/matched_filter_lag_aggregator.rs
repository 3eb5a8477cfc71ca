use aec3::api::config::EchoCanceller3Config;
use aec3::audio_processing::aec3::delay_estimate::DelayEstimateQuality;
use aec3::audio_processing::aec3::matched_filter::LagEstimate;
use aec3::audio_processing::aec3::matched_filter_lag_aggregator::{
    HighestPeakAggregator, MatchedFilterLagAggregator, PreEchoLagAggregator,
};

const NUM_LAGS_BEFORE_DETECTION: usize = 26;

/// A realistic `max_filter_lag`, so the pre-echo histogram is long enough
/// for the windowed search to run.
const MAX_FILTER_LAG: usize = 2432;

#[test]
fn lag_estimate_invariance_required() {
    let config = EchoCanceller3Config::default();
    let mut aggregator =
        MatchedFilterLagAggregator::new(100, &config.delay);

    let mut aggregated = None;
    for _ in 0..NUM_LAGS_BEFORE_DETECTION {
        aggregated = aggregator.aggregate(Some(LagEstimate::new(10, 10)));
    }
    assert!(aggregated.is_some());

    for k in 0..(NUM_LAGS_BEFORE_DETECTION * 100) {
        aggregated = aggregator.aggregate(Some(LagEstimate::new(k % 100, k % 100)));
    }
    assert!(aggregated.is_none());

    for k in 0..(NUM_LAGS_BEFORE_DETECTION * 100) {
        assert!(
            aggregator
                .aggregate(Some(LagEstimate::new(k % 100, k % 100)))
                .is_none()
        );
    }
}

#[test]
fn no_estimate_without_a_lag() {
    let config = EchoCanceller3Config::default();
    let mut aggregator =
        MatchedFilterLagAggregator::new(100, &config.delay);
    for _ in 0..NUM_LAGS_BEFORE_DETECTION {
        assert!(aggregator.aggregate(None).is_none());
    }
}

/// With pre-echo detection the reported delay follows the pre-echo lag;
/// without it, the highest matched filter peak.
#[test]
fn pre_echo_detection_selects_the_reported_delay() {
    const LAG: usize = 1000;
    const PRE_ECHO_LAG: usize = 200;

    let report = |detect_pre_echo: bool| -> usize {
        let mut config = EchoCanceller3Config::default();
        config.delay.detect_pre_echo = detect_pre_echo;
        let headroom = config.delay.delay_headroom_samples / config.delay.down_sampling_factor;
        let mut aggregator = MatchedFilterLagAggregator::new(
            MAX_FILTER_LAG,
            &config.delay,
        );
        let mut aggregated = None;
        for _ in 0..NUM_LAGS_BEFORE_DETECTION {
            aggregated = aggregator.aggregate(Some(LagEstimate::new(LAG, PRE_ECHO_LAG)));
        }
        let _ = headroom;
        aggregated.expect("a delay should be reported").delay
    };

    let headroom = EchoCanceller3Config::default().delay.delay_headroom_samples
        / EchoCanceller3Config::default().delay.down_sampling_factor;

    // Without pre-echo detection the highest peak is reported directly.
    assert_eq!(LAG - headroom, report(false));

    // With it, the pre-echo lag is reported, quantised to the block grid
    // the pre-echo histogram uses.
    let reported = report(true);
    assert!(
        reported < LAG - headroom,
        "pre-echo delay {reported} should precede the main peak"
    );
    assert!(
        reported.abs_diff(PRE_ECHO_LAG - headroom) <= 16,
        "pre-echo delay {reported} should be near {}",
        PRE_ECHO_LAG - headroom
    );
}

#[test]
fn equal_lags_pass_the_thresholds_in_turn() {
    let mut config = EchoCanceller3Config::default();
    config.delay.delay_selection_thresholds.initial = 3;
    config.delay.delay_selection_thresholds.converged = 7;
    let mut aggregator = MatchedFilterLagAggregator::new(100, &config.delay);
    assert!(!aggregator.reliable_delay_found());
    assert_eq!(aggregator.delay_at_highest_peak(), -1);
    for n in 1..=250 {
        let delay = aggregator.aggregate(Some(LagEstimate::new(60, 60)));
        if n <= 3 {
            assert!(delay.is_none());
        } else if n <= 7 {
            assert_eq!(delay.unwrap().quality, DelayEstimateQuality::Coarse);
        } else {
            assert_eq!(delay.unwrap().quality, DelayEstimateQuality::Refined);
        }
        assert_eq!(aggregator.reliable_delay_found(), n > 7);
    }
}

#[test]
fn highest_peak_is_the_most_frequent_recent_lag() {
    let mut config = EchoCanceller3Config::default();
    config.delay.delay_headroom_samples = 8;
    config.delay.down_sampling_factor = 4;
    let mut aggregator = MatchedFilterLagAggregator::new(100, &config.delay);
    for lag in [12, 12, 22, 22, 32] {
        aggregator.aggregate(Some(LagEstimate::new(lag, 0)));
    }
    // Of two equally frequent lags the larger one counts.
    assert_eq!(aggregator.delay_at_highest_peak(), 20);
    for _ in 0..245 {
        aggregator.aggregate(Some(LagEstimate::new(32, 0)));
    }
    assert_eq!(aggregator.delay_at_highest_peak(), 30);
    // Lags beyond the largest one are kept as that one, and old lags are forgotten.
    for _ in 0..126 {
        aggregator.aggregate(Some(LagEstimate::new(5000, 0)));
    }
    assert_eq!(aggregator.delay_at_highest_peak(), 100);
    aggregator.reset(true);
    aggregator.aggregate(Some(LagEstimate::new(12, 0)));
    assert_eq!(aggregator.delay_at_highest_peak(), 10);
}

#[test]
fn later_pre_echoes_are_the_most_frequent_recent_blocks() {
    // Blocks of 16 lags.
    let mut aggregator = PreEchoLagAggregator::new(2432, 4);
    for _ in 0..500 {
        aggregator.aggregate(40);
    }
    assert_eq!(aggregator.pre_echo_candidate(), 32);
    for _ in 0..125 {
        aggregator.aggregate(1000);
    }
    // As frequent, and later.
    assert_eq!(aggregator.pre_echo_candidate(), 992);
    aggregator.reset();
    assert_eq!(aggregator.pre_echo_candidate(), 0);
    aggregator.aggregate(2000);
    aggregator.aggregate(100);
    assert_eq!(aggregator.pre_echo_candidate(), 2000);
}

#[test]
fn any_factor_is_accepted_without_pre_echo_detection() {
    let mut config = EchoCanceller3Config::default();
    config.delay.detect_pre_echo = false;
    config.delay.down_sampling_factor = usize::MAX;
    let aggregator = MatchedFilterLagAggregator::new(1000, &config.delay);
    assert!(!aggregator.reliable_delay_found());
    assert_eq!(aggregator.delay_at_highest_peak(), -1);
}

#[test]
fn lag_estimates_are_zero_by_default() {
    assert_eq!(LagEstimate::default(), LagEstimate::new(0, 0));
}

#[test]
fn most_frequent_lag_may_be_zero() {
    let mut aggregator = HighestPeakAggregator::new(100);
    assert_eq!(aggregator.candidate(), -1);
    aggregator.aggregate(0);
    assert_eq!(aggregator.candidate(), 0);
    assert_eq!(aggregator.histogram()[0], 1);
    aggregator.aggregate(7);
    assert_eq!(aggregator.candidate(), 7);
    aggregator.aggregate(0);
    assert_eq!(aggregator.candidate(), 0);
    // Only the most recent lags count.
    for _ in 0..250 {
        aggregator.aggregate(3);
    }
    assert_eq!(aggregator.candidate(), 3);
    assert_eq!(aggregator.histogram()[3], 250);
    assert_eq!(aggregator.histogram()[0], 0);
    aggregator.reset();
    aggregator.aggregate(0);
    assert_eq!(aggregator.candidate(), 0);
}

#[test]
fn zero_lag_makes_no_delay() {
    let config = EchoCanceller3Config::default();
    let mut aggregator = MatchedFilterLagAggregator::new(100, &config.delay);
    for _ in 0..250 {
        assert!(aggregator.aggregate(Some(LagEstimate::new(0, 0))).is_none());
        assert_eq!(aggregator.delay_at_highest_peak(), 0);
    }
    assert!(!aggregator.reliable_delay_found());
}
