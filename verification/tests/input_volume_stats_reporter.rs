use aec3::audio_processing::agc2::input_volume_stats_reporter::{
    update_histogram_on_recommended_input_volume_change_to_match_target, HistogramSamples,
    InputVolumeStatsReporter, InputVolumeType, FRAMES_IN_60_SECONDS,
};

fn run_for_both_types(test_fn: fn(InputVolumeType)) {
    test_fn(InputVolumeType::Applied);
    test_fn(InputVolumeType::Recommended);
}

#[test]
fn check_volume_on_change_is_empty() {
    run_for_both_types(|input_volume_type| {
        let mut stats_reporter = InputVolumeStatsReporter::new(input_volume_type);
        stats_reporter.update_statistics(10);
        assert_eq!(stats_reporter.histograms().on_volume_change.as_pairs(), vec![]);
    });
}

#[test]
fn check_rate_average_stats_empty() {
    run_for_both_types(|input_volume_type| {
        let mut stats_reporter = InputVolumeStatsReporter::new(input_volume_type);
        const INPUT_VOLUME: i32 = 10;
        stats_reporter.update_statistics(INPUT_VOLUME);
        for _ in (0..FRAMES_IN_60_SECONDS - 2).step_by(2) {
            stats_reporter.update_statistics(INPUT_VOLUME + 2);
            stats_reporter.update_statistics(INPUT_VOLUME);
        }

        assert_eq!(stats_reporter.histograms().update_rate.as_pairs(), vec![]);
        assert_eq!(stats_reporter.histograms().decrease_rate.as_pairs(), vec![]);
        assert_eq!(stats_reporter.histograms().increase_rate.as_pairs(), vec![]);
        assert_eq!(stats_reporter.histograms().update_average.as_pairs(), vec![]);
        assert_eq!(stats_reporter.histograms().decrease_average.as_pairs(), vec![]);
        assert_eq!(stats_reporter.histograms().increase_average.as_pairs(), vec![]);
    });
}

#[test]
fn check_samples() {
    run_for_both_types(|input_volume_type| {
        let mut stats_reporter = InputVolumeStatsReporter::new(input_volume_type);

        const INPUT_VOLUME_1: i32 = 10;
        stats_reporter.update_statistics(INPUT_VOLUME_1);
        const INPUT_VOLUME_2: i32 = 12;
        for _ in (0..FRAMES_IN_60_SECONDS).step_by(2) {
            stats_reporter.update_statistics(INPUT_VOLUME_2);
            stats_reporter.update_statistics(INPUT_VOLUME_1);
        }

        const INPUT_VOLUME_3: i32 = 13;
        for _ in (0..FRAMES_IN_60_SECONDS).step_by(2) {
            stats_reporter.update_statistics(INPUT_VOLUME_3);
            stats_reporter.update_statistics(INPUT_VOLUME_1);
        }

        assert_eq!(
            stats_reporter.histograms().on_volume_change.as_pairs(),
            vec![
                (INPUT_VOLUME_1, FRAMES_IN_60_SECONDS),
                (INPUT_VOLUME_2, FRAMES_IN_60_SECONDS / 2),
                (INPUT_VOLUME_3, FRAMES_IN_60_SECONDS / 2)
            ]
        );

        assert_eq!(
            stats_reporter.histograms().update_rate.as_pairs(),
            vec![(FRAMES_IN_60_SECONDS - 1, 1), (FRAMES_IN_60_SECONDS, 1)]
        );
        assert_eq!(
            stats_reporter.histograms().decrease_rate.as_pairs(),
            vec![(FRAMES_IN_60_SECONDS / 2 - 1, 1), (FRAMES_IN_60_SECONDS / 2, 1)]
        );
        assert_eq!(
            stats_reporter.histograms().increase_rate.as_pairs(),
            vec![(FRAMES_IN_60_SECONDS / 2, 2)]
        );

        assert_eq!(
            stats_reporter.histograms().update_average.as_pairs(),
            vec![(2, 1), (3, 1)]
        );
        assert_eq!(
            stats_reporter.histograms().decrease_average.as_pairs(),
            vec![(2, 1), (3, 1)]
        );
        assert_eq!(
            stats_reporter.histograms().increase_average.as_pairs(),
            vec![(2, 1), (3, 1)]
        );
    });
}

#[test]
fn check_volume_update_stats_for_empty_stats() {
    run_for_both_types(|input_volume_type| {
        let stats_reporter = InputVolumeStatsReporter::new(input_volume_type);
        let update_stats = stats_reporter.volume_update_stats();
        assert_eq!(update_stats.num_decreases, 0);
        assert_eq!(update_stats.sum_decreases, 0);
        assert_eq!(update_stats.num_increases, 0);
        assert_eq!(update_stats.sum_increases, 0);
    });
}

#[test]
fn check_volume_update_stats_after_no_volume_change() {
    run_for_both_types(|input_volume_type| {
        const INPUT_VOLUME: i32 = 10;
        let mut stats_reporter = InputVolumeStatsReporter::new(input_volume_type);
        stats_reporter.update_statistics(INPUT_VOLUME);
        stats_reporter.update_statistics(INPUT_VOLUME);
        stats_reporter.update_statistics(INPUT_VOLUME);
        let update_stats = stats_reporter.volume_update_stats();
        assert_eq!(update_stats.num_decreases, 0);
        assert_eq!(update_stats.sum_decreases, 0);
        assert_eq!(update_stats.num_increases, 0);
        assert_eq!(update_stats.sum_increases, 0);
    });
}

#[test]
fn check_volume_update_stats_after_volume_increase() {
    run_for_both_types(|input_volume_type| {
        const INPUT_VOLUME: i32 = 10;
        let mut stats_reporter = InputVolumeStatsReporter::new(input_volume_type);
        stats_reporter.update_statistics(INPUT_VOLUME);
        stats_reporter.update_statistics(INPUT_VOLUME + 4);
        stats_reporter.update_statistics(INPUT_VOLUME + 5);
        let update_stats = stats_reporter.volume_update_stats();
        assert_eq!(update_stats.num_decreases, 0);
        assert_eq!(update_stats.sum_decreases, 0);
        assert_eq!(update_stats.num_increases, 2);
        assert_eq!(update_stats.sum_increases, 5);
    });
}

#[test]
fn check_volume_update_stats_after_volume_decrease() {
    run_for_both_types(|input_volume_type| {
        const INPUT_VOLUME: i32 = 10;
        let mut stats_reporter = InputVolumeStatsReporter::new(input_volume_type);
        stats_reporter.update_statistics(INPUT_VOLUME);
        stats_reporter.update_statistics(INPUT_VOLUME - 4);
        stats_reporter.update_statistics(INPUT_VOLUME - 5);
        let update_stats = stats_reporter.volume_update_stats();
        assert_eq!(update_stats.num_decreases, 2);
        assert_eq!(update_stats.sum_decreases, 5);
        assert_eq!(update_stats.num_increases, 0);
        assert_eq!(update_stats.sum_increases, 0);
    });
}

#[test]
fn check_volume_update_stats_after_reset() {
    run_for_both_types(|input_volume_type| {
        let mut stats_reporter = InputVolumeStatsReporter::new(input_volume_type);
        const INPUT_VOLUME: i32 = 10;
        stats_reporter.update_statistics(INPUT_VOLUME);
        for _ in (0..FRAMES_IN_60_SECONDS - 2).step_by(2) {
            stats_reporter.update_statistics(INPUT_VOLUME + 2);
            stats_reporter.update_statistics(INPUT_VOLUME);
        }

        let stats_before_reset = stats_reporter.volume_update_stats();
        assert_eq!(stats_before_reset.num_decreases, FRAMES_IN_60_SECONDS / 2 - 1);
        assert_eq!(stats_before_reset.sum_decreases, FRAMES_IN_60_SECONDS - 2);
        assert_eq!(stats_before_reset.num_increases, FRAMES_IN_60_SECONDS / 2 - 1);
        assert_eq!(stats_before_reset.sum_increases, FRAMES_IN_60_SECONDS - 2);

        stats_reporter.update_statistics(INPUT_VOLUME + 2);
        let stats_during_reset = stats_reporter.volume_update_stats();
        assert_eq!(stats_during_reset.num_decreases, 0);
        assert_eq!(stats_during_reset.sum_decreases, 0);
        assert_eq!(stats_during_reset.num_increases, 0);
        assert_eq!(stats_during_reset.sum_increases, 0);

        stats_reporter.update_statistics(INPUT_VOLUME);
        stats_reporter.update_statistics(INPUT_VOLUME + 3);
        let stats_after_reset = stats_reporter.volume_update_stats();
        assert_eq!(stats_after_reset.num_decreases, 1);
        assert_eq!(stats_after_reset.sum_decreases, 2);
        assert_eq!(stats_after_reset.num_increases, 1);
        assert_eq!(stats_after_reset.sum_increases, 3);
    });
}

#[test]
fn update_histogram_on_recommended_input_volume_change_to_match_target_works() {
    let mut samples = HistogramSamples::default();
    update_histogram_on_recommended_input_volume_change_to_match_target(&mut samples, 12);
    update_histogram_on_recommended_input_volume_change_to_match_target(&mut samples, 12);
    update_histogram_on_recommended_input_volume_change_to_match_target(&mut samples, 13);
    assert_eq!(samples.as_pairs(), vec![(12, 2), (13, 1)]);
}

#[test]
fn each_period_adds_one_rate() {
    let mut reporter = InputVolumeStatsReporter::new(InputVolumeType::Applied);
    let total = |samples: &HistogramSamples| -> i32 {
        samples.as_pairs().iter().map(|pair| pair.1).sum()
    };
    for n in 0..FRAMES_IN_60_SECONDS * 3 {
        reporter.update_statistics(10 + n % 2);
        let periods = (n + 1) / FRAMES_IN_60_SECONDS;
        assert_eq!(total(&reporter.histograms().update_rate), periods);
        assert_eq!(total(&reporter.histograms().decrease_rate), periods);
        assert_eq!(total(&reporter.histograms().increase_rate), periods);
    }
    assert_eq!(
        reporter.histograms().update_rate.as_pairs(),
        vec![(5999, 1), (6000, 2)]
    );
    // The first frame changes nothing.
    assert_eq!(
        reporter.histograms().on_volume_change.as_pairs(),
        vec![(10, 8999), (11, 9000)]
    );
}

#[test]
fn changes_of_a_period_add_up() {
    let mut reporter = InputVolumeStatsReporter::new(InputVolumeType::Recommended);
    let mut before_period = 0;
    let mut previous = 0;
    for n in 0..FRAMES_IN_60_SECONDS + 100 {
        if n == FRAMES_IN_60_SECONDS {
            before_period = previous;
        }
        let volume = if n % 7 == 0 { 255 } else { n % 13 };
        if n == 0 {
            before_period = volume;
        }
        reporter.update_statistics(volume);
        previous = volume;
        let stats = reporter.volume_update_stats();
        if n + 1 != FRAMES_IN_60_SECONDS {
            assert_eq!(stats.sum_increases - stats.sum_decreases, volume - before_period);
        }
    }
}
