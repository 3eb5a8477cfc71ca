use aec3::audio_processing::aec3::aec3_common::{
    BLOCK_SIZE, MATCHED_FILTER_ALIGNMENT_SHIFT_SIZE_SUB_BLOCKS,
    MATCHED_FILTER_WINDOW_SIZE_SUB_BLOCKS,
};
use aec3::audio_processing::aec3::downsampled_render_buffer::DownsampledRenderBuffer;
use aec3::audio_processing::aec3::matched_filter::{
    matched_filter_core, matched_filter_core_with_accumulated_error, CoreParameters, MatchedFilter, MatchedFilterParameters,
};

const BUFFER_BLOCKS: usize = 300;
const DOWN_SAMPLING_FACTORS: [usize; 3] = [2, 4, 8];
const NON_SATURATING_AMPLITUDE: f32 = 30_000.0;
const NUM_MATCHED_FILTERS: usize = 10;

/// A linear congruential generator.
struct Random(u64);

impl Random {
    fn next(&mut self) -> u32 {
        self.0 = self
            .0
            .wrapping_mul(6364136223846793005)
            .wrapping_add(1442695040888963407);
        (self.0 >> 33) as u32
    }

    fn sample(&mut self, amplitude: f32) -> f32 {
        (self.next() as f32 / (1u64 << 31) as f32 * 2.0 - 1.0) * amplitude
    }
}

fn filter(
    sub_block_size: usize,
    num_filters: usize,
    detect_pre_echo: bool,
) -> MatchedFilter<f32> {
    MatchedFilter::new(
        sub_block_size,
        MATCHED_FILTER_WINDOW_SIZE_SUB_BLOCKS,
        num_filters,
        MATCHED_FILTER_ALIGNMENT_SHIFT_SIZE_SUB_BLOCKS,
        MatchedFilterParameters {
            excitation_limit: 150.0,
            smoothing_fast: 0.7,
            smoothing_slow: 0.7,
            matching_filter_threshold: 0.2,
            saturation_limit: 32_000.0,
            energy_threshold: 1.0,
            one: 1.0,
            smooth_constant_increases: 0.015,
            pre_echo_threshold: 0.5,
        },
        detect_pre_echo,
        &|n: usize| n as f32,
    )
}

/// A render buffer, and the samples that were put into it, oldest first.
struct Render {
    buffer: DownsampledRenderBuffer<f32>,
    stream: Vec<f32>,
}

impl Render {
    fn new(sub_block_size: usize) -> Self {
        Render {
            buffer: DownsampledRenderBuffer {
                buffer: vec![0.0; sub_block_size * BUFFER_BLOCKS],
                write: 0,
                read: 0,
            },
            stream: Vec::new(),
        }
    }

    fn insert(&mut self, block: &[f32]) {
        let size = self.buffer.buffer.len();
        for &sample in block {
            self.buffer.read = (self.buffer.read + size - 1) % size;
            self.buffer.buffer[self.buffer.read] = sample;
            self.stream.push(sample);
        }
    }

    /// The last `len` samples, delayed.
    fn delayed(&self, len: usize, delay: usize) -> Vec<f32> {
        let now = self.stream.len();
        (0..len)
            .map(|i| {
                let t = now - len + i;
                if t >= delay {
                    self.stream[t - delay]
                } else {
                    0.0
                }
            })
            .collect()
    }
}

fn signals() -> (Vec<f32>, Vec<f32>, Vec<f32>) {
    let x = (0..192)
        .map(|i| ((i as f32 * 0.17).sin() * 48.0) + ((i as f32 * 0.11).cos() * 12.0))
        .collect::<Vec<_>>();
    let y = (0..24)
        .map(|i| ((i as f32 * 0.29).cos() * 20.0) + 5.0)
        .collect::<Vec<_>>();
    let initial_h = (0..48)
        .map(|i| ((i as f32 * 0.07).sin() * 0.05) - 0.02)
        .collect::<Vec<_>>();
    (x, y, initial_h)
}

const PARAMETERS: CoreParameters<f32> = CoreParameters {
    x2_sum_threshold: 100.0,
    smoothing: 0.2,
    saturation_limit: 32_000.0,
};

/// The adaptation, sample by sample in double precision.
fn adapt(start: usize, x: &[f32], y: &[f32], h: &mut [f64]) -> (bool, f64) {
    let mut start = start;
    let mut updated = false;
    let mut error_sum = 0.0;
    for &sample in y {
        let window: Vec<f64> = (0..h.len())
            .map(|k| x[(start + k) % x.len()] as f64)
            .collect();
        let x2_sum: f64 = window.iter().map(|v| v * v).sum();
        let s: f64 = window.iter().zip(h.iter()).map(|(v, w)| v * w).sum();
        let e = sample as f64 - s;
        error_sum += e * e;
        if x2_sum > 100.0 && !(sample >= 32_000.0 || sample <= -32_000.0) {
            let alpha = 0.2f32 as f64 * e / x2_sum;
            for (w, v) in h.iter_mut().zip(window.iter()) {
                *w += alpha * v;
            }
            updated = true;
        }
        start = if start > 0 { start - 1 } else { x.len() - 1 };
    }
    (updated, error_sum)
}

#[test]
fn matched_filter_core_matches_scalar_across_optimizations() {
    let (x, y, initial_h) = signals();
    let x_start_index = x.len() - 9;
    let mut expected_h: Vec<f64> = initial_h.iter().map(|&v| v as f64).collect();
    let (updated, error_sum) = adapt(x_start_index, &x, &y, &mut expected_h);

    let mut actual_h = initial_h.clone();
    let actual = matched_filter_core(x_start_index, &PARAMETERS, &x, &y, &mut actual_h);
    assert_eq!(updated, actual.filters_updated);
    assert!((error_sum - actual.error_sum as f64).abs() <= 1e-2);
    for (a, e) in actual_h.iter().zip(expected_h.iter()) {
        assert!((*a as f64 - e).abs() <= 1e-4);
    }
}

#[test]
fn accumulated_error_cores_match_scalar_across_optimizations() {
    let (x, y, initial_h) = signals();
    // Starts near the end of the buffer so the render read wraps.
    let x_start_index = x.len() - 9;
    let mut expected_h = initial_h.clone();
    let expected = matched_filter_core(x_start_index, &PARAMETERS, &x, &y, &mut expected_h);

    let mut actual_h = initial_h.clone();
    let mut accumulated_error = vec![0.0f32; initial_h.len() / 4];
    let actual = matched_filter_core_with_accumulated_error(
        x_start_index,
        &PARAMETERS,
        &x,
        &y,
        &mut actual_h,
        &mut accumulated_error,
    );
    assert_eq!(expected.filters_updated, actual.filters_updated);
    assert!((expected.error_sum - actual.error_sum).abs() <= 1e-2);
    for (a, e) in actual_h.iter().zip(expected_h.iter()) {
        assert!((a - e).abs() <= 1e-4);
    }
    // The whole filter is its longest truncation.
    let last = accumulated_error[accumulated_error.len() - 1];
    assert!((last - actual.error_sum).abs() <= 1e-3 * actual.error_sum.max(1.0));
}

#[test]
fn lag_estimation_detects_known_delay() {
    let mut rng = Random(42);
    for &down_sampling_factor in &DOWN_SAMPLING_FACTORS {
        let sub_block_size = BLOCK_SIZE / down_sampling_factor;
        for &delay_samples in &[5usize, 64, 150, 200, 800, 1000] {
            let mut filter = filter(sub_block_size, NUM_MATCHED_FILTERS, false);
            let mut render = Render::new(sub_block_size);
            for _ in 0..(200 + delay_samples / sub_block_size) {
                let block: Vec<f32> = (0..sub_block_size)
                    .map(|_| rng.sample(NON_SATURATING_AMPLITUDE))
                    .collect();
                render.insert(&block);
                let capture = render.delayed(sub_block_size, delay_samples);
                filter.update(&render.buffer, &capture, false);
            }
            let lag_estimate = filter.best_lag_estimate().unwrap();
            assert_eq!(delay_samples, lag_estimate.lag);
            assert_eq!(delay_samples, lag_estimate.pre_echo_lag);
        }
    }
}

#[test]
fn pre_echo_estimation_finds_the_early_reflection() {
    let mut rng = Random(42);
    for &down_sampling_factor in &DOWN_SAMPLING_FACTORS {
        for &detect_pre_echo in &[false, true] {
            let sub_block_size = BLOCK_SIZE / down_sampling_factor;
            let pre_echo_delay_samples = 20 * 16_000 / 1000 / down_sampling_factor;
            let echo_delay_samples = 50 * 16_000 / 1000 / down_sampling_factor;
            let mut filter = filter(sub_block_size, NUM_MATCHED_FILTERS, detect_pre_echo);
            let mut render = Render::new(sub_block_size);
            for _ in 0..(600 + echo_delay_samples / sub_block_size) {
                let block: Vec<f32> = (0..sub_block_size)
                    .map(|_| rng.sample(15_000.0))
                    .collect();
                render.insert(&block);
                let echo = render.delayed(sub_block_size, echo_delay_samples);
                let pre_echo = render.delayed(sub_block_size, pre_echo_delay_samples);
                let capture: Vec<f32> = echo
                    .iter()
                    .zip(pre_echo.iter())
                    .map(|(e, p)| e + 0.8 * p)
                    .collect();
                filter.update(&render.buffer, &capture, false);
            }
            let lag_estimate = filter.best_lag_estimate().unwrap();
            assert_eq!(echo_delay_samples, lag_estimate.lag);
            if detect_pre_echo {
                // The pre-echo lag is estimated in a subsampled domain, so a larger
                // error is allowed.
                assert!(lag_estimate.pre_echo_lag.abs_diff(pre_echo_delay_samples) <= 4);
            } else {
                assert_eq!(echo_delay_samples, lag_estimate.pre_echo_lag);
            }
        }
    }
}

#[test]
fn lag_not_reliable_for_uncorrelated_signals() {
    let mut rng = Random(1337);
    for &down_sampling_factor in &DOWN_SAMPLING_FACTORS {
        let sub_block_size = BLOCK_SIZE / down_sampling_factor;
        let mut filter = filter(sub_block_size, 3, false);
        let mut render = Render::new(sub_block_size);
        for _ in 0..200 {
            let block: Vec<f32> = (0..sub_block_size)
                .map(|_| rng.sample(NON_SATURATING_AMPLITUDE))
                .collect();
            render.insert(&block);
            let capture: Vec<f32> = (0..sub_block_size)
                .map(|_| rng.sample(NON_SATURATING_AMPLITUDE))
                .collect();
            filter.update(&render.buffer, &capture, false);
        }
        assert!(filter.best_lag_estimate().is_none());
    }
}

#[test]
fn lag_not_updated_for_low_level_render() {
    let mut rng = Random(7);
    for &down_sampling_factor in &DOWN_SAMPLING_FACTORS {
        let sub_block_size = BLOCK_SIZE / down_sampling_factor;
        let mut filter = filter(sub_block_size, 2, false);
        let mut render = Render::new(sub_block_size);
        for _ in 0..100 {
            let block: Vec<f32> = (0..sub_block_size).map(|_| rng.sample(149.0)).collect();
            render.insert(&block);
            let capture = render.delayed(sub_block_size, sub_block_size);
            filter.update(&render.buffer, &capture, false);
        }
        assert!(filter.best_lag_estimate().is_none());
    }
}

#[test]
fn reset_forgets_the_estimate() {
    let mut rng = Random(3);
    let sub_block_size = 16;
    let mut filter = filter(sub_block_size, 2, true);
    let mut render = Render::new(sub_block_size);
    for _ in 0..200 {
        let block: Vec<f32> = (0..sub_block_size).map(|_| rng.sample(20_000.0)).collect();
        render.insert(&block);
        let capture = render.delayed(sub_block_size, 40);
        filter.update(&render.buffer, &capture, true);
    }
    assert_eq!(filter.best_lag_estimate().unwrap().lag, 40);
    assert_eq!(filter.max_filter_lag(), 2 * 24 * 16 + 32 * 16);
    assert_eq!(filter.filter_ranges_ms(0, 4)[0], (0, 128));
    filter.reset(true);
    assert!(filter.best_lag_estimate().is_none());
}
