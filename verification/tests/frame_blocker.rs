use aec3::audio_processing::aec3::aec3_common::{BLOCK_SIZE, SUB_FRAME_LENGTH};
use aec3::audio_processing::aec3::block::Block;
use aec3::audio_processing::aec3::frame_blocker::FrameBlocker;

fn num_bands_for_rate(sample_rate_hz: i32) -> usize {
    (sample_rate_hz / 16_000) as usize
}

const SAMPLE_RATES: [i32; 3] = [16_000, 32_000, 48_000];

fn compute_sample_value(
    chunk_counter: usize,
    chunk_size: usize,
    band: usize,
    channel: usize,
    sample_index: usize,
    offset: i32,
) -> f32 {
    let value = chunk_counter * chunk_size + sample_index + channel;
    let value = value as i32 + offset;
    if value > 0 {
        5000.0 * band as f32 + value as f32
    } else {
        0.0
    }
}

fn make_tensor(num_bands: usize, num_channels: usize, length: usize) -> Vec<Vec<Vec<f32>>> {
    (0..num_bands)
        .map(|_| {
            (0..num_channels)
                .map(|_| vec![0.0f32; length])
                .collect::<Vec<_>>()
        })
        .collect::<Vec<_>>()
}

fn fill_sub_frame(sub_frame_counter: usize, offset: i32, sub_frame: &mut [Vec<Vec<f32>>]) {
    for (band_idx, band) in sub_frame.iter_mut().enumerate() {
        for (channel_idx, channel) in band.iter_mut().enumerate() {
            for (sample_idx, sample) in channel.iter_mut().enumerate() {
                *sample = compute_sample_value(
                    sub_frame_counter,
                    SUB_FRAME_LENGTH,
                    band_idx,
                    channel_idx,
                    sample_idx,
                    offset,
                );
            }
        }
    }
}

fn verify_block(block_counter: usize, offset: i32, block: &Block<f32>) {
    for band_idx in 0..block.num_bands() {
        for channel_idx in 0..block.num_channels() {
            for (sample_idx, &sample) in block.view(band_idx, channel_idx).iter().enumerate() {
                let reference = compute_sample_value(
                    block_counter,
                    BLOCK_SIZE,
                    band_idx,
                    channel_idx,
                    sample_idx,
                    offset,
                );
                assert!(
                    (reference - sample).abs() < f32::EPSILON,
                    "Mismatch at band {band_idx}, channel {channel_idx}, sample {sample_idx}: expected {reference}, got {sample}"
                );
            }
        }
    }
}

fn run_blocker_test(sample_rate_hz: i32, num_channels: usize) {
    const NUM_SUB_FRAMES: usize = 20;
    let num_bands = num_bands_for_rate(sample_rate_hz);
    let mut block: Block<f32> = Block::new(num_bands, num_channels);
    let mut sub_frame = make_tensor(num_bands, num_channels, SUB_FRAME_LENGTH);
    let mut blocker = FrameBlocker::new(num_bands, num_channels);

    let mut block_counter = 0usize;
    for sub_frame_idx in 0..NUM_SUB_FRAMES {
        fill_sub_frame(sub_frame_idx, 0, &mut sub_frame);
        blocker.insert_sub_frame_and_extract_block(&sub_frame, &mut block);
        verify_block(block_counter, 0, &block);
        block_counter += 1;

        if (sub_frame_idx + 1) % 4 == 0 {
            assert!(blocker.is_block_available());
        } else {
            assert!(!blocker.is_block_available());
        }

        if blocker.is_block_available() {
            blocker.extract_block(&mut block);
            verify_block(block_counter, 0, &block);
            block_counter += 1;
        }
    }
}

#[test]
fn frame_blocker_produces_expected_blocks() {
    for &rate in &SAMPLE_RATES {
        for &channels in &[1usize, 2, 4, 8] {
            run_blocker_test(rate, channels);
        }
    }
}

#[test]
fn blocks_put_together_are_the_sub_frames() {
    let mut blocker: FrameBlocker<f32> = FrameBlocker::new(1, 1);
    let mut block: Block<f32> = Block::new(1, 1);
    let mut inserted = Vec::new();
    let mut extracted = Vec::new();
    for n in 0..8 {
        let samples: Vec<f32> = (0..SUB_FRAME_LENGTH).map(|i| (n * 1000 + i) as f32).collect();
        inserted.extend_from_slice(&samples);
        blocker.insert_sub_frame_and_extract_block(&[vec![samples]], &mut block);
        extracted.extend_from_slice(block.view(0, 0));
        if blocker.is_block_available() {
            blocker.extract_block(&mut block);
            extracted.extend_from_slice(block.view(0, 0));
        }
    }
    assert_eq!(inserted, extracted);
}
