use aec3::audio_processing::aec3::aec3_common::BLOCK_SIZE;
use aec3::audio_processing::aec3::block::Block;
use aec3::audio_processing::aec3::block_buffer::BlockBuffer;

#[test]
fn views_are_disjoint_and_indexed_by_band_then_channel() {
    let mut block: Block<f32> = Block::new(2, 3);
    assert_eq!(2, block.num_bands());
    assert_eq!(3, block.num_channels());

    for band in 0..2 {
        for channel in 0..3 {
            block
                .view_mut(band, channel)
                .fill((band * 3 + channel) as f32);
        }
    }
    for band in 0..2 {
        for channel in 0..3 {
            assert!(block
                .view(band, channel)
                .iter()
                .all(|s| *s == (band * 3 + channel) as f32));
        }
    }
}

#[test]
fn band_spans_every_channel() {
    let mut block: Block<f32> = Block::new(2, 2);
    block.view_mut(1, 1).fill(7.0);
    let band = block.band(1);
    assert_eq!(2 * BLOCK_SIZE, band.len());
    assert_eq!(0.0, band[0]);
    assert_eq!(7.0, band[BLOCK_SIZE]);
}

#[test]
fn set_num_channels_resizes_and_clears() {
    let mut block = Block::with_value(2, 1, 5.0f32);
    block.set_num_channels(3);
    assert_eq!(3, block.num_channels());
    for band in 0..2 {
        for channel in 0..3 {
            assert!(block.view(band, channel).iter().all(|s| *s == 0.0));
        }
    }
}

#[test]
fn nested_vectors_become_channels() {
    let nested = vec![
        vec![vec![1.0f32; BLOCK_SIZE], vec![2.0f32; BLOCK_SIZE]],
        vec![vec![3.0f32; BLOCK_SIZE], vec![4.0f32; BLOCK_SIZE]],
    ];
    let mut block = Block::from_nested(&nested);
    let channels = block.band_channels(1);
    assert_eq!(channels.len(), 2);
    assert_eq!(channels[0][0], 3.0);
    assert_eq!(channels[1][BLOCK_SIZE - 1], 4.0);
    let mut other = Block::with_value(1, 1, 9.0f32);
    block.swap(&mut other);
    assert_eq!(block.view(0, 0)[5], 9.0);
    assert_eq!(other.view(0, 1)[5], 2.0);
    block.fill(-1.0);
    assert!(block.view(0, 0).iter().all(|s| *s == -1.0));
}

#[test]
fn buffer_indices_go_round() {
    let mut buffer: BlockBuffer<f32> = BlockBuffer::new(5, 1, 1);
    assert_eq!(buffer.size(), 5);
    assert_eq!(buffer.inc_index(3), 4);
    assert_eq!(buffer.inc_index(4), 0);
    assert_eq!(buffer.dec_index(0), 4);
    assert_eq!(buffer.offset_index(1, -3), 3);
    assert_eq!(buffer.offset_index(4, 5), 4);
    assert_eq!(buffer.offset_index(2, -5), 2);
    assert_eq!(buffer.offset_index(12, 1), 3);
    buffer.dec_write_index();
    assert_eq!(buffer.write, 4);
    buffer.inc_write_index();
    assert_eq!(buffer.write, 0);
    buffer.update_read_index(-2);
    assert_eq!(buffer.read, 3);
    buffer.inc_read_index();
    buffer.dec_read_index();
    buffer.update_read_index(2);
    assert_eq!(buffer.read, 0);
    buffer.update_write_index(7 - 5);
    assert_eq!(buffer.write, 2);
}
