use aec3::audio_processing::agc2::rnn_vad::ring_buffer::RingBuffer;
use aec3::audio_processing::agc2::rnn_vad::symmetric_matrix_buffer::SymmetricMatrixBuffer;

fn check_symmetry<const S: usize>(sym_matrix_buf: &SymmetricMatrixBuffer<(i32, i32), S>) {
    for row in 0..(S - 1) {
        for col in (row + 1)..S {
            assert_eq!(
                sym_matrix_buf.get_value(row, col),
                sym_matrix_buf.get_value(col, row)
            );
        }
    }
}

fn check_pairs_with_value_exist<const S: usize>(
    sym_matrix_buf: &SymmetricMatrixBuffer<(i32, i32), S>,
    value: i32,
) -> bool {
    for row in 0..(S - 1) {
        for col in (row + 1)..S {
            let p = sym_matrix_buf.get_value(row, col);
            if p.0 == value || p.1 == value {
                return true;
            }
        }
    }
    false
}

#[test]
fn symmetric_matrix_buffer_use_case() {
    const RING_BUF_SIZE: usize = 10;
    let mut ring_buf = RingBuffer::<i32, 1, RING_BUF_SIZE>::new();
    let mut sym_matrix_buf = SymmetricMatrixBuffer::<(i32, i32), RING_BUF_SIZE>::new();

    for t in 1..=100 {
        let t_removed = ring_buf.get_array_view(RING_BUF_SIZE - 1)[0];
        ring_buf.push(&[t]);

        assert_eq!(t, ring_buf.get_array_view(0)[0]);

        let mut new_comparisons = [(0i32, 0i32); RING_BUF_SIZE - 1];
        for i in 0..(RING_BUF_SIZE - 1) {
            let delay = i + 1;
            let t_prev = ring_buf.get_array_view(delay)[0];
            assert_eq!(std::cmp::max(0, t - delay as i32), t_prev);
            new_comparisons[i] = (t_prev, t);
        }

        sym_matrix_buf.push(&new_comparisons);

        check_symmetry(&sym_matrix_buf);

        for delay1 in 0..(RING_BUF_SIZE - 1) {
            for delay2 in (delay1 + 1)..RING_BUF_SIZE {
                let t1 = ring_buf.get_array_view(delay1)[0];
                let t2 = ring_buf.get_array_view(delay2)[0];
                assert!(t2 <= t1);
                let p = sym_matrix_buf.get_value(delay1, delay2);
                assert_eq!(p.0, t2);
                assert_eq!(p.1, t1);
            }
        }

        for delay in 1..RING_BUF_SIZE {
            let t_prev = ring_buf.get_array_view(delay)[0];
            assert!(check_pairs_with_value_exist(&sym_matrix_buf, t_prev));
        }

        if t > (RING_BUF_SIZE as i32 - 1) {
            assert!(!check_pairs_with_value_exist(&sym_matrix_buf, t_removed));
        }
    }
}

#[test]
fn values_are_those_of_the_buffered_items() {
    let mut ring: RingBuffer<i32, 1, 4> = RingBuffer::default();
    let mut buffer: SymmetricMatrixBuffer<i32, 4> = SymmetricMatrixBuffer::default();
    assert_eq!(buffer.get_value(1, 3), 0);
    for (round, item) in [3, 14, 15, 92, 65, 35].into_iter().enumerate() {
        ring.push(&[item]);
        let values: Vec<i32> = (1..4)
            .map(|delay| 1000 * ring.get_array_view(delay)[0] + item)
            .collect();
        buffer.push(&values);
        for newer in 0..(round + 1).min(3) {
            for older in newer + 1..4 {
                assert_eq!(
                    buffer.get_value(newer, older),
                    1000 * ring.get_array_view(older)[0] + ring.get_array_view(newer)[0]
                );
            }
        }
    }
}
