use aec3::audio_processing::agc2::rnn_vad::ring_buffer::RingBuffer;

fn test_ring_buffer_u8<const S: usize, const N: usize>() {
    let mut ring_buf = RingBuffer::<u8, S, N>::new();

    let mut pushed_array = [0u8; S];
    ring_buf.push(&pushed_array);
    assert_eq!(ring_buf.get_array_view(0), &pushed_array);

    for v in 1..=(N as u8) {
        pushed_array = [v; S];
        ring_buf.push(&pushed_array);
        assert_eq!(ring_buf.get_array_view(0), &pushed_array);

        if N > 1 {
            let prev_pushed_array = [v - 1; S];
            assert_eq!(ring_buf.get_array_view(1), &prev_pushed_array);
        }
    }

    for delay in 2..N {
        let expected_value = (N - delay) as u8;
        let expected = [expected_value; S];
        assert_eq!(ring_buf.get_array_view(delay), &expected);
    }
}

fn test_ring_buffer_i32<const S: usize, const N: usize>() {
    let mut ring_buf = RingBuffer::<i32, S, N>::new();

    let mut pushed_array = [0i32; S];
    ring_buf.push(&pushed_array);
    assert_eq!(ring_buf.get_array_view(0), &pushed_array);

    for v in 1..=(N as i32) {
        pushed_array = [v; S];
        ring_buf.push(&pushed_array);
        assert_eq!(ring_buf.get_array_view(0), &pushed_array);

        if N > 1 {
            let prev_pushed_array = [v - 1; S];
            assert_eq!(ring_buf.get_array_view(1), &prev_pushed_array);
        }
    }

    for delay in 2..N {
        let expected_value = (N - delay) as i32;
        let expected = [expected_value; S];
        assert_eq!(ring_buf.get_array_view(delay), &expected);
    }
}

fn test_ring_buffer_f32<const S: usize, const N: usize>() {
    let mut ring_buf = RingBuffer::<f32, S, N>::new();

    let mut pushed_array = [0.0f32; S];
    ring_buf.push(&pushed_array);
    assert_eq!(ring_buf.get_array_view(0), &pushed_array);

    for v in 1..=(N as i32) {
        let value = v as f32;
        pushed_array = [value; S];
        ring_buf.push(&pushed_array);
        assert_eq!(ring_buf.get_array_view(0), &pushed_array);

        if N > 1 {
            let prev_pushed_array = [(v - 1) as f32; S];
            assert_eq!(ring_buf.get_array_view(1), &prev_pushed_array);
        }
    }

    for delay in 2..N {
        let expected_value = (N - delay) as f32;
        let expected = [expected_value; S];
        assert_eq!(ring_buf.get_array_view(delay), &expected);
    }
}

#[test]
fn ring_buffer_array_views() {
    const S: usize = 3;
    const N: usize = 4;
    let mut ring_buf = RingBuffer::<i32, S, N>::new();
    let pushed_array = [1i32; S];

    for _ in 0..=N {
        for i in 0..N {
            let view_i = ring_buf.get_array_view(i);
            for j in (i + 1)..N {
                let view_j = ring_buf.get_array_view(j);
                assert_ne!(view_i.as_ptr(), view_j.as_ptr());
            }
        }
        ring_buf.push(&pushed_array);
    }
}

#[test]
fn ring_buffer_unsigned() {
    test_ring_buffer_u8::<1, 1>();
    test_ring_buffer_u8::<2, 5>();
    test_ring_buffer_u8::<5, 2>();
    test_ring_buffer_u8::<5, 5>();
}

#[test]
fn ring_buffer_signed() {
    test_ring_buffer_i32::<1, 1>();
    test_ring_buffer_i32::<2, 5>();
    test_ring_buffer_i32::<5, 2>();
    test_ring_buffer_i32::<5, 5>();
}

#[test]
fn ring_buffer_floating() {
    test_ring_buffer_f32::<1, 1>();
    test_ring_buffer_f32::<2, 5>();
    test_ring_buffer_f32::<5, 2>();
    test_ring_buffer_f32::<5, 5>();
}

#[test]
fn default_ring_buffer_is_zero() {
    let mut ring: RingBuffer<i32, 2, 3> = RingBuffer::default();
    for delay in 0..3 {
        assert_eq!(ring.get_array_view(delay), &[0, 0]);
    }
    ring.push(&[1, 2]);
    assert_eq!(ring.get_array_view(0), &[1, 2]);
    assert_eq!(ring.get_array_view(1), &[0, 0]);
}
