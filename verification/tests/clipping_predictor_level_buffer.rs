use aec3::audio_processing::agc2::clipping_predictor_level_buffer::{ClippingPredictorLevelBuffer, Level};

fn number(n: i32) -> f32 {
    n as f32
}

fn assert_optional_level_eq(actual: Option<Level<f32>>, expected: Level<f32>) {
    let got = actual.expect("expected value");
    assert!(got.close_to(&expected, 1e-6));
}

#[test]
fn check_empty_buffer_size() {
    for &capacity in &[-1, 0, 1, 123] {
        let buffer: ClippingPredictorLevelBuffer<f32> =
            ClippingPredictorLevelBuffer::new(capacity);
        assert_eq!(buffer.capacity(), capacity.max(1));
        assert_eq!(buffer.size(), 0);
    }
}

#[test]
fn check_half_empty_buffer_size() {
    for &capacity in &[-1, 0, 1, 123] {
        let mut buffer = ClippingPredictorLevelBuffer::new(capacity);
        for _ in 0..buffer.capacity() / 2 {
            buffer.push(Level {
                average: 2.0,
                max: 4.0,
            });
        }
        assert_eq!(buffer.capacity(), capacity.max(1));
        assert_eq!(buffer.size(), capacity.max(1) / 2);
    }
}

#[test]
fn check_full_buffer_size() {
    for &capacity in &[-1, 0, 1, 123] {
        let mut buffer = ClippingPredictorLevelBuffer::new(capacity);
        for _ in 0..buffer.capacity() {
            buffer.push(Level {
                average: 2.0,
                max: 4.0,
            });
        }
        assert_eq!(buffer.capacity(), capacity.max(1));
        assert_eq!(buffer.size(), capacity.max(1));
    }
}

#[test]
fn check_large_buffer_size() {
    for &capacity in &[-1, 0, 1, 123] {
        let mut buffer = ClippingPredictorLevelBuffer::new(capacity);
        for _ in 0..2 * buffer.capacity() {
            buffer.push(Level {
                average: 2.0,
                max: 4.0,
            });
        }
        assert_eq!(buffer.capacity(), capacity.max(1));
        assert_eq!(buffer.size(), capacity.max(1));
    }
}

#[test]
fn check_size_after_reset() {
    for &capacity in &[-1, 0, 1, 123] {
        let mut buffer = ClippingPredictorLevelBuffer::new(capacity);
        buffer.push(Level {
            average: 1.0,
            max: 1.0,
        });
        buffer.push(Level {
            average: 1.0,
            max: 1.0,
        });
        buffer.reset();
        assert_eq!(buffer.capacity(), capacity.max(1));
        assert_eq!(buffer.size(), 0);
        buffer.push(Level {
            average: 1.0,
            max: 1.0,
        });
        assert_eq!(buffer.capacity(), capacity.max(1));
        assert_eq!(buffer.size(), 1);
    }
}

#[test]
fn check_metrics_after_full_buffer() {
    let mut buffer = ClippingPredictorLevelBuffer::new(2);
    buffer.push(Level {
        average: 1.0,
        max: 2.0,
    });
    buffer.push(Level {
        average: 3.0,
        max: 6.0,
    });
    assert_optional_level_eq(
        buffer.compute_partial_metrics(0, 1, &number),
        Level {
            average: 3.0,
            max: 6.0,
        },
    );
    assert_optional_level_eq(
        buffer.compute_partial_metrics(1, 1, &number),
        Level {
            average: 1.0,
            max: 2.0,
        },
    );
    assert_optional_level_eq(
        buffer.compute_partial_metrics(0, 2, &number),
        Level {
            average: 2.0,
            max: 6.0,
        },
    );
}

#[test]
fn check_metrics_after_push_beyond_capacity() {
    let mut buffer = ClippingPredictorLevelBuffer::new(2);
    buffer.push(Level {
        average: 1.0,
        max: 1.0,
    });
    buffer.push(Level {
        average: 3.0,
        max: 6.0,
    });
    buffer.push(Level {
        average: 5.0,
        max: 10.0,
    });
    buffer.push(Level {
        average: 7.0,
        max: 14.0,
    });
    buffer.push(Level {
        average: 6.0,
        max: 12.0,
    });
    assert_optional_level_eq(
        buffer.compute_partial_metrics(0, 1, &number),
        Level {
            average: 6.0,
            max: 12.0,
        },
    );
    assert_optional_level_eq(
        buffer.compute_partial_metrics(1, 1, &number),
        Level {
            average: 7.0,
            max: 14.0,
        },
    );
    assert_optional_level_eq(
        buffer.compute_partial_metrics(0, 2, &number),
        Level {
            average: 6.5,
            max: 14.0,
        },
    );
}

#[test]
fn check_metrics_after_too_few_items() {
    let mut buffer = ClippingPredictorLevelBuffer::new(4);
    buffer.push(Level {
        average: 1.0,
        max: 2.0,
    });
    buffer.push(Level {
        average: 3.0,
        max: 6.0,
    });
    assert!(buffer.compute_partial_metrics(0, 3, &number).is_none());
    assert!(buffer.compute_partial_metrics(2, 1, &number).is_none());
}

#[test]
fn check_metrics_after_reset() {
    let mut buffer = ClippingPredictorLevelBuffer::new(2);
    buffer.push(Level {
        average: 1.0,
        max: 2.0,
    });
    buffer.reset();
    buffer.push(Level {
        average: 5.0,
        max: 10.0,
    });
    buffer.push(Level {
        average: 7.0,
        max: 14.0,
    });
    assert_optional_level_eq(
        buffer.compute_partial_metrics(0, 1, &number),
        Level {
            average: 7.0,
            max: 14.0,
        },
    );
    assert_optional_level_eq(
        buffer.compute_partial_metrics(0, 2, &number),
        Level {
            average: 6.0,
            max: 14.0,
        },
    );
    assert_optional_level_eq(
        buffer.compute_partial_metrics(1, 1, &number),
        Level {
            average: 5.0,
            max: 10.0,
        },
    );
}

#[test]
fn levels_are_close_within_the_margin_only() {
    let level = Level {
        average: 1.0f32,
        max: 2.0,
    };
    let other = Level {
        average: 1.0f32,
        max: 2.5,
    };
    assert!(level.close_to(&other, 1.0));
    assert!(!level.close_to(&other, 0.25));
}
