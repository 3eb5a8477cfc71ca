use aec3::audio_processing::aec3::aec3_common::Aec3Optimization;
use aec3::audio_processing::aec3::vector_math::VectorMath;

fn optimizations_to_test() -> [Aec3Optimization; 4] {
    [
        Aec3Optimization::Scalar,
        Aec3Optimization::Sse2,
        Aec3Optimization::Avx2,
        Aec3Optimization::Neon,
    ]
}

#[test]
fn sqrt_matches_scalar() {
    let input = [
        0.0f32, 0.01, 0.25, 0.5, 1.0, 2.0, 3.5, 4.0, 9.0, 16.0, 25.0, 36.0, 49.0,
    ];
    let mut expected = input;
    for v in expected.iter_mut() {
        *v = v.sqrt();
    }

    for optimization in optimizations_to_test() {
        let mut actual = input;
        VectorMath::new(optimization).sqrt(&mut actual, &|v: f32| v.sqrt());
        for (&lhs, &rhs) in actual.iter().zip(expected.iter()) {
            assert!((lhs - rhs).abs() < 1e-5, "optimization={optimization:?}");
        }
    }
}

#[test]
fn multiply_matches_scalar() {
    let x = [1.0f32, -2.0, 3.5, 0.5, 2.0, -4.0, 7.0, 8.0, 0.25];
    let y = [2.0f32, 4.0, -1.0, 0.0, -2.0, 0.5, 3.0, -1.5, 6.0];
    let mut expected = [0.0f32; 9];
    for i in 0..9 {
        expected[i] = x[i] * y[i];
    }

    for optimization in optimizations_to_test() {
        let mut actual = [0.0f32; 9];
        VectorMath::new(optimization).multiply(&x, &y, &mut actual);
        assert_eq!(actual, expected, "optimization={optimization:?}");
    }
}

#[test]
fn accumulate_matches_scalar() {
    let x = [1.0f32, -2.0, 3.5, 0.5, 2.0, -4.0, 7.0, 8.0, 0.25];
    let mut expected = [0.5f32, 0.5, 0.5, 0.5, 0.5, 0.5, 0.5, 0.5, 0.5];
    for i in 0..9 {
        expected[i] += x[i];
    }

    for optimization in optimizations_to_test() {
        let mut actual = [0.5f32; 9];
        VectorMath::new(optimization).accumulate(&x, &mut actual);
        assert_eq!(actual, expected, "optimization={optimization:?}");
    }
}
