use aec3::audio_processing::agc2::cpu_features::AvailableCpuFeatures;
use aec3::audio_processing::agc2::rnn_vad::vector_math::{VectorBackend, VectorMath};

const X: [f32; 19] = [
    0.31593041,
    0.9350786,
    -0.25252445,
    -0.86956251,
    -0.9673632,
    0.54571901,
    -0.72504495,
    -0.79509912,
    -0.25525012,
    -0.73340473,
    0.15747377,
    -0.04370565,
    0.76135145,
    -0.57239645,
    0.68616848,
    0.3740298,
    0.34710799,
    -0.92207423,
    0.10738454,
];
const SIZE_OF_X_SUBSPAN: usize = 16;
const ENERGY_OF_X: f32 = 7.315563958160327;
const ENERGY_OF_X_SUBSPAN: f32 = 6.333327669592963;

fn get_cpu_features_to_test() -> Vec<AvailableCpuFeatures> {
    vec![
        AvailableCpuFeatures::new(false, false, false),
        AvailableCpuFeatures::new(false, true, false),
        AvailableCpuFeatures::new(true, false, false),
        AvailableCpuFeatures::new(false, false, true),
    ]
}

#[test]
fn test_dot_product() {
    for cpu_features in get_cpu_features_to_test() {
        let vector_math = VectorMath::new(cpu_features);
        let energy = vector_math.dot_product(&X, &X);
        let energy_subspan =
            vector_math.dot_product(&X[..SIZE_OF_X_SUBSPAN], &X[..SIZE_OF_X_SUBSPAN]);

        assert!(
            (energy - ENERGY_OF_X).abs() < 1e-6,
            "cpu_features={cpu_features:?}, got={energy}, expected={ENERGY_OF_X}"
        );
        assert!(
            (energy_subspan - ENERGY_OF_X_SUBSPAN).abs() < 1e-6,
            "cpu_features={cpu_features:?}, got={energy_subspan}, expected={ENERGY_OF_X_SUBSPAN}"
        );
    }
}

#[test]
fn widest_available_instructions_are_taken() {
    let backend = |sse2, avx2, neon| {
        VectorMath::new(AvailableCpuFeatures::new(sse2, avx2, neon)).backend()
    };
    assert_eq!(backend(true, true, true), VectorBackend::Avx2);
    assert_eq!(backend(true, false, true), VectorBackend::Sse2);
    assert_eq!(backend(false, false, true), VectorBackend::Neon);
    assert_eq!(backend(false, false, false), VectorBackend::Scalar);
}
