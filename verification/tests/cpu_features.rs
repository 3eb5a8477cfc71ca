use aec3::audio_processing::agc2::cpu_features::{no_available_cpu_features, AvailableCpuFeatures};

#[test]
fn to_string_none() {
    assert_eq!("none", no_available_cpu_features().to_string());
}

#[test]
fn to_string_feature_join_order() {
    assert_eq!(
        "SSE2_AVX2_NEON",
        AvailableCpuFeatures::new(true, true, true).to_string()
    );
    assert_eq!(
        "AVX2",
        AvailableCpuFeatures::new(false, true, false).to_string()
    );
}
