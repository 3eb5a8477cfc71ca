use aec3::audio_processing::aec3::binary32::Binary32;

#[test]
fn weighted_counts_are_ordered_as_in_single_precision() {
    let mut weights = Vec::new();
    let mut exact = Vec::new();
    let mut weight = Binary32::from_integer(1);
    let mut single = 1.0f32;
    for _ in 0..400 {
        weights.push(weight);
        exact.push(single);
        weight = weight.times(Binary32::seven_tenths());
        single *= 0.7;
    }
    for i in 0..weights.len() {
        for j in (0..weights.len()).step_by(7) {
            for (a, b) in [(0u64, 1u64), (1, 1), (3, 2), (250, 249), (16_777_217, 16_777_216)] {
                let left = Binary32::from_integer(a).times(weights[i]);
                let right = Binary32::from_integer(b).times(weights[j]);
                assert_eq!(
                    left.less_than(right),
                    a as f32 * exact[i] < b as f32 * exact[j],
                    "{a} * weight {i}, {b} * weight {j}"
                );
            }
        }
    }
}
