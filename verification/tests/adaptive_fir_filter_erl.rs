use aec3::audio_processing::aec3::adaptive_fir_filter_erl::{compute_erl, erl_computer};
use aec3::audio_processing::aec3::aec3_common::{Aec3Optimization, FFT_LENGTH_BY_2_PLUS_1};

#[test]
fn erl_accumulates_energy() {
    let mut h2 = vec![[0.0f32; FFT_LENGTH_BY_2_PLUS_1]; 3];
    for (p, partition) in h2.iter_mut().enumerate() {
        for (k, value) in partition.iter_mut().enumerate() {
            *value = p as f32 + k as f32 * 0.1;
        }
    }
    let mut erl = [0.0f32; FFT_LENGTH_BY_2_PLUS_1];
    compute_erl(Aec3Optimization::Scalar, &h2, &mut erl);
    for k in 0..FFT_LENGTH_BY_2_PLUS_1 {
        let expected = h2[0][k] + h2[1][k] + h2[2][k];
        assert!((erl[k] - expected).abs() < 1e-6);
    }
}

#[test]
fn erl_matches_scalar_across_optimizations() {
    let mut h2 = vec![[0.0f32; FFT_LENGTH_BY_2_PLUS_1]; 4];
    for (p, partition) in h2.iter_mut().enumerate() {
        for (k, value) in partition.iter_mut().enumerate() {
            *value = p as f32 * 0.75 + k as f32 * 0.125;
        }
    }

    let mut expected = [0.0f32; FFT_LENGTH_BY_2_PLUS_1];
    compute_erl(Aec3Optimization::Scalar, &h2, &mut expected);

    for optimization in [
        Aec3Optimization::Sse2,
        Aec3Optimization::Avx2,
        Aec3Optimization::Neon,
    ] {
        let mut actual = [0.0f32; FFT_LENGTH_BY_2_PLUS_1];
        compute_erl(optimization, &h2, &mut actual);
        assert_eq!(expected, actual, "optimization={optimization:?}");
    }
}

#[test]
fn erl_of_no_partitions_is_zero() {
    let mut erl = [3.0f32; FFT_LENGTH_BY_2_PLUS_1];
    erl_computer(&[], &mut erl);
    assert_eq!(erl, [0.0f32; FFT_LENGTH_BY_2_PLUS_1]);
}
