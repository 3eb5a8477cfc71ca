use aec3::audio_processing::aec3::aec3_common::{
    Aec3Optimization, FFT_LENGTH, FFT_LENGTH_BY_2, FFT_LENGTH_BY_2_PLUS_1,
};
use aec3::audio_processing::aec3::fft_data::FftData;

fn ramp() -> FftData<f32> {
    let mut data = FftData::new();
    for k in 0..FFT_LENGTH_BY_2_PLUS_1 {
        data.re[k] = k as f32 * 0.5 - 3.0;
        data.im[k] = 1.0 + k as f32 * 0.25;
    }
    data
}

#[test]
fn spectrum_matches_scalar_across_optimizations() {
    let data = ramp();

    let mut scalar = [0.0f32; FFT_LENGTH_BY_2_PLUS_1];
    data.spectrum(Aec3Optimization::Scalar, &mut scalar);

    for optimization in [
        Aec3Optimization::Sse2,
        Aec3Optimization::Avx2,
        Aec3Optimization::Neon,
    ] {
        let mut actual = [0.0f32; FFT_LENGTH_BY_2_PLUS_1];
        data.spectrum(optimization, &mut actual);
        assert_eq!(scalar, actual, "optimization={optimization:?}");
    }
}

#[test]
fn spectrum_is_the_squared_magnitude() {
    let mut data: FftData<f32> = FftData::new();
    data.re[3] = 3.0;
    data.im[3] = -4.0;
    let mut spectrum = [1.0f32; FFT_LENGTH_BY_2_PLUS_1];
    data.spectrum(Aec3Optimization::Scalar, &mut spectrum);
    assert_eq!(spectrum[3], 25.0);
    assert_eq!(spectrum[4], 0.0);
}

#[test]
fn packing_and_unpacking_are_inverse() {
    let mut array = [0.0f32; FFT_LENGTH];
    for (i, v) in array.iter_mut().enumerate() {
        *v = i as f32 + 1.0;
    }
    let mut data = ramp();
    data.copy_from_packed_array(&array);
    assert_eq!(data.re[0], 1.0);
    assert_eq!(data.re[FFT_LENGTH_BY_2], 2.0);
    assert_eq!(data.im[0], 0.0);
    assert_eq!(data.im[FFT_LENGTH_BY_2], 0.0);
    assert_eq!(data.re[1], 3.0);
    assert_eq!(data.im[1], 4.0);
    let mut back = [0.0f32; FFT_LENGTH];
    data.copy_to_packed_array(&mut back);
    assert_eq!(array, back);
}

#[test]
fn assign_drops_the_imaginary_ends() {
    let source = ramp();
    let mut data: FftData<f32> = FftData::new();
    data.assign(&source);
    assert_eq!(data.re, source.re);
    assert_eq!(data.im[0], 0.0);
    assert_eq!(data.im[FFT_LENGTH_BY_2], 0.0);
    assert_eq!(data.im[1..FFT_LENGTH_BY_2], source.im[1..FFT_LENGTH_BY_2]);
    data.clear();
    assert_eq!(data.re, [0.0; FFT_LENGTH_BY_2_PLUS_1]);
    assert_eq!(data.im, [0.0; FFT_LENGTH_BY_2_PLUS_1]);
}

#[test]
fn default_spectrum_is_zero() {
    let data: FftData<f32> = FftData::default();
    assert!(data.re.iter().all(|&v| v == 0.0));
    assert!(data.im.iter().all(|&v| v == 0.0));
}
