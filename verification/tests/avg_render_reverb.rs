use aec3::audio_processing::aec3::aec3_common::FFT_LENGTH_BY_2_PLUS_1;
use aec3::audio_processing::aec3::aec_state::avg_render_reverb::{
    compute_avg_render_reverb, ReverbFunctions,
};
use aec3::audio_processing::aec3::spectrum_buffer::SpectrumBuffer;

type Spectrum = [f32; FFT_LENGTH_BY_2_PLUS_1];

/// The reverberation decays by half, after the power was added to it.
fn functions(
) -> ReverbFunctions<impl Fn(usize) -> f32, impl Fn((Spectrum, Spectrum)) -> Spectrum> {
    ReverbFunctions {
        number: |n: usize| n as f32,
        update: |(reverb, power): (Spectrum, Spectrum)| {
            let mut updated = reverb;
            for k in 0..FFT_LENGTH_BY_2_PLUS_1 {
                updated[k] = (reverb[k] + power[k]) * 0.5;
            }
            updated
        },
    }
}

#[test]
fn delayed_power_comes_with_the_reverberation() {
    // Two channels; the block at index i has powers of i and of i + 2.
    let buffer = SpectrumBuffer {
        buffer: (0..4)
            .map(|i| {
                vec![
                    [i as f32; FFT_LENGTH_BY_2_PLUS_1],
                    [i as f32 + 2.0; FFT_LENGTH_BY_2_PLUS_1],
                ]
            })
            .collect(),
        write: 0,
        read: 1,
    };
    let mut reverb = [10.0f32; FFT_LENGTH_BY_2_PLUS_1];
    let mut power = [0.0f32; FFT_LENGTH_BY_2_PLUS_1];
    compute_avg_render_reverb(1.0, &buffer, 2, &functions(), &mut reverb, &mut power);
    // The block at the delay is at index 3, the one before it at index 0.
    assert_eq!(reverb, [(10.0 + 1.0) * 0.5; FFT_LENGTH_BY_2_PLUS_1]);
    assert_eq!(power, [4.0 + 5.5; FFT_LENGTH_BY_2_PLUS_1]);
}

#[test]
fn one_channel_is_taken_as_it_is() {
    let buffer = SpectrumBuffer {
        buffer: vec![
            vec![[0.1f32; FFT_LENGTH_BY_2_PLUS_1]],
            vec![[0.3f32; FFT_LENGTH_BY_2_PLUS_1]],
        ],
        write: 0,
        read: 0,
    };
    let mut reverb = [0.0f32; FFT_LENGTH_BY_2_PLUS_1];
    let mut power = [0.0f32; FFT_LENGTH_BY_2_PLUS_1];
    compute_avg_render_reverb(1.0, &buffer, 0, &functions(), &mut reverb, &mut power);
    assert_eq!(reverb[7], 0.3 * 0.5);
    assert_eq!(power[64], 0.1 + 0.3 * 0.5);
}
