use aec3::audio_processing::agc2::gain_applier::{GainApplier, GainApplierParameters};

fn number(n: i32) -> f32 {
    n as f32
}

fn applier(hard_clip_samples: bool, initial_gain_factor: f32) -> GainApplier<f32> {
    GainApplier::new(
        hard_clip_samples,
        initial_gain_factor,
        GainApplierParameters {
            one: 1.0,
            min_sample: -32768.0,
            max_sample: 32767.0,
        },
    )
}

/// A frame of samples, channel by channel.
struct VectorFloatFrame {
    channels: Vec<Vec<f32>>,
}

impl VectorFloatFrame {
    fn new(num_channels: usize, samples_per_channel: usize, value: f32) -> Self {
        VectorFloatFrame {
            channels: vec![vec![value; samples_per_channel]; num_channels],
        }
    }

    fn view(&mut self) -> &mut [Vec<f32>] {
        &mut self.channels
    }

    fn view_const(&self) -> Vec<&[f32]> {
        self.channels.iter().map(Vec::as_slice).collect()
    }

    fn sample(&self, channel: usize, index: usize) -> f32 {
        self.channels[channel][index]
    }
}

#[test]
fn initial_gain_is_respected() {
    let initial_signal_level = 123.0f32;
    let gain_factor = 10.0f32;
    let mut fake_audio = VectorFloatFrame::new(1, 1, initial_signal_level);
    let mut gain_applier = applier(true, gain_factor);

    let mut fake_view = fake_audio.view();
    gain_applier.apply_gain(&mut fake_view, &number);
    assert!((fake_audio.sample(0, 0) - initial_signal_level * gain_factor).abs() < 0.1);
}

#[test]
fn clipping_is_done() {
    let initial_signal_level = 30000.0f32;
    let gain_factor = 10.0f32;
    let mut fake_audio = VectorFloatFrame::new(1, 1, initial_signal_level);
    let mut gain_applier = applier(true, gain_factor);

    let mut view = fake_audio.view();
    gain_applier.apply_gain(&mut view, &number);
    assert!((fake_audio.sample(0, 0) - i16::MAX as f32).abs() < 0.1);
}

#[test]
fn clipping_is_not_done() {
    let initial_signal_level = 30000.0f32;
    let gain_factor = 10.0f32;
    let mut fake_audio = VectorFloatFrame::new(1, 1, initial_signal_level);
    let mut gain_applier = applier(false, gain_factor);

    let mut view = fake_audio.view();
    gain_applier.apply_gain(&mut view, &number);
    assert!((fake_audio.sample(0, 0) - initial_signal_level * gain_factor).abs() < 0.1);
}

#[test]
fn ramping_is_done() {
    let initial_signal_level = 30000.0f32;
    let initial_gain_factor = 1.0f32;
    let target_gain_factor = 0.5f32;
    let num_channels = 3usize;
    let samples_per_channel = 4usize;
    let mut fake_audio =
        VectorFloatFrame::new(num_channels, samples_per_channel, initial_signal_level);
    let mut gain_applier = applier(false, initial_gain_factor);

    gain_applier.set_gain_factor(target_gain_factor);
    let mut view = fake_audio.view();
    gain_applier.apply_gain(&mut view, &number);

    for channel in 0..num_channels {
        let channel_view = fake_audio.view_const();
        let mut max_signal_change = 0.0f32;
        let mut last_signal_level = initial_signal_level;
        for &sample in channel_view[channel] {
            let current_change = (last_signal_level - sample).abs();
            max_signal_change = max_signal_change.max(current_change);
            last_signal_level = sample;
        }
        let total_gain_change =
            ((initial_gain_factor - target_gain_factor) * initial_signal_level).abs();
        assert!(
            (max_signal_change - total_gain_change / samples_per_channel as f32).abs() < 0.1
        );
    }

    let mut next_fake_audio_frame =
        VectorFloatFrame::new(num_channels, samples_per_channel, initial_signal_level);
    let mut next_view = next_fake_audio_frame.view();
    gain_applier.apply_gain(&mut next_view, &number);

    assert!(
        (next_fake_audio_frame.sample(0, 0) - initial_signal_level * target_gain_factor).abs()
            < 0.1
    );
}

#[test]
fn unit_gain_leaves_the_samples_alone() {
    let mut frame = VectorFloatFrame::new(2, 3, 1.5);
    let mut gain_applier = applier(false, 1.0);
    gain_applier.apply_gain(frame.view(), &number);
    assert_eq!(frame.view_const()[1], [1.5, 1.5, 1.5]);
    assert_eq!(gain_applier.get_gain_factor(), 1.0);
}

#[test]
fn gain_goes_linearly_to_its_target() {
    let mut frame = VectorFloatFrame::new(1, 4, 1.0);
    let mut gain_applier = applier(false, 1.0);
    gain_applier.set_gain_factor(3.0);
    gain_applier.apply_gain(frame.view(), &number);
    assert_eq!(frame.view_const()[0], [1.0, 1.5, 2.0, 2.5]);
    let mut frame = VectorFloatFrame::new(1, 4, 1.0);
    gain_applier.apply_gain(frame.view(), &number);
    assert_eq!(frame.view_const()[0], [3.0, 3.0, 3.0, 3.0]);
}
