use aec3::api::config::EchoCanceller3Config;
use aec3::audio_processing::aec3::config_selector::ConfigSelector;

const CHANNEL_COUNTS: [usize; 3] = [1, 2, 8];

#[test]
fn mono_config_is_selected_when_no_multi_channel_config_present() {
    for num_channels in CHANNEL_COUNTS {
        for detect_stereo_content in [false, true] {
            let mut config = EchoCanceller3Config::default();
            config.multi_channel.detect_stereo_content = detect_stereo_content;
            let multichannel_config: Option<EchoCanceller3Config> = None;

            config.delay.default_delay += 1;
            let custom_delay_value_in_config = config.delay.default_delay;

            let mut cs = ConfigSelector::new(config, multichannel_config, num_channels);
            assert_eq!(
                cs.active_config().delay.default_delay,
                custom_delay_value_in_config
            );

            cs.update(false);
            assert_eq!(
                cs.active_config().delay.default_delay,
                custom_delay_value_in_config
            );

            cs.update(true);
            assert_eq!(
                cs.active_config().delay.default_delay,
                custom_delay_value_in_config
            );
        }
    }
}

#[test]
fn correct_initial_config_is_selected() {
    for num_channels in CHANNEL_COUNTS {
        for detect_stereo_content in [false, true] {
            let mut config = EchoCanceller3Config::default();
            config.multi_channel.detect_stereo_content = detect_stereo_content;
            let mut multichannel_config = config.clone();

            config.delay.default_delay += 1;
            let custom_delay_value_in_config = config.delay.default_delay;
            multichannel_config.delay.default_delay += 2;
            let custom_delay_value_in_multichannel_config =
                multichannel_config.delay.default_delay;

            let cs = ConfigSelector::new(config, Some(multichannel_config), num_channels);

            if num_channels == 1 || detect_stereo_content {
                assert_eq!(
                    cs.active_config().delay.default_delay,
                    custom_delay_value_in_config
                );
            } else {
                assert_eq!(
                    cs.active_config().delay.default_delay,
                    custom_delay_value_in_multichannel_config
                );
            }
        }
    }
}

#[test]
fn correct_config_update_behavior() {
    for num_channels in CHANNEL_COUNTS {
        let mut config = EchoCanceller3Config::default();
        config.multi_channel.detect_stereo_content = true;
        let mut multichannel_config = config.clone();

        config.delay.default_delay += 1;
        let custom_delay_value_in_config = config.delay.default_delay;
        multichannel_config.delay.default_delay += 2;
        let custom_delay_value_in_multichannel_config = multichannel_config.delay.default_delay;

        let mut cs = ConfigSelector::new(config, Some(multichannel_config), num_channels);

        cs.update(false);
        assert_eq!(
            cs.active_config().delay.default_delay,
            custom_delay_value_in_config
        );

        if num_channels == 1 {
            cs.update(false);
            assert_eq!(
                cs.active_config().delay.default_delay,
                custom_delay_value_in_config
            );
        } else {
            cs.update(true);
            assert_eq!(
                cs.active_config().delay.default_delay,
                custom_delay_value_in_multichannel_config
            );
        }
    }
}

#[test]
fn whole_configurations_are_selected() {
    let mut config = EchoCanceller3Config::default();
    config.multi_channel.detect_stereo_content = true;
    let mut selector = ConfigSelector::new((config, 0.25f32), Some((config, 0.75f32)), 2);
    assert_eq!(selector.active_config().1, 0.25);
    selector.update(true);
    assert_eq!(selector.active_config().1, 0.75);
    selector.update(false);
    assert_eq!(selector.active_config().1, 0.25);
}
