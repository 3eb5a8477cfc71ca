//! Selection between the mono and the multichannel configuration.
use crate::api::config::EchoCanceller3Config;
use vstd::prelude::*;

verus! {

/// The fields in which a mono and a multichannel configuration must agree.
pub open spec fn compatible(mono: EchoCanceller3Config, multichannel: EchoCanceller3Config) -> bool {
    &&& mono.delay.fixed_capture_delay_samples == multichannel.delay.fixed_capture_delay_samples
    &&& mono.filter.export_linear_aec_output == multichannel.filter.export_linear_aec_output
    &&& mono.multi_channel == multichannel.multi_channel
}

/// Validates that the mono and the multichannel configs have compatible fields.
pub fn compatible_configs(
    mono_config: &EchoCanceller3Config,
    multichannel_config: &EchoCanceller3Config,
) -> (result: bool)
    ensures
        result == compatible(*mono_config, *multichannel_config),
{
    if mono_config.delay.fixed_capture_delay_samples
        != multichannel_config.delay.fixed_capture_delay_samples {
        return false;
    }
    if mono_config.filter.export_linear_aec_output
        != multichannel_config.filter.export_linear_aec_output {
        return false;
    }
    if mono_config.multi_channel.detect_stereo_content
        != multichannel_config.multi_channel.detect_stereo_content {
        return false;
    }
    if mono_config.multi_channel.stereo_detection_timeout_threshold_seconds
        != multichannel_config.multi_channel.stereo_detection_timeout_threshold_seconds {
        return false;
    }
    true
}

/// A configuration that can be selected: it holds the settings that the selection is
/// made by, and may hold more.
pub trait Configuration {
    spec fn steering(&self) -> EchoCanceller3Config;

    fn settings(&self) -> (settings: &EchoCanceller3Config)
        ensures
            *settings == self.steering(),
    ;
}

impl Configuration for EchoCanceller3Config {
    open spec fn steering(&self) -> EchoCanceller3Config {
        *self
    }

    fn settings(&self) -> (settings: &EchoCanceller3Config) {
        self
    }
}

/// The settings with whatever else belongs to a configuration.
impl<P> Configuration for (EchoCanceller3Config, P) {
    open spec fn steering(&self) -> EchoCanceller3Config {
        self.0
    }

    fn settings(&self) -> (settings: &EchoCanceller3Config) {
        &self.0
    }
}

/// Selects the config to use.
pub struct ConfigSelector<C: Configuration> {
    config: C,
    multichannel_config: Option<C>,
    multichannel_config_active: bool,
}

impl<C: Configuration> ConfigSelector<C> {
    /// The multichannel config can only be active when there is one.
    #[verifier::type_invariant]
    closed spec fn inv(self) -> bool {
        self.multichannel_config_active ==> self.multichannel_config is Some
    }

    pub closed spec fn mono(self) -> C {
        self.config
    }

    pub closed spec fn multichannel(self) -> Option<C> {
        self.multichannel_config
    }

    /// The config in use.
    pub closed spec fn active(self) -> C {
        if self.multichannel_config_active {
            self.multichannel_config->0
        } else {
            self.config
        }
    }

    /// Without multichannel content, or without a config for it, the mono one is selected;
    /// with both, the multichannel one.
    pub proof fn law_selection(self)
        ensures
            self.selected(false) == self.mono(),
            self.multichannel() is None ==> self.selected(true) == self.mono(),
            self.multichannel() matches Some(config) ==> self.selected(true) == config,
    {
    }

    /// The config that multichannel content, or its absence, calls for: the
    /// multichannel one only for multichannel content, and only if there is one.
    pub open spec fn selected(self, multichannel_content: bool) -> C {
        if multichannel_content && self.multichannel() is Some {
            self.multichannel()->0
        } else {
            self.mono()
        }
    }

    pub fn new(
        config: C,
        multichannel_config: Option<C>,
        num_render_input_channels: usize,
    ) -> (selector: Self)
        requires
            multichannel_config matches Some(m) ==> compatible(config.steering(), m.steering()),
        ensures
            selector.mono() == config,
            selector.multichannel() == multichannel_config,
            selector.active() == selector.selected(
                !config.steering().multi_channel.detect_stereo_content && num_render_input_channels
                    > 1,
            ),
    {
        let initial_multichannel_content = !config.settings().multi_channel.detect_stereo_content
            && num_render_input_channels > 1;
        let mut selector = ConfigSelector {
            config,
            multichannel_config,
            multichannel_config_active: false,
        };
        selector.update(initial_multichannel_content);
        selector
    }

    /// Updates the config selection based on the detection of multichannel
    /// content.
    pub fn update(&mut self, multichannel_content: bool)
        ensures
            final(self).mono() == old(self).mono(),
            final(self).multichannel() == old(self).multichannel(),
            final(self).active() == old(self).selected(multichannel_content),
    {
        self.multichannel_config_active = multichannel_content
            && self.multichannel_config.is_some();
    }

    pub fn active_config(&self) -> (config: &C)
        ensures
            *config == self.active(),
    {
        proof {
            use_type_invariant(self);
        }
        if self.multichannel_config_active {
            self.multichannel_config.as_ref().unwrap()
        } else {
            &self.config
        }
    }
}

} // verus!
