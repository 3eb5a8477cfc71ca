//! The parts of the echo canceller configuration that steer decisions.
use vstd::prelude::*;

verus! {

/// Number of times a lag must be seen before a delay is reported.
#[derive(Debug, Clone, Copy, PartialEq, Eq, Structural)]
pub struct DelaySelectionThresholds {
    /// Count above which a first, coarse delay is reported.
    pub initial: i32,
    /// Count above which a delay is reported as refined.
    pub converged: i32,
}

/// Delay estimation parameters.
#[derive(Debug, Clone, Copy, PartialEq, Eq, Structural)]
pub struct Delay {
    pub default_delay: usize,
    pub down_sampling_factor: usize,
    pub num_filters: usize,
    pub delay_headroom_samples: usize,
    pub fixed_capture_delay_samples: usize,
    pub delay_selection_thresholds: DelaySelectionThresholds,
    pub detect_pre_echo: bool,
}

/// Linear filter parameters.
#[derive(Debug, Clone, Copy, PartialEq, Eq, Structural)]
pub struct Filter {
    pub conservative_initial_phase: bool,
    pub use_linear_filter: bool,
    pub export_linear_aec_output: bool,
    /// Length of the initial phase, in blocks, when it is not conservative.
    pub initial_state_blocks: usize,
}

/// Handling of several render channels.
#[derive(Debug, Clone, Copy, PartialEq, Eq, Structural)]
pub struct MultiChannel {
    pub detect_stereo_content: bool,
    pub stereo_detection_timeout_threshold_seconds: i32,
}

/// Strength of the echo path.
#[derive(Debug, Clone, Copy, PartialEq, Eq, Structural)]
pub struct EpStrength {
    pub bounded_erl: bool,
}

/// Use of the audibility of the echo.
#[derive(Debug, Clone, Copy, PartialEq, Eq, Structural)]
pub struct EchoAudibility {
    pub use_stationarity_properties: bool,
}

/// Properties of the echo path that the removal may rely on.
#[derive(Debug, Clone, Copy, PartialEq, Eq, Structural)]
pub struct EchoRemovalControl {
    pub linear_and_stable_echo_path: bool,
}

/// Detection of captures that hold no echo.
#[derive(Debug, Clone, Copy, PartialEq, Eq, Structural)]
pub struct TransparentModeConfig {
    pub enabled: bool,
    pub use_hmm: bool,
}

/// Configuration of the echo canceller.
#[derive(Debug, Clone, Copy, PartialEq, Eq, Structural)]
pub struct EchoCanceller3Config {
    pub delay: Delay,
    pub filter: Filter,
    pub multi_channel: MultiChannel,
    pub ep_strength: EpStrength,
    pub echo_audibility: EchoAudibility,
    pub echo_removal_control: EchoRemovalControl,
    pub transparent_mode: TransparentModeConfig,
}

impl Default for EchoCanceller3Config {
    fn default() -> (config: Self)
        ensures
            config == (EchoCanceller3Config {
                delay: Delay {
                    default_delay: 5,
                    down_sampling_factor: 4,
                    num_filters: 5,
                    delay_headroom_samples: 32,
                    fixed_capture_delay_samples: 0,
                    delay_selection_thresholds: DelaySelectionThresholds {
                        initial: 5,
                        converged: 20,
                    },
                    detect_pre_echo: true,
                },
                filter: Filter {
                    conservative_initial_phase: false,
                    use_linear_filter: true,
                    export_linear_aec_output: false,
                    initial_state_blocks: 625,
                },
                multi_channel: MultiChannel {
                    detect_stereo_content: true,
                    stereo_detection_timeout_threshold_seconds: 300,
                },
                ep_strength: EpStrength { bounded_erl: false },
                echo_audibility: EchoAudibility { use_stationarity_properties: false },
                echo_removal_control: EchoRemovalControl { linear_and_stable_echo_path: false },
                transparent_mode: TransparentModeConfig { enabled: true, use_hmm: false },
            }),
    {
        EchoCanceller3Config {
            delay: Delay {
                default_delay: 5,
                down_sampling_factor: 4,
                num_filters: 5,
                delay_headroom_samples: 32,
                fixed_capture_delay_samples: 0,
                delay_selection_thresholds: DelaySelectionThresholds { initial: 5, converged: 20 },
                detect_pre_echo: true,
            },
            filter: Filter {
                conservative_initial_phase: false,
                use_linear_filter: true,
                export_linear_aec_output: false,
                initial_state_blocks: 625,
            },
            multi_channel: MultiChannel {
                detect_stereo_content: true,
                stereo_detection_timeout_threshold_seconds: 300,
            },
            ep_strength: EpStrength { bounded_erl: false },
            echo_audibility: EchoAudibility { use_stationarity_properties: false },
            echo_removal_control: EchoRemovalControl { linear_and_stable_echo_path: false },
            transparent_mode: TransparentModeConfig { enabled: true, use_hmm: false },
        }
    }
}

} // verus!
