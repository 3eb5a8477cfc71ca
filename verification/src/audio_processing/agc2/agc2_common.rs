//! Sizes and durations that the gain controller's parts share.
use vstd::prelude::*;

verus! {

pub const FRAME_DURATION_MS: usize = 10;

pub const SUB_FRAMES_IN_FRAME: usize = 20;

pub const MAXIMAL_NUMBER_OF_SAMPLES_PER_CHANNEL: usize = 480;

/// Number of milliseconds to wait to periodically reset the VAD.
pub const VAD_RESET_PERIOD_MS: usize = 1500;

/// Minimum number of adjacent speech frames with high confidence.
pub const ADJACENT_SPEECH_FRAMES_THRESHOLD: usize = 12;

pub const SATURATION_PROTECTOR_BUFFER_SIZE: usize = 4;

/// Number of interpolation points of the knee region of the limiter.
pub const INTERPOLATED_GAIN_CURVE_KNEE_POINTS: usize = 22;

/// Number of interpolation points beyond the knee region.
pub const INTERPOLATED_GAIN_CURVE_BEYOND_KNEE_POINTS: usize = 10;

pub const INTERPOLATED_GAIN_CURVE_TOTAL_POINTS: usize = 32;

} // verus!
