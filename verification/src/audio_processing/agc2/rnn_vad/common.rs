//! Shared constants of the voice activity detection.
use vstd::prelude::*;

verus! {

pub const SAMPLE_RATE_24_KHZ: usize = 24_000;

pub const FRAME_SIZE_10_MS_24_KHZ: usize = 240;

pub const FRAME_SIZE_20_MS_24_KHZ: usize = 480;

// Pitch buffer.
/// 0.00125 s.
pub const MIN_PITCH_24_KHZ: usize = 30;

/// 0.016 s.
pub const MAX_PITCH_24_KHZ: usize = 384;

pub const BUF_SIZE_24_KHZ: usize = 864;

// 24 kHz analysis.
pub const INITIAL_MIN_PITCH_24_KHZ: usize = 90;

pub const INITIAL_NUM_LAGS_24_KHZ: usize = 294;

pub const REFINE_NUM_LAGS_24_KHZ: usize = 385;

// 12 kHz analysis.
pub const SAMPLE_RATE_12_KHZ: usize = 12_000;

pub const FRAME_SIZE_10_MS_12_KHZ: usize = 120;

pub const FRAME_SIZE_20_MS_12_KHZ: usize = 240;

pub const BUF_SIZE_12_KHZ: usize = 432;

pub const INITIAL_MIN_PITCH_12_KHZ: usize = 45;

pub const MAX_PITCH_12_KHZ: usize = 192;

pub const NUM_LAGS_12_KHZ: usize = 147;

// 48 kHz constants.
pub const MIN_PITCH_48_KHZ: usize = 60;

pub const MAX_PITCH_48_KHZ: usize = 768;

// Spectral features.
pub const NUM_BANDS: usize = 22;

pub const NUM_LOWER_BANDS: usize = 6;

pub const CEPSTRAL_COEFFS_HISTORY_SIZE: usize = 8;

pub const FEATURE_VECTOR_SIZE: usize = 42;

/// How the sizes follow from the sample rates and the range of pitches.
pub proof fn law_sizes()
    ensures
        FRAME_SIZE_10_MS_24_KHZ == SAMPLE_RATE_24_KHZ / 100,
        FRAME_SIZE_20_MS_24_KHZ == 2 * FRAME_SIZE_10_MS_24_KHZ,
        MIN_PITCH_24_KHZ == SAMPLE_RATE_24_KHZ / 800,
        MAX_PITCH_24_KHZ == SAMPLE_RATE_24_KHZ / 125 * 2,
        BUF_SIZE_24_KHZ == MAX_PITCH_24_KHZ + FRAME_SIZE_20_MS_24_KHZ,
        INITIAL_MIN_PITCH_24_KHZ == 3 * MIN_PITCH_24_KHZ,
        INITIAL_NUM_LAGS_24_KHZ == MAX_PITCH_24_KHZ - INITIAL_MIN_PITCH_24_KHZ,
        REFINE_NUM_LAGS_24_KHZ == MAX_PITCH_24_KHZ + 1,
        FRAME_SIZE_10_MS_12_KHZ == SAMPLE_RATE_12_KHZ / 100,
        FRAME_SIZE_20_MS_12_KHZ == 2 * FRAME_SIZE_10_MS_12_KHZ,
        BUF_SIZE_12_KHZ == BUF_SIZE_24_KHZ / 2,
        INITIAL_MIN_PITCH_12_KHZ == INITIAL_MIN_PITCH_24_KHZ / 2,
        MAX_PITCH_12_KHZ == MAX_PITCH_24_KHZ / 2,
        NUM_LAGS_12_KHZ == MAX_PITCH_12_KHZ - INITIAL_MIN_PITCH_12_KHZ,
        MIN_PITCH_48_KHZ == 2 * MIN_PITCH_24_KHZ,
        MAX_PITCH_48_KHZ == 2 * MAX_PITCH_24_KHZ,
        BUF_SIZE_24_KHZ % 2 == 0,
        NUM_LOWER_BANDS < NUM_BANDS,
        CEPSTRAL_COEFFS_HISTORY_SIZE > 2,
{
}

} // verus!
