//! Constants shared by the echo canceller modules.
use vstd::prelude::*;

verus! {

pub const NUM_BLOCKS_PER_SECOND: usize = 250;

pub const BLOCK_SIZE_LOG2: usize = 6;

pub const BLOCK_SIZE: usize = 64;

pub const FFT_LENGTH_BY_2: usize = 64;

pub const FFT_LENGTH_BY_2_PLUS_1: usize = 65;

pub const FFT_LENGTH: usize = 128;

pub const SUB_FRAME_LENGTH: usize = 80;

/// Length of a matched filter, in sub-blocks.
pub const MATCHED_FILTER_WINDOW_SIZE_SUB_BLOCKS: usize = 32;

/// Shift between neighbouring matched filters, in sub-blocks.
pub const MATCHED_FILTER_ALIGNMENT_SHIFT_SIZE_SUB_BLOCKS: usize = 24;

/// The instructions that the arithmetic on vectors may use. Its results do not depend
/// on them.
#[derive(Debug, Clone, Copy, PartialEq, Eq, Structural)]
pub enum Aec3Optimization {
    Scalar,
    Sse2,
    Avx2,
    Neon,
}

} // verus!
