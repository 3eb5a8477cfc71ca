//! A delay and how far it can be trusted.
use vstd::prelude::*;

verus! {

#[derive(Debug, Clone, Copy, PartialEq, Eq, Structural)]
pub enum DelayEstimateQuality {
    Coarse,
    Refined,
}

/// An estimate of the delay of the echo path.
#[derive(Debug, Clone, Copy, PartialEq, Eq, Structural)]
pub struct DelayEstimate {
    pub quality: DelayEstimateQuality,
    pub delay: usize,
    pub blocks_since_last_change: usize,
    pub blocks_since_last_update: usize,
}

impl DelayEstimate {
    pub fn new(quality: DelayEstimateQuality, delay: usize) -> (estimate: Self)
        ensures
            estimate.quality == quality,
            estimate.delay == delay,
            estimate.blocks_since_last_change == 0,
            estimate.blocks_since_last_update == 0,
    {
        DelayEstimate {
            quality,
            delay,
            blocks_since_last_change: 0,
            blocks_since_last_update: 0,
        }
    }
}

} // verus!
