//! Changes of the echo path.
use vstd::prelude::*;

verus! {

#[derive(Debug, Clone, Copy, PartialEq, Eq, Structural)]
pub enum DelayAdjustment {
    Unchanged,
    BufferReadjustment,
    NewDetectedDelay,
}

/// What is known to have changed in the echo path.
#[derive(Debug, Clone, Copy, PartialEq, Eq, Structural)]
pub struct EchoPathVariability {
    pub gain_change: bool,
    pub delay_change: DelayAdjustment,
    pub clock_drift: bool,
}

impl EchoPathVariability {
    pub fn new(gain_change: bool, delay_change: DelayAdjustment, clock_drift: bool) -> (variability:
        Self)
        ensures
            variability == (EchoPathVariability { gain_change, delay_change, clock_drift }),
    {
        EchoPathVariability { gain_change, delay_change, clock_drift }
    }
}

} // verus!
