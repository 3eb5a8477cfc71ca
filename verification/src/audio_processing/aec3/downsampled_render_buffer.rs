//! Circular buffer of downsampled render samples.
use vstd::prelude::*;

verus! {

/// Samples, newest first from the read index on.
pub struct DownsampledRenderBuffer<T> {
    pub buffer: Vec<T>,
    pub write: usize,
    pub read: usize,
}

} // verus!
