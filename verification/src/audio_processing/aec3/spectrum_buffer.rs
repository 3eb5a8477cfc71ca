//! Circular buffer of spectra.
use crate::audio_processing::aec3::aec3_common::FFT_LENGTH_BY_2_PLUS_1;
use crate::audio_processing::aec3::circular_index::{
    dec, inc, next_index, offset_by, previous_index, shifted_index,
};
use crate::audio_processing::arithmetic::Real;
use vstd::prelude::*;

verus! {

/// Power spectra by block and channel, with read/write indices.
pub struct SpectrumBuffer<T: Real> {
    pub buffer: Vec<Vec<[T; FFT_LENGTH_BY_2_PLUS_1]>>,
    pub write: usize,
    pub read: usize,
}

impl<T: Real> SpectrumBuffer<T> {
    pub open spec fn inv(&self) -> bool {
        &&& self.buffer@.len() > 0
        &&& self.read < self.buffer@.len()
        &&& self.write < self.buffer@.len()
        &&& self.buffer@[0]@.len() > 0
        &&& forall|i: int|
            0 <= i < self.buffer@.len() ==> (#[trigger] self.buffer@[i])@.len()
                == self.buffer@[0]@.len()
    }

    pub fn inc_index(&self, index: usize) -> (result: usize)
        requires
            index < usize::MAX,
        ensures
            result == next_index(self.buffer@.len() as int, index as int),
    {
        inc(self.buffer.len(), index)
    }

    pub fn dec_index(&self, index: usize) -> (result: usize)
        requires
            self.inv(),
        ensures
            result == previous_index(self.buffer@.len() as int, index as int),
    {
        dec(self.buffer.len(), index)
    }

    pub fn offset_index(&self, index: usize, offset: isize) -> (result: usize)
        requires
            self.inv(),
            -self.buffer@.len() <= offset <= self.buffer@.len(),
        ensures
            result == shifted_index(self.buffer@.len() as int, index as int, offset as int),
            result < self.buffer@.len(),
    {
        offset_by(self.buffer.len(), index, offset)
    }
}

} // verus!
