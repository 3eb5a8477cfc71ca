//! Circular buffer of blocks.
use crate::audio_processing::aec3::aec3_common::BLOCK_SIZE;
use crate::audio_processing::aec3::block::Block;
use crate::audio_processing::aec3::circular_index::{
    dec, inc, next_index, offset_by, previous_index, shifted_index,
};
use crate::audio_processing::arithmetic::{is_functional, is_total, zero_of, Real};
use vstd::prelude::*;

verus! {

/// Bundles a circular buffer of multi-band, multi-channel blocks together with
/// read/write indices.
pub struct BlockBuffer<T: Real> {
    pub size: usize,
    pub buffer: Vec<Block<T>>,
    pub write: usize,
    pub read: usize,
}

impl<T: Real> BlockBuffer<T> {
    pub open spec fn inv(&self) -> bool {
        &&& self.size > 0
        &&& self.buffer@.len() == self.size
        &&& self.write < self.size
        &&& self.read < self.size
    }

    pub open spec fn len(&self) -> int {
        self.size as int
    }

    pub fn new(size: usize, num_bands: usize, num_channels: usize) -> (buffer: Self)
        requires
            is_total::<T>(),
            size > 0,
            num_bands > 0,
            num_channels > 0,
            num_bands * num_channels * BLOCK_SIZE <= usize::MAX,
        ensures
            buffer.inv(),
            buffer.len() == size,
            buffer.write == 0,
            buffer.read == 0,
            buffer.buffer@.len() == size,
            forall|i: int|
                0 <= i < size ==> {
                    &&& (#[trigger] buffer.buffer@[i]).inv()
                    &&& buffer.buffer@[i].bands() == num_bands
                    &&& buffer.buffer@[i].channels() == num_channels
                    &&& is_functional::<T>() ==> buffer.buffer@[i].is_filled_with(zero_of())
                },
    {
        let mut buffer: Vec<Block<T>> = Vec::new();
        let mut i: usize = 0;
        while i < size
            invariant
                is_total::<T>(),
                num_bands * num_channels * BLOCK_SIZE <= usize::MAX,
                i <= size,
                buffer@.len() == i,
                forall|k: int|
                    0 <= k < i ==> {
                        &&& (#[trigger] buffer@[k]).inv()
                        &&& buffer@[k].bands() == num_bands
                        &&& buffer@[k].channels() == num_channels
                        &&& is_functional::<T>() ==> buffer@[k].is_filled_with(zero_of())
                    },
            decreases size - i,
        {
            buffer.push(Block::new(num_bands, num_channels));
            i = i + 1;
        }
        BlockBuffer { size, buffer, write: 0, read: 0 }
    }

    pub fn size(&self) -> (size: usize)
        ensures
            size == self.len(),
    {
        self.size
    }

    pub fn inc_index(&self, index: usize) -> (result: usize)
        requires
            index < usize::MAX,
        ensures
            result == next_index(self.len(), index as int),
    {
        inc(self.size, index)
    }

    pub fn dec_index(&self, index: usize) -> (result: usize)
        requires
            self.inv(),
        ensures
            result == previous_index(self.len(), index as int),
    {
        dec(self.size, index)
    }

    pub fn offset_index(&self, index: usize, offset: isize) -> (result: usize)
        requires
            self.inv(),
            -self.len() <= offset <= self.len(),
        ensures
            result == shifted_index(self.len(), index as int, offset as int),
            result < self.len(),
    {
        offset_by(self.size, index, offset)
    }

    pub fn update_write_index(&mut self, offset: isize)
        requires
            old(self).inv(),
            -old(self).len() <= offset <= old(self).len(),
        ensures
            final(self).inv(),
            final(self).len() == old(self).len(),
            final(self).buffer == old(self).buffer,
            final(self).read == old(self).read,
            final(self).write == shifted_index(
                old(self).len(),
                old(self).write as int,
                offset as int,
            ),
    {
        self.write = self.offset_index(self.write, offset);
    }

    pub fn inc_write_index(&mut self)
        requires
            old(self).inv(),
        ensures
            final(self).inv(),
            final(self).len() == old(self).len(),
            final(self).buffer == old(self).buffer,
            final(self).read == old(self).read,
            final(self).write == next_index(old(self).len(), old(self).write as int),
    {
        self.write = self.inc_index(self.write);
    }

    pub fn dec_write_index(&mut self)
        requires
            old(self).inv(),
        ensures
            final(self).inv(),
            final(self).len() == old(self).len(),
            final(self).buffer == old(self).buffer,
            final(self).read == old(self).read,
            final(self).write == previous_index(old(self).len(), old(self).write as int),
    {
        self.write = self.dec_index(self.write);
    }

    pub fn update_read_index(&mut self, offset: isize)
        requires
            old(self).inv(),
            -old(self).len() <= offset <= old(self).len(),
        ensures
            final(self).inv(),
            final(self).len() == old(self).len(),
            final(self).buffer == old(self).buffer,
            final(self).write == old(self).write,
            final(self).read == shifted_index(
                old(self).len(),
                old(self).read as int,
                offset as int,
            ),
    {
        self.read = self.offset_index(self.read, offset);
    }

    pub fn inc_read_index(&mut self)
        requires
            old(self).inv(),
        ensures
            final(self).inv(),
            final(self).len() == old(self).len(),
            final(self).buffer == old(self).buffer,
            final(self).write == old(self).write,
            final(self).read == next_index(old(self).len(), old(self).read as int),
    {
        self.read = self.inc_index(self.read);
    }

    pub fn dec_read_index(&mut self)
        requires
            old(self).inv(),
        ensures
            final(self).inv(),
            final(self).len() == old(self).len(),
            final(self).buffer == old(self).buffer,
            final(self).write == old(self).write,
            final(self).read == previous_index(old(self).len(), old(self).read as int),
    {
        self.read = self.dec_index(self.read);
    }
}

} // verus!
