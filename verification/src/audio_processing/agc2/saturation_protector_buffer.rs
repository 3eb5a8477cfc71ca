//! Ring buffer for the saturation protector.
use crate::audio_processing::agc2::agc2_common::SATURATION_PROTECTOR_BUFFER_SIZE;
use crate::audio_processing::arithmetic::{is_total, zero, Real};
use vstd::array::array_fill_for_copy_types;
use vstd::prelude::*;

verus! {

/// Holds the most recently pushed values.
#[derive(Debug, Clone, Copy)]
pub struct SaturationProtectorBuffer<T: Real> {
    buffer: [T; SATURATION_PROTECTOR_BUFFER_SIZE],
    /// Where the next value goes.
    next: usize,
    size: usize,
}

impl<T: Real> SaturationProtectorBuffer<T> {
    pub closed spec fn inv(&self) -> bool {
        &&& self.next < SATURATION_PROTECTOR_BUFFER_SIZE
        &&& self.size <= SATURATION_PROTECTOR_BUFFER_SIZE
        &&& self.size < SATURATION_PROTECTOR_BUFFER_SIZE ==> self.next == self.size
    }

    /// The values, the oldest one first.
    pub closed spec fn view(&self) -> Seq<T> {
        Seq::new(
            self.size as nat,
            |i: int|
                self.buffer@[if self.size < SATURATION_PROTECTOR_BUFFER_SIZE {
                    i
                } else {
                    (self.next + i) % (SATURATION_PROTECTOR_BUFFER_SIZE as int)
                }],
        )
    }

    pub fn new() -> (buffer: Self)
        requires
            is_total::<T>(),
        ensures
            buffer.inv(),
            buffer@ == Seq::<T>::empty(),
    {
        let buffer = SaturationProtectorBuffer {
            buffer: array_fill_for_copy_types(zero()),
            next: 0,
            size: 0,
        };
        assert(buffer@ =~= Seq::<T>::empty());
        buffer
    }

    pub fn reset(&mut self)
        ensures
            final(self).inv(),
            final(self)@ == Seq::<T>::empty(),
    {
        self.next = 0;
        self.size = 0;
        assert(self@ =~= Seq::<T>::empty());
    }

    pub fn size(&self) -> (size: usize)
        requires
            self.inv(),
        ensures
            size == self@.len(),
            size <= SATURATION_PROTECTOR_BUFFER_SIZE,
    {
        self.size
    }

    /// Appends a value; a full buffer loses its oldest one.
    pub fn push_back(&mut self, v: T)
        requires
            old(self).inv(),
        ensures
            final(self).inv(),
            final(self)@ == (if old(self)@.len() == SATURATION_PROTECTOR_BUFFER_SIZE {
                old(self)@.skip(1).push(v)
            } else {
                old(self)@.push(v)
            }),
    {
        let ghost before = self@;
        self.buffer[self.next] = v;
        self.next = self.next + 1;
        if self.next == SATURATION_PROTECTOR_BUFFER_SIZE {
            self.next = 0;
        }
        if self.size < SATURATION_PROTECTOR_BUFFER_SIZE {
            self.size = self.size + 1;
            assert(self@ =~= before.push(v));
        } else {
            assert(self@ =~= before.skip(1).push(v));
        }
    }

    /// The oldest value, if there is one.
    pub fn front(&self) -> (front: Option<T>)
        requires
            self.inv(),
        ensures
            front == (if self@.len() == 0 {
                None
            } else {
                Some(self@[0])
            }),
    {
        if self.size == 0 {
            return None;
        }
        if self.size < SATURATION_PROTECTOR_BUFFER_SIZE {
            Some(self.buffer[0])
        } else {
            Some(self.buffer[self.next])
        }
    }
}

} // verus!
