//! Arithmetic on vectors.
use crate::audio_processing::aec3::aec3_common::Aec3Optimization;
use crate::audio_processing::arithmetic::{
    apply, image, is_functional, is_mapping, is_total, plus, product, sum, times, Real,
};
use vstd::prelude::*;

verus! {

/// Element-wise operations; the same with every optimization.
#[derive(Debug, Copy, Clone, PartialEq, Eq, Structural)]
pub struct VectorMath {
    pub optimization: Aec3Optimization,
}

impl VectorMath {
    pub fn new(optimization: Aec3Optimization) -> (math: Self)
        ensures
            math.optimization == optimization,
    {
        VectorMath { optimization }
    }

    /// Replaces each value by its square root, which `root` gives.
    pub fn sqrt<T: Real, R: Fn(T) -> T>(&self, x: &mut [T], root: &R)
        requires
            forall|a: T| call_requires(root, (a,)),
        ensures
            final(x)@.len() == old(x)@.len(),
            is_mapping(*root) ==> forall|i: int|
                0 <= i < old(x)@.len() ==> #[trigger] final(x)@[i] == image(*root, old(x)@[i]),
    {
        let mut i: usize = 0;
        while i < x.len()
            invariant
                forall|a: T| call_requires(root, (a,)),
                i <= x@.len() == old(x)@.len(),
                forall|k: int| i <= k < x@.len() ==> x@[k] == old(x)@[k],
                is_mapping(*root) ==> forall|k: int|
                    0 <= k < i ==> #[trigger] x@[k] == image(*root, old(x)@[k]),
            decreases x@.len() - i,
        {
            let value = apply(root, x[i]);
            x[i] = value;
            i = i + 1;
        }
    }

    /// z = x * y.
    pub fn multiply<T: Real>(&self, x: &[T], y: &[T], z: &mut [T])
        requires
            is_total::<T>(),
            x@.len() == y@.len() == old(z)@.len(),
        ensures
            final(z)@.len() == old(z)@.len(),
            is_functional::<T>() ==> forall|i: int|
                0 <= i < x@.len() ==> #[trigger] final(z)@[i] == times(x@[i], y@[i]),
    {
        let mut i: usize = 0;
        while i < x.len()
            invariant
                is_total::<T>(),
                i <= x@.len() == y@.len() == z@.len(),
                is_functional::<T>() ==> forall|k: int|
                    0 <= k < i ==> #[trigger] z@[k] == times(x@[k], y@[k]),
            decreases x@.len() - i,
        {
            let value = product(x[i], y[i]);
            z[i] = value;
            i = i + 1;
        }
    }

    /// z += x.
    pub fn accumulate<T: Real>(&self, x: &[T], z: &mut [T])
        requires
            is_total::<T>(),
            x@.len() == old(z)@.len(),
        ensures
            final(z)@.len() == old(z)@.len(),
            is_functional::<T>() ==> forall|i: int|
                0 <= i < x@.len() ==> #[trigger] final(z)@[i] == plus(old(z)@[i], x@[i]),
    {
        let mut i: usize = 0;
        while i < x.len()
            invariant
                is_total::<T>(),
                i <= x@.len() == z@.len() == old(z)@.len(),
                forall|k: int| i <= k < z@.len() ==> z@[k] == old(z)@[k],
                is_functional::<T>() ==> forall|k: int|
                    0 <= k < i ==> #[trigger] z@[k] == plus(old(z)@[k], x@[k]),
            decreases x@.len() - i,
        {
            let value = sum(z[i], x[i]);
            z[i] = value;
            i = i + 1;
        }
    }
}

} // verus!
