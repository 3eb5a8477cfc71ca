//! Vector operations, and the choice of an instruction set for them.
use crate::audio_processing::agc2::cpu_features::AvailableCpuFeatures;
use crate::audio_processing::arithmetic::{dot, is_functional, is_total, Real};
use vstd::prelude::*;

verus! {

/// An instruction set that vector operations can be written for.
#[derive(Debug, Copy, Clone, PartialEq, Eq, Structural)]
pub enum VectorBackend {
    Avx2,
    Sse2,
    Neon,
    Scalar,
}

/// Vector operations, with the instruction set that the available CPU features call for.
/// The operations are the same for every instruction set.
#[derive(Debug, Copy, Clone, PartialEq, Eq, Structural)]
pub struct VectorMath {
    cpu_features: AvailableCpuFeatures,
}

impl VectorMath {
    pub closed spec fn features(self) -> AvailableCpuFeatures {
        self.cpu_features
    }

    pub fn new(cpu_features: AvailableCpuFeatures) -> (math: Self)
        ensures
            math.features() == cpu_features,
    {
        VectorMath { cpu_features }
    }

    /// The implementation to use: the widest available one.
    pub fn backend(&self) -> (backend: VectorBackend)
        ensures
            backend == (if self.features().avx2 {
                VectorBackend::Avx2
            } else if self.features().sse2 {
                VectorBackend::Sse2
            } else if self.features().neon {
                VectorBackend::Neon
            } else {
                VectorBackend::Scalar
            }),
    {
        if self.cpu_features.avx2 {
            return VectorBackend::Avx2;
        }
        if self.cpu_features.sse2 {
            return VectorBackend::Sse2;
        }
        if self.cpu_features.neon {
            return VectorBackend::Neon;
        }
        VectorBackend::Scalar
    }

    /// The sum of the products, added up in order whatever the instruction set is.
    pub fn dot_product<T: Real>(&self, x: &[T], y: &[T]) -> (product: T)
        requires
            is_total::<T>(),
            x@.len() == y@.len(),
        ensures
            is_functional::<T>() ==> product == dot(x@, y@, x@.len() as int),
    {
        crate::audio_processing::arithmetic::dot_product(x, y)
    }
}

} // verus!
