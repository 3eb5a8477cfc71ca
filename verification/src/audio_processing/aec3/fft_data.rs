//! Spectra.
use crate::audio_processing::aec3::aec3_common::{
    Aec3Optimization, FFT_LENGTH, FFT_LENGTH_BY_2, FFT_LENGTH_BY_2_PLUS_1,
};
use crate::audio_processing::arithmetic::{
    is_functional, is_total, lemma_default_is_zero, plus, product, sum, times, zero, zero_of, Real,
};
use vstd::array::array_fill_for_copy_types;
use vstd::prelude::*;

verus! {

/// Holds the positive-frequency bins (including DC and Nyquist) for a
/// 128-point real-valued FFT.
#[derive(Clone, Copy, Debug)]
pub struct FftData<T: Real> {
    pub re: [T; FFT_LENGTH_BY_2_PLUS_1],
    pub im: [T; FFT_LENGTH_BY_2_PLUS_1],
}

/// A spectrum of a real signal as an array: the real parts of the first and the last
/// bin, which have no imaginary parts, then real and imaginary parts in turn.
pub open spec fn packed<T: Real>(data: FftData<T>) -> Seq<T> {
    Seq::new(
        FFT_LENGTH as nat,
        |i: int|
            if i == 1 {
                data.re@[FFT_LENGTH_BY_2 as int]
            } else if i % 2 == 0 {
                data.re@[i / 2]
            } else {
                data.im@[i / 2]
            },
    )
}

/// Whether the first and the last bin have no imaginary parts.
pub open spec fn is_real_signal<T: Real>(data: FftData<T>) -> bool {
    data.im@[0] == zero_of::<T>() && data.im@[FFT_LENGTH_BY_2 as int] == zero_of::<T>()
}

/// Whether every part of the spectrum is zero.
pub open spec fn is_zero<T: Real>(data: FftData<T>) -> bool {
    forall|k: int|
        0 <= k < FFT_LENGTH_BY_2_PLUS_1 ==> #[trigger] data.re@[k] == zero_of::<T>()
            && data.im@[k] == zero_of::<T>()
}

impl<T: Real> Default for FftData<T> {
    fn default() -> (data: Self)
        ensures
            is_functional::<T>() ==> is_zero(data),
    {
        let nothing = T::default();
        proof {
            if is_functional::<T>() {
                lemma_default_is_zero(nothing);
            }
        }
        FftData {
            re: array_fill_for_copy_types(nothing),
            im: array_fill_for_copy_types(nothing),
        }
    }
}

impl<T: Real> FftData<T> {
    pub fn new() -> (data: Self)
        requires
            is_total::<T>(),
        ensures
            is_functional::<T>() ==> is_zero(data),
    {
        FftData { re: array_fill_for_copy_types(zero()), im: array_fill_for_copy_types(zero()) }
    }

    /// Copies a spectrum of a real signal.
    pub fn assign(&mut self, src: &FftData<T>)
        requires
            is_total::<T>(),
        ensures
            final(self).re == src.re,
            forall|k: int|
                1 <= k < FFT_LENGTH_BY_2 ==> #[trigger] final(self).im@[k] == src.im@[k],
            is_functional::<T>() ==> is_real_signal(*final(self)),
    {
        self.re = src.re;
        self.im = src.im;
        self.im[0] = zero();
        self.im[FFT_LENGTH_BY_2] = zero();
    }

    pub fn clear(&mut self)
        requires
            is_total::<T>(),
        ensures
            is_functional::<T>() ==> is_zero(*final(self)),
    {
        self.re = array_fill_for_copy_types(zero());
        self.im = array_fill_for_copy_types(zero());
    }

    /// The power in each bin; the same with every optimization.
    pub fn spectrum(&self, _optimization: Aec3Optimization, power_spectrum: &mut [T])
        requires
            is_total::<T>(),
            old(power_spectrum)@.len() == FFT_LENGTH_BY_2_PLUS_1,
        ensures
            final(power_spectrum)@.len() == FFT_LENGTH_BY_2_PLUS_1,
            is_functional::<T>() ==> forall|k: int|
                0 <= k < FFT_LENGTH_BY_2_PLUS_1 ==> #[trigger] final(power_spectrum)@[k] == plus(
                    times(self.re@[k], self.re@[k]),
                    times(self.im@[k], self.im@[k]),
                ),
    {
        let mut k: usize = 0;
        while k < FFT_LENGTH_BY_2_PLUS_1
            invariant
                is_total::<T>(),
                k <= FFT_LENGTH_BY_2_PLUS_1,
                power_spectrum@.len() == FFT_LENGTH_BY_2_PLUS_1,
                is_functional::<T>() ==> forall|j: int|
                    0 <= j < k ==> #[trigger] power_spectrum@[j] == plus(
                        times(self.re@[j], self.re@[j]),
                        times(self.im@[j], self.im@[j]),
                    ),
            decreases FFT_LENGTH_BY_2_PLUS_1 - k,
        {
            let power = sum(product(self.re[k], self.re[k]), product(self.im[k], self.im[k]));
            power_spectrum[k] = power;
            k = k + 1;
        }
    }

    /// Takes the spectrum out of its array.
    pub fn copy_from_packed_array(&mut self, source: &[T; FFT_LENGTH])
        requires
            is_total::<T>(),
        ensures
            packed(*final(self)) == source@,
            is_functional::<T>() ==> is_real_signal(*final(self)),
    {
        self.re[0] = source[0];
        self.re[FFT_LENGTH_BY_2] = source[1];
        self.im[0] = zero();
        self.im[FFT_LENGTH_BY_2] = zero();
        let mut k: usize = 1;
        while k < FFT_LENGTH_BY_2
            invariant
                1 <= k <= FFT_LENGTH_BY_2,
                self.re@[0] == source@[0],
                self.re@[FFT_LENGTH_BY_2 as int] == source@[1],
                is_functional::<T>() ==> is_real_signal(*self),
                forall|j: int| 1 <= j < k ==> #[trigger] self.re@[j] == source@[2 * j],
                forall|j: int| 1 <= j < k ==> #[trigger] self.im@[j] == source@[2 * j + 1],
            decreases FFT_LENGTH_BY_2 - k,
        {
            self.re[k] = source[2 * k];
            self.im[k] = source[2 * k + 1];
            k = k + 1;
        }
        assert forall|i: int| 0 <= i < FFT_LENGTH implies packed(*self)[i] == source@[i] by {
            let half = i / 2;
            assert(i == 2 * half || i == 2 * half + 1);
            if half >= 1 {
                assert(self.re@[half] == source@[2 * half]);
                assert(self.im@[half] == source@[2 * half + 1]);
            }
        }
        assert(packed(*self) =~= source@);
    }

    /// Puts the spectrum into an array.
    pub fn copy_to_packed_array(&self, target: &mut [T; FFT_LENGTH])
        ensures
            final(target)@ == packed(*self),
    {
        target[0] = self.re[0];
        target[1] = self.re[FFT_LENGTH_BY_2];
        let mut k: usize = 1;
        while k < FFT_LENGTH_BY_2
            invariant
                1 <= k <= FFT_LENGTH_BY_2,
                forall|i: int| 0 <= i < 2 * k ==> #[trigger] target@[i] == packed(*self)[i],
            decreases FFT_LENGTH_BY_2 - k,
        {
            target[2 * k] = self.re[k];
            target[2 * k + 1] = self.im[k];
            k = k + 1;
        }
        assert(target@ =~= packed(*self));
    }
}

/// Two spectra of real signals with the same array are the same, bin by bin.
pub proof fn law_packing_loses_nothing<T: Real>(a: FftData<T>, b: FftData<T>, k: int)
    requires
        is_real_signal(a),
        is_real_signal(b),
        packed(a) == packed(b),
        0 <= k < FFT_LENGTH_BY_2_PLUS_1,
    ensures
        a.re@[k] == b.re@[k],
        a.im@[k] == b.im@[k],
{
    if k == FFT_LENGTH_BY_2 {
        assert(packed(a)[1] == a.re@[k] && packed(b)[1] == b.re@[k]);
    } else if k == 0 {
        assert(0int / 2 == 0 && 0int % 2 == 0);
        assert(packed(a)[0] == a.re@[0] && packed(b)[0] == b.re@[0]);
    } else {
        let even = 2 * k;
        let odd = 2 * k + 1;
        assert(even / 2 == k && even % 2 == 0 && odd / 2 == k && odd % 2 == 1);
        assert(packed(a)[even] == a.re@[k] && packed(b)[even] == b.re@[k]);
        assert(packed(a)[odd] == a.im@[k] && packed(b)[odd] == b.im@[k]);
    }
}

} // verus!
