//! Average render power with reverberation.
use crate::audio_processing::aec3::aec3_common::FFT_LENGTH_BY_2_PLUS_1;
use crate::audio_processing::aec3::circular_index::{next_index, shifted_index};
use crate::audio_processing::aec3::spectrum_buffer::SpectrumBuffer;
use crate::audio_processing::arithmetic::{
    apply, array_of, image, is_functional, is_mapping, is_total, lemma_array_of, over, plus,
    product, quotient, sum, times, zero, zero_of, Real,
};
use crate::audio_processing::ordered::{
    is_counting, is_exact, is_number, is_one, is_ordered, lemma_counting, lemma_exact,
    sums_keep_order,
};
use vstd::array::array_fill_for_copy_types;
use vstd::prelude::*;

verus! {

/// The functions that the average is computed with.
pub struct ReverbFunctions<N, U> {
    /// Gives the number for an integer.
    pub number: N,
    /// Gives the reverberation after one more block, from the reverberation before and
    /// the power of the block.
    pub update: U,
}

/// The power in a bin, summed over the first `n` channels.
pub open spec fn summed_power<T: Real>(
    channels: Seq<[T; FFT_LENGTH_BY_2_PLUS_1]>,
    k: int,
    n: int,
) -> T
    decreases n,
{
    if n <= 0 {
        zero_of()
    } else {
        plus(summed_power(channels, k, n - 1), channels[n - 1]@[k])
    }
}

/// The average power of the channels; of a single channel, its power.
pub open spec fn average_power<T: Real>(
    one: T,
    number: spec_fn(usize) -> T,
    channels: Seq<[T; FFT_LENGTH_BY_2_PLUS_1]>,
) -> Seq<T> {
    if channels.len() > 1 {
        Seq::new(
            FFT_LENGTH_BY_2_PLUS_1 as nat,
            |k: int|
                times(
                    summed_power(channels, k, channels.len() as int),
                    over(one, number(channels.len() as usize)),
                ),
        )
    } else {
        channels[0]@
    }
}

/// One more channel adds its power in each bin.
pub proof fn law_channels_add_up<T: Real>(
    channels: Seq<[T; FFT_LENGTH_BY_2_PLUS_1]>,
    channel: [T; FFT_LENGTH_BY_2_PLUS_1],
    k: int,
)
    ensures
        summed_power(Seq::<[T; FFT_LENGTH_BY_2_PLUS_1]>::empty(), k, 0) == zero_of::<T>(),
        summed_power(channels.push(channel), k, channels.len() as int + 1) == plus(
            summed_power(channels, k, channels.len() as int),
            channel@[k],
        ),
{
    lemma_same_channels(channels.push(channel), channels, k, channels.len() as int);
}

proof fn lemma_same_channels<T: Real>(
    channels: Seq<[T; FFT_LENGTH_BY_2_PLUS_1]>,
    other: Seq<[T; FFT_LENGTH_BY_2_PLUS_1]>,
    k: int,
    n: int,
)
    requires
        forall|i: int| 0 <= i < n ==> channels[i] == #[trigger] other[i],
    ensures
        summed_power(channels, k, n) == summed_power(other, k, n),
    decreases n,
{
    if n > 0 {
        lemma_same_channels(channels, other, k, n - 1);
        assert(channels[n - 1] == other[n - 1]);
    }
}

/// As many times the average power as there are channels is their sum, and the average
/// of channels that have the same power is that power.
pub proof fn law_average_power<T: Real>(
    one: T,
    number: spec_fn(usize) -> T,
    channels: Seq<[T; FFT_LENGTH_BY_2_PLUS_1]>,
    k: int,
)
    requires
        is_ordered::<T>(),
        sums_keep_order::<T>(),
        is_exact::<T>(),
        is_one(one),
        0 < channels.len() <= usize::MAX,
        is_counting(one, |n: int| number(n as usize), channels.len() as int),
        0 <= k < FFT_LENGTH_BY_2_PLUS_1,
    ensures
        times(
            average_power(one, number, channels)[k],
            number(channels.len() as usize),
        ) == summed_power(channels, k, channels.len() as int),
        (forall|i: int|
            0 <= i < channels.len() ==> (#[trigger] channels[i])@[k] == channels[0]@[k])
            ==> average_power(one, number, channels)[k] == channels[0]@[k],
{
    let zero = zero_of::<T>();
    let count = |n: int| number(n as usize);
    let n = channels.len() as int;
    let total = summed_power(channels, k, n);
    let size = number(n as usize);
    assert(count(n) == size);
    lemma_counting(one, count, n, 0, n);
    let part = over(one, size);
    lemma_exact(one, size, total);
    lemma_exact(total, part, size);
    lemma_exact(total, one, zero);
    lemma_exact(part, size, zero);
    assert(is_number(total));
    assert(times(total, one) == total);
    assert(times(times(total, part), size) == total);
    if n == 1 {
        let power = channels[0]@[k];
        assert(count(1) == plus(count(0), one));
        assert(summed_power(channels, k, 0) == zero);
        assert(total == plus(zero, power));
        lemma_exact(power, zero, zero);
        lemma_exact(one, zero, zero);
        lemma_exact(power, one, zero);
        assert(is_number(power));
        assert(times(power, one) == power);
    }
    if n > 1 && (forall|i: int|
        0 <= i < channels.len() ==> (#[trigger] channels[i])@[k] == channels[0]@[k]) {
        let power = channels[0]@[k];
        lemma_equal_powers(one, number, channels, k, n);
        assert(total == times(power, size));
        lemma_exact(power, size, part);
        lemma_exact(size, part, zero);
        lemma_exact(power, one, zero);
        assert(is_number(power));
        assert(times(power, one) == power);
    }
}

proof fn lemma_equal_powers<T: Real>(
    one: T,
    number: spec_fn(usize) -> T,
    channels: Seq<[T; FFT_LENGTH_BY_2_PLUS_1]>,
    k: int,
    n: int,
)
    requires
        is_exact::<T>(),
        is_one(one),
        0 <= n <= channels.len() <= usize::MAX,
        is_counting(one, |n: int| number(n as usize), channels.len() as int),
        forall|i: int|
            0 <= i < channels.len() ==> (#[trigger] channels[i])@[k] == channels[0]@[k],
    ensures
        summed_power(channels, k, n) == times(channels[0]@[k], number(n as usize)),
    decreases n,
{
    let zero = zero_of::<T>();
    let count = |n: int| number(n as usize);
    let power = channels[0]@[k];
    if n > 0 {
        lemma_equal_powers(one, number, channels, k, n - 1);
        assert(count(n) == plus(count(n - 1), one));
        assert(channels[n - 1]@[k] == power);
        lemma_exact(count(n - 1), one, power);
        assert(is_number(power));
        assert(times(power, one) == power);
    } else {
        assert(count(0) == zero);
        lemma_exact(power, zero, zero);
    }
}

fn average_channels<T: Real, N: Fn(usize) -> T, U>(
    one: T,
    f: &ReverbFunctions<N, U>,
    channels: &Vec<[T; FFT_LENGTH_BY_2_PLUS_1]>,
) -> (average: [T; FFT_LENGTH_BY_2_PLUS_1])
    requires
        is_total::<T>(),
        channels@.len() > 0,
        forall|n: usize| call_requires(f.number, (n,)),
    ensures
        is_functional::<T>() && is_mapping(f.number) ==> average@ == average_power(
            one,
            |n: usize| image(f.number, n),
            channels@,
        ),
{
    if channels.len() == 1 {
        return channels[0];
    }
    let normalizer = quotient(one, apply(&f.number, channels.len()));
    let mut average: [T; FFT_LENGTH_BY_2_PLUS_1] = array_fill_for_copy_types(zero());
    let mut k: usize = 0;
    while k < FFT_LENGTH_BY_2_PLUS_1
        invariant
            is_total::<T>(),
            channels@.len() > 1,
            k <= FFT_LENGTH_BY_2_PLUS_1,
            is_functional::<T>() && is_mapping(f.number) ==> normalizer == over(
                one,
                image(f.number, channels@.len() as usize),
            ),
            is_functional::<T>() && is_mapping(f.number) ==> forall|j: int|
                0 <= j < k ==> #[trigger] average@[j] == average_power(
                    one,
                    |n: usize| image(f.number, n),
                    channels@,
                )[j],
        decreases FFT_LENGTH_BY_2_PLUS_1 - k,
    {
        let mut total: T = zero();
        let mut ch: usize = 0;
        while ch < channels.len()
            invariant
                is_total::<T>(),
                k < FFT_LENGTH_BY_2_PLUS_1,
                ch <= channels@.len(),
                is_functional::<T>() ==> total == summed_power(channels@, k as int, ch as int),
            decreases channels@.len() - ch,
        {
            total = sum(total, channels[ch][k]);
            ch = ch + 1;
        }
        average[k] = product(total, normalizer);
        k = k + 1;
    }
    proof {
        if is_functional::<T>() && is_mapping(f.number) {
            assert(average@ =~= average_power(one, |n: usize| image(f.number, n), channels@));
        }
    }
    average
}

/// Adds the power of the block before the delayed one to the reverberation, and
/// computes the power of the delayed block with the reverberation.
pub fn compute_avg_render_reverb<
    T: Real,
    N: Fn(usize) -> T,
    U: Fn(([T; FFT_LENGTH_BY_2_PLUS_1], [T; FFT_LENGTH_BY_2_PLUS_1])) -> [T;
        FFT_LENGTH_BY_2_PLUS_1],
>(
    one: T,
    spectrum_buffer: &SpectrumBuffer<T>,
    delay_blocks: i32,
    f: &ReverbFunctions<N, U>,
    reverb: &mut [T; FFT_LENGTH_BY_2_PLUS_1],
    reverb_power_spectrum: &mut [T; FFT_LENGTH_BY_2_PLUS_1],
)
    requires
        is_total::<T>(),
        spectrum_buffer.inv(),
        -spectrum_buffer.buffer@.len() <= delay_blocks <= spectrum_buffer.buffer@.len(),
        forall|n: usize| call_requires(f.number, (n,)),
        forall|a: ([T; FFT_LENGTH_BY_2_PLUS_1], [T; FFT_LENGTH_BY_2_PLUS_1])|
            call_requires(f.update, (a,)),
    ensures
        is_functional::<T>() && is_mapping(f.number) && is_mapping(f.update) ==> {
            let size = spectrum_buffer.buffer@.len() as int;
            let at_delay = shifted_index(size, spectrum_buffer.read as int, delay_blocks as int);
            let past = next_index(size, at_delay);
            let number = |n: usize| image(f.number, n);
            &&& *final(reverb) == image(
                f.update,
                (
                    *old(reverb),
                    array_of(average_power(one, number, spectrum_buffer.buffer@[past]@)),
                ),
            )
            &&& forall|k: int|
                0 <= k < FFT_LENGTH_BY_2_PLUS_1 ==> #[trigger] final(reverb_power_spectrum)@[k]
                    == plus(
                    average_power(one, number, spectrum_buffer.buffer@[at_delay]@)[k],
                    final(reverb)@[k],
                )
        },
{
    let idx_at_delay: usize = spectrum_buffer.offset_index(
        spectrum_buffer.read,
        delay_blocks as isize,
    );
    assert(spectrum_buffer.buffer.len() <= usize::MAX);
    let idx_past: usize = spectrum_buffer.inc_index(idx_at_delay);
    assert(spectrum_buffer.buffer@[idx_at_delay as int]@.len()
        == spectrum_buffer.buffer@[0]@.len());
    assert(spectrum_buffer.buffer@[idx_past as int]@.len() == spectrum_buffer.buffer@[0]@.len());
    let past_power = average_channels(one, f, &spectrum_buffer.buffer[idx_past]);
    proof {
        lemma_array_of(past_power);
    }
    let updated = apply(&f.update, (*reverb, past_power));
    *reverb = updated;
    let averaged_power = average_channels(one, f, &spectrum_buffer.buffer[idx_at_delay]);
    let mut k: usize = 0;
    while k < FFT_LENGTH_BY_2_PLUS_1
        invariant
            is_total::<T>(),
            k <= FFT_LENGTH_BY_2_PLUS_1,
            *reverb == updated,
            is_functional::<T>() ==> forall|j: int|
                0 <= j < k ==> #[trigger] reverb_power_spectrum@[j] == plus(
                    averaged_power@[j],
                    updated@[j],
                ),
        decreases FFT_LENGTH_BY_2_PLUS_1 - k,
    {
        let value = sum(averaged_power[k], updated[k]);
        reverb_power_spectrum[k] = value;
        k = k + 1;
    }
}

} // verus!
