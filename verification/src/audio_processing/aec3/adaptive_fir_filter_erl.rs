//! Echo return loss of adaptive filters.
use crate::audio_processing::aec3::aec3_common::{Aec3Optimization, FFT_LENGTH_BY_2_PLUS_1};
use crate::audio_processing::arithmetic::{
    at_most, is_functional, is_total, plus, same, sum, zero, zero_of, Real,
};
use crate::audio_processing::ordered::{
    is_number, is_ordered, lemma_adds_nothing, lemma_order, lemma_sums, sums_keep_order,
};
use vstd::array::array_fill_for_copy_types;
use vstd::prelude::*;

verus! {

/// The sum of the responses of the first `n` partitions in a bin.
pub open spec fn summed_response<T: Real>(
    h2: Seq<[T; FFT_LENGTH_BY_2_PLUS_1]>,
    k: int,
    n: int,
) -> T
    decreases n,
{
    if n <= 0 {
        zero_of()
    } else {
        plus(summed_response(h2, k, n - 1), h2[n - 1]@[k])
    }
}

/// One more partition adds its response in each bin; a filter without partitions has
/// none.
pub proof fn law_partitions_add_up<T: Real>(
    h2: Seq<[T; FFT_LENGTH_BY_2_PLUS_1]>,
    partition: [T; FFT_LENGTH_BY_2_PLUS_1],
    k: int,
)
    ensures
        summed_response(Seq::<[T; FFT_LENGTH_BY_2_PLUS_1]>::empty(), k, 0) == zero_of::<T>(),
        summed_response(h2.push(partition), k, h2.len() as int + 1) == plus(
            summed_response(h2, k, h2.len() as int),
            partition@[k],
        ),
{
    lemma_same_partitions(h2.push(partition), h2, k, h2.len() as int);
}

proof fn lemma_same_partitions<T: Real>(
    h2: Seq<[T; FFT_LENGTH_BY_2_PLUS_1]>,
    other: Seq<[T; FFT_LENGTH_BY_2_PLUS_1]>,
    k: int,
    n: int,
)
    requires
        forall|i: int| 0 <= i < n ==> h2[i] == #[trigger] other[i],
    ensures
        summed_response(h2, k, n) == summed_response(other, k, n),
    decreases n,
{
    if n > 0 {
        lemma_same_partitions(h2, other, k, n - 1);
        assert(h2[n - 1] == other[n - 1]);
    }
}

/// The echo return loss in a bin is no less than the response of any partition in it,
/// and where the others have none, it is that response.
pub proof fn law_every_partition_counts<T: Real>(
    h2: Seq<[T; FFT_LENGTH_BY_2_PLUS_1]>,
    k: int,
    n: int,
    i: int,
)
    requires
        is_ordered::<T>(),
        sums_keep_order::<T>(),
        0 <= i < n <= h2.len(),
        forall|j: int| 0 <= j < n ==> at_most(zero_of(), (#[trigger] h2[j])@[k]),
        is_number(summed_response(h2, k, n)),
    ensures
        at_most(h2[i]@[k], summed_response(h2, k, n)),
        (forall|j: int| 0 <= j < n && j != i ==> same((#[trigger] h2[j])@[k], zero_of())) ==> same(
            summed_response(h2, k, n),
            h2[i]@[k],
        ),
    decreases n,
{
    let zero = zero_of::<T>();
    let before = summed_response(h2, k, n - 1);
    let last = h2[n - 1]@[k];
    let now = summed_response(h2, k, n);
    let only = forall|j: int| 0 <= j < n && j != i ==> same((#[trigger] h2[j])@[k], zero_of());
    lemma_sums(before, last, zero, zero);
    assert(at_most(zero, h2[n - 1]@[k]));
    lemma_not_negative(h2, k, n - 1);
    // Adding what is not negative lowers nothing.
    lemma_sums(zero, last, before, zero);
    lemma_sums(before, before, zero, zero);
    lemma_order(before, plus(before, zero), now);
    lemma_sums(zero, before, last, zero);
    lemma_sums(last, last, zero, zero);
    lemma_order(last, plus(zero, last), now);
    if i < n - 1 {
        law_every_partition_counts(h2, k, n - 1, i);
        lemma_order(h2[i]@[k], before, now);
        if only {
            assert(same(h2[n - 1]@[k], zero));
            lemma_adds_nothing(before, last);
            lemma_order(now, before, h2[i]@[k]);
        }
    } else if only {
        lemma_no_response(h2, k, n - 1);
        lemma_adds_nothing(last, before);
    }
}

proof fn lemma_not_negative<T: Real>(h2: Seq<[T; FFT_LENGTH_BY_2_PLUS_1]>, k: int, n: int)
    requires
        is_ordered::<T>(),
        sums_keep_order::<T>(),
        n <= h2.len(),
        forall|j: int| 0 <= j < n ==> at_most(zero_of(), (#[trigger] h2[j])@[k]),
        is_number(summed_response(h2, k, n)),
    ensures
        at_most(zero_of(), summed_response(h2, k, n)),
    decreases n,
{
    let zero = zero_of::<T>();
    lemma_order(zero, zero, zero);
    if n > 0 {
        let before = summed_response(h2, k, n - 1);
        let last = h2[n - 1]@[k];
        assert(at_most(zero, last));
        lemma_sums(before, last, zero, zero);
        lemma_not_negative(h2, k, n - 1);
        lemma_sums(zero, last, before, zero);
        lemma_sums(before, before, zero, zero);
        lemma_order(before, plus(before, zero), summed_response(h2, k, n));
        lemma_order(zero, before, summed_response(h2, k, n));
    }
}

proof fn lemma_no_response<T: Real>(h2: Seq<[T; FFT_LENGTH_BY_2_PLUS_1]>, k: int, n: int)
    requires
        is_ordered::<T>(),
        sums_keep_order::<T>(),
        n <= h2.len(),
        forall|j: int| 0 <= j < n ==> same((#[trigger] h2[j])@[k], zero_of()),
        is_number(summed_response(h2, k, n)),
    ensures
        same(summed_response(h2, k, n), zero_of()),
    decreases n,
{
    let zero = zero_of::<T>();
    lemma_order(zero, zero, zero);
    if n > 0 {
        let before = summed_response(h2, k, n - 1);
        let last = h2[n - 1]@[k];
        assert(same(last, zero));
        lemma_sums(before, last, zero, zero);
        lemma_no_response(h2, k, n - 1);
        lemma_adds_nothing(before, last);
        lemma_order(summed_response(h2, k, n), before, zero);
    }
}

/// Accumulates an echo return loss estimate from frequency responses per partition.
pub fn erl_computer<T: Real>(
    h2: &[[T; FFT_LENGTH_BY_2_PLUS_1]],
    erl: &mut [T; FFT_LENGTH_BY_2_PLUS_1],
)
    requires
        is_total::<T>(),
    ensures
        is_functional::<T>() ==> forall|k: int|
            0 <= k < FFT_LENGTH_BY_2_PLUS_1 ==> #[trigger] final(erl)@[k] == summed_response(
                h2@,
                k,
                h2@.len() as int,
            ),
{
    *erl = array_fill_for_copy_types(zero());
    let mut p: usize = 0;
    while p < h2.len()
        invariant
            is_total::<T>(),
            p <= h2@.len(),
            is_functional::<T>() ==> forall|k: int|
                0 <= k < FFT_LENGTH_BY_2_PLUS_1 ==> #[trigger] erl@[k] == summed_response(
                    h2@,
                    k,
                    p as int,
                ),
        decreases h2@.len() - p,
    {
        let partition = &h2[p];
        let mut k: usize = 0;
        while k < FFT_LENGTH_BY_2_PLUS_1
            invariant
                is_total::<T>(),
                p < h2@.len(),
                *partition == h2@[p as int],
                k <= FFT_LENGTH_BY_2_PLUS_1,
                is_functional::<T>() ==> forall|j: int|
                    0 <= j < FFT_LENGTH_BY_2_PLUS_1 ==> #[trigger] erl@[j] == summed_response(
                        h2@,
                        j,
                        if j < k {
                            p + 1
                        } else {
                            p as int
                        },
                    ),
            decreases FFT_LENGTH_BY_2_PLUS_1 - k,
        {
            let value = sum(erl[k], partition[k]);
            erl[k] = value;
            k = k + 1;
        }
        p = p + 1;
    }
}

/// Computes the echo return loss of a filter; the same with every optimization.
pub fn compute_erl<T: Real>(
    _optimization: Aec3Optimization,
    h2: &[[T; FFT_LENGTH_BY_2_PLUS_1]],
    erl: &mut [T; FFT_LENGTH_BY_2_PLUS_1],
)
    requires
        is_total::<T>(),
    ensures
        is_functional::<T>() ==> forall|k: int|
            0 <= k < FFT_LENGTH_BY_2_PLUS_1 ==> #[trigger] final(erl)@[k] == summed_response(
                h2@,
                k,
                h2@.len() as int,
            ),
{
    erl_computer(h2, erl);
}

} // verus!
