//! Counting and searching in histograms.
use vstd::prelude::*;

verus! {

/// How often `value` occurs in `data`.
pub open spec fn count_of<A>(data: Seq<A>, value: A) -> nat
    decreases data.len(),
{
    if data.len() == 0 {
        0
    } else {
        count_of(data.drop_last(), value) + if data.last() == value {
            1nat
        } else {
            0nat
        }
    }
}

/// Replacing an element moves one count.
pub proof fn lemma_count_update<A>(data: Seq<A>, index: int, new: A, value: A)
    requires
        0 <= index < data.len(),
    ensures
        count_of(data.update(index, new), value) + (if data[index] == value {
            1nat
        } else {
            0nat
        }) == count_of(data, value) + if new == value {
            1nat
        } else {
            0nat
        },
    decreases data.len(),
{
    let updated = data.update(index, new);
    if index == data.len() - 1 {
        assert(updated.drop_last() =~= data.drop_last());
    } else {
        assert(updated.drop_last() =~= data.drop_last().update(index, new));
        lemma_count_update(data.drop_last(), index, new, value);
    }
}

pub proof fn lemma_count_bounds<A>(data: Seq<A>, value: A)
    ensures
        count_of(data, value) <= data.len(),
        count_of(data, value) > 0 <==> data.contains(value),
    decreases data.len(),
{
    if data.len() > 0 {
        lemma_count_bounds(data.drop_last(), value);
        if data.last() == value {
            assert(data[data.len() - 1] == value);
        }
        if data.drop_last().contains(value) {
            let i = choose|i: int| 0 <= i < data.len() - 1 && data.drop_last()[i] == value;
            assert(data[i] == value);
        }
        if data.contains(value) && data.last() != value {
            let i = choose|i: int| 0 <= i < data.len() && data[i] == value;
            assert(data.drop_last()[i] == value);
        }
    }
}

pub proof fn lemma_count_constant<A>(data: Seq<A>, constant: A, value: A)
    requires
        forall|i: int| 0 <= i < data.len() ==> data[i] == constant,
    ensures
        count_of(data, value) == if value == constant {
            data.len()
        } else {
            0
        },
    decreases data.len(),
{
    if data.len() > 0 {
        lemma_count_constant(data.drop_last(), constant, value);
    }
}

/// A count is that of the first value and of the values after it.
pub proof fn lemma_count_first<A>(data: Seq<A>, value: A)
    requires
        data.len() > 0,
    ensures
        count_of(data, value) == count_of(data.skip(1), value) + if data[0] == value {
            1nat
        } else {
            0nat
        },
    decreases data.len(),
{
    reveal_with_fuel(count_of, 2);
    if data.len() > 1 {
        lemma_count_first(data.drop_last(), value);
        assert(data.drop_last().skip(1) =~= data.skip(1).drop_last());
    }
}

/// The last values, up to `limit` of them.
pub open spec fn most_recent<A>(values: Seq<A>, limit: nat) -> Seq<A> {
    if values.len() <= limit {
        values
    } else {
        values.skip(values.len() - limit)
    }
}

/// Index of the largest value in `start..end`; of several, the last one.
pub open spec fn last_max_index(values: Seq<i32>, start: int, end: int) -> int
    decreases end - start,
{
    if end <= start + 1 {
        start
    } else {
        let best = last_max_index(values, start, end - 1);
        if values[end - 1] >= values[best] {
            end - 1
        } else {
            best
        }
    }
}

/// No value in the range is larger, and none behind is as large.
pub proof fn law_last_max_index(values: Seq<i32>, start: int, end: int)
    requires
        start < end,
    ensures
        start <= last_max_index(values, start, end) < end,
        forall|i: int|
            start <= i < end ==> #[trigger] values[i] <= values[last_max_index(values, start, end)],
        forall|i: int|
            last_max_index(values, start, end) < i < end ==> #[trigger] values[i]
                < values[last_max_index(values, start, end)],
    decreases end - start,
{
    if end > start + 1 {
        law_last_max_index(values, start, end - 1);
    }
}

/// Searches `start..end` for the last largest value.
pub fn find_last_max(values: &Vec<i32>, start: usize, end: usize) -> (index: usize)
    requires
        start < end <= values@.len(),
    ensures
        index == last_max_index(values@, start as int, end as int),
        start <= index < end,
{
    let mut best: usize = start;
    let mut i: usize = start + 1;
    while i < end
        invariant
            start < i <= end <= values@.len(),
            start <= best < i,
            best == last_max_index(values@, start as int, i as int),
        decreases end - i,
    {
        if values[i] >= values[best] {
            best = i;
        }
        i = i + 1;
    }
    best
}

} // verus!
