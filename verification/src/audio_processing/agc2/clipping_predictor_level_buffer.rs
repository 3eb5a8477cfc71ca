//! Circular level buffer for clipping prediction.
use crate::audio_processing::arithmetic::{
    absolute, apply, at_most, difference, image, is_functional, is_less, is_mapping, is_total,
    larger, less, magnitude, maximum, minus, negative, over, plus, quotient, sum, times, zero,
    zero_of, Real,
};
use crate::audio_processing::ordered::{
    is_counting, is_exact, is_number, is_one, is_ordered, law_larger, law_magnitude,
    lemma_counting, lemma_divides_out, lemma_exact, lemma_order, sums_keep_order,
};
use vstd::prelude::*;

verus! {

/// Recommended maximum capacity. Larger values are allowed but not optimized.
pub const MAX_CAPACITY: i32 = 100;

/// Frame-level statistics used by the clipping predictor.
#[derive(Clone, Copy, Debug)]
pub struct Level<T: Real> {
    pub average: T,
    pub max: T,
}

impl<T: Real> Level<T> {
    /// Whether two levels differ by less than a tolerance.
    pub open spec fn is_close(self, other: Self, epsilon: T) -> bool {
        &&& less(magnitude(minus(self.average, other.average)), epsilon)
        &&& less(magnitude(minus(self.max, other.max)), epsilon)
    }

    /// Levels are close if and only if neither of their averages and neither of their
    /// maxima is more than the tolerance above the other.
    pub proof fn law_close(self, other: Self, epsilon: T)
        requires
            is_ordered::<T>(),
            sums_keep_order::<T>(),
            is_exact::<T>(),
        ensures
            self.is_close(other, epsilon) == (less(minus(self.average, other.average), epsilon)
                && less(minus(other.average, self.average), epsilon) && less(
                minus(self.max, other.max),
                epsilon,
            ) && less(minus(other.max, self.max), epsilon)),
            self.is_close(other, epsilon) == other.is_close(self, epsilon),
    {
        lemma_distance(self.average, other.average, epsilon);
        lemma_distance(self.max, other.max, epsilon);
        lemma_distance(other.average, self.average, epsilon);
        lemma_distance(other.max, self.max, epsilon);
    }

    pub fn close_to(&self, other: &Self, epsilon: T) -> (close: bool)
        requires
            is_total::<T>(),
        ensures
            is_functional::<T>() ==> close == self.is_close(*other, epsilon),
    {
        is_less(absolute(difference(self.average, other.average)), epsilon) && is_less(
            absolute(difference(self.max, other.max)),
            epsilon,
        )
    }
}

proof fn lemma_distance<T: Real>(a: T, b: T, epsilon: T)
    requires
        is_ordered::<T>(),
        sums_keep_order::<T>(),
        is_exact::<T>(),
    ensures
        less(magnitude(minus(a, b)), epsilon) == (less(minus(a, b), epsilon) && less(
            minus(b, a),
            epsilon,
        )),
{
    let d = minus(a, b);
    assert(is_number(d) && is_number(epsilon));
    law_magnitude(d);
    lemma_exact(a, b, zero_of());
    lemma_exact(b, a, zero_of());
    lemma_exact(a, negative(b), zero_of());
    lemma_exact(negative(a), b, zero_of());
    assert(negative(d) == minus(b, a));
    lemma_order(d, magnitude(d), epsilon);
    lemma_order(minus(b, a), magnitude(d), epsilon);
}

/// The sum of the averages of `n` levels, from the one with the given delay on.
pub open spec fn sum_of_averages<T: Real>(levels: Seq<Level<T>>, delay: int, n: int) -> T
    decreases n,
{
    if n <= 0 {
        zero_of()
    } else {
        plus(
            sum_of_averages(levels, delay, n - 1),
            levels[levels.len() - 1 - delay - (n - 1)].average,
        )
    }
}

/// The maximum of `n` levels, from the one with the given delay on.
pub open spec fn max_of_levels<T: Real>(levels: Seq<Level<T>>, delay: int, n: int) -> T
    decreases n,
{
    if n <= 0 {
        zero_of()
    } else {
        larger(
            max_of_levels(levels, delay, n - 1),
            levels[levels.len() - 1 - delay - (n - 1)].max,
        )
    }
}

/// Average and maximum over `n` levels, from the one with the given delay on.
pub open spec fn partial_metrics<T: Real>(
    number: spec_fn(i32) -> T,
    levels: Seq<Level<T>>,
    delay: i32,
    n: i32,
) -> Level<T> {
    Level {
        average: over(sum_of_averages(levels, delay as int, n as int), number(n)),
        max: max_of_levels(levels, delay as int, n as int),
    }
}

/// Only the levels of the window count: those that are as old as the delay or up to as
/// many as the window is long older. Each further one adds to the sum, and as one more
/// level is pushed, the window of the next larger delay is the one before.
pub proof fn law_window<T: Real>(
    levels: Seq<Level<T>>,
    other: Seq<Level<T>>,
    delay: int,
    n: int,
    level: Level<T>,
)
    requires
        0 <= delay,
        0 <= n,
        delay + n <= levels.len(),
        delay + n <= other.len(),
    ensures
        sum_of_averages(levels, delay, 0) == zero_of::<T>(),
        delay + n < levels.len() ==> sum_of_averages(levels, delay, n + 1) == plus(
            sum_of_averages(levels, delay, n),
            levels[levels.len() - 1 - delay - n].average,
        ),
        (forall|age: int|
            delay <= age < delay + n ==> #[trigger] levels[levels.len() - 1 - age]
                == other[other.len() - 1 - age]) ==> sum_of_averages(levels, delay, n)
            == sum_of_averages(other, delay, n) && max_of_levels(levels, delay, n) == max_of_levels(
            other,
            delay,
            n,
        ),
        sum_of_averages(levels.push(level), delay + 1, n) == sum_of_averages(levels, delay, n),
        max_of_levels(levels.push(level), delay + 1, n) == max_of_levels(levels, delay, n),
    decreases n,
{
    if n > 0 {
        law_window(levels, other, delay, n - 1, level);
        let age = delay + n - 1;
        assert(levels.push(level)[levels.push(level).len() - 1 - (delay + 1) - (n - 1)]
            == levels[levels.len() - 1 - delay - (n - 1)]);
        if forall|age: int|
            delay <= age < delay + n ==> #[trigger] levels[levels.len() - 1 - age]
                == other[other.len() - 1 - age] {
            assert(levels[levels.len() - 1 - age] == other[other.len() - 1 - age]);
        }
    }
}

/// The maximum is no less than that of any level of the window, and that of one of them
/// or zero.
pub proof fn law_max_of_levels<T: Real>(levels: Seq<Level<T>>, delay: int, n: int)
    requires
        is_ordered::<T>(),
        0 <= delay,
        0 <= n,
        delay + n <= levels.len(),
        forall|i: int| 0 <= i < levels.len() ==> is_number((#[trigger] levels[i]).max),
    ensures
        at_most(zero_of(), max_of_levels(levels, delay, n)),
        forall|i: int|
            levels.len() - delay - n <= i < levels.len() - delay ==> at_most(
                (#[trigger] levels[i]).max,
                max_of_levels(levels, delay, n),
            ),
        max_of_levels(levels, delay, n) == zero_of::<T>() || exists|i: int|
            levels.len() - delay - n <= i < levels.len() - delay && max_of_levels(levels, delay, n)
                == (#[trigger] levels[i]).max,
    decreases n,
{
    let zero = zero_of::<T>();
    lemma_order(zero, zero, zero);
    if n > 0 {
        let before = max_of_levels(levels, delay, n - 1);
        let now = max_of_levels(levels, delay, n);
        let oldest = levels.len() - 1 - delay - (n - 1);
        law_max_of_levels(levels, delay, n - 1);
        assert(is_number(levels[oldest].max));
        lemma_order(zero, before, zero);
        law_larger(before, levels[oldest].max);
        lemma_order(zero, before, now);
        assert forall|i: int|
            levels.len() - delay - n <= i < levels.len() - delay implies at_most(
            (#[trigger] levels[i]).max,
            now,
        ) by {
            if i != oldest {
                lemma_order(levels[i].max, before, now);
            }
        }
        if now == before && before != zero {
            let i = choose|i: int|
                levels.len() - delay - (n - 1) <= i < levels.len() - delay && before
                    == (#[trigger] levels[i]).max;
            assert(now == levels[i].max);
        }
    }
}

/// As many times the average as there are levels is their sum, and the average of levels
/// that have the same average is that average.
pub proof fn law_average_of_levels<T: Real>(
    one: T,
    number: spec_fn(i32) -> T,
    levels: Seq<Level<T>>,
    delay: i32,
    n: i32,
)
    requires
        is_ordered::<T>(),
        sums_keep_order::<T>(),
        is_exact::<T>(),
        is_one(one),
        is_counting(one, |k: int| number(k as i32), n as int),
        0 <= delay,
        0 < n,
        delay + n <= levels.len(),
    ensures
        times(partial_metrics(number, levels, delay, n).average, number(n)) == sum_of_averages(
            levels,
            delay as int,
            n as int,
        ),
        forall|average: T|
            (forall|i: int|
                levels.len() - delay - n <= i < levels.len() - delay ==> (
                #[trigger] levels[i]).average == average) ==> #[trigger] is_average(
                partial_metrics(number, levels, delay, n),
                average,
            ),
{
    let zero = zero_of::<T>();
    let count = |k: int| number(k as i32);
    lemma_counting(one, count, n as int, 0, n as int);
    assert(count(n as int) == number(n));
    lemma_exact(sum_of_averages(levels, delay as int, n as int), number(n), zero);
    assert forall|average: T|
        (forall|i: int|
            levels.len() - delay - n <= i < levels.len() - delay ==> (#[trigger] levels[i]).average
                == average) implies #[trigger] is_average(
        partial_metrics(number, levels, delay, n),
        average,
    ) by {
        lemma_equal_averages(one, number, levels, delay as int, n as int, n as int, average);
        lemma_divides_out(one, average, number(n));
    }
}

pub open spec fn is_average<T: Real>(metrics: Level<T>, average: T) -> bool {
    metrics.average == average
}

proof fn lemma_equal_averages<T: Real>(
    one: T,
    number: spec_fn(i32) -> T,
    levels: Seq<Level<T>>,
    delay: int,
    n: int,
    max: int,
    average: T,
)
    requires
        is_exact::<T>(),
        is_one(one),
        is_counting(one, |k: int| number(k as i32), max),
        0 <= delay,
        0 <= n <= max <= i32::MAX,
        delay + n <= levels.len(),
        forall|i: int|
            levels.len() - delay - n <= i < levels.len() - delay ==> (#[trigger] levels[i]).average
                == average,
    ensures
        sum_of_averages(levels, delay, n) == times(average, number(n as i32)),
    decreases n,
{
    let zero = zero_of::<T>();
    let count = |k: int| number(k as i32);
    if n > 0 {
        lemma_equal_averages(one, number, levels, delay, n - 1, max, average);
        assert(count(n) == plus(count(n - 1), one));
        assert(levels[levels.len() - 1 - delay - (n - 1)].average == average);
        lemma_exact(count(n - 1), one, average);
        assert(is_number(average));
        assert(times(average, one) == average);
    } else {
        assert(count(0) == zero);
        lemma_exact(average, zero, zero);
    }
}

/// The last `capacity` levels.
pub open spec fn most_recent<T: Real>(levels: Seq<Level<T>>, capacity: nat) -> Seq<Level<T>> {
    if levels.len() <= capacity {
        levels
    } else {
        levels.skip(levels.len() - capacity)
    }
}

/// A buffer that holds the last levels that were pushed, as many as it has room
/// for, still does after one more push.
pub proof fn law_push_keeps_most_recent<T: Real>(
    levels: Seq<Level<T>>,
    capacity: nat,
    level: Level<T>,
)
    requires
        capacity > 0,
    ensures
        ({
            let held = most_recent(levels, capacity);
            most_recent(levels.push(level), capacity) == if held.len() == capacity {
                held.skip(1).push(level)
            } else {
                held.push(level)
            }
        }),
{
    let held = most_recent(levels, capacity);
    let wanted = if held.len() == capacity {
        held.skip(1).push(level)
    } else {
        held.push(level)
    };
    assert(most_recent(levels.push(level), capacity) =~= wanted);
}

/// A circular buffer to store frame-wise levels for clipping prediction.
pub struct ClippingPredictorLevelBuffer<T: Real> {
    tail: i32,
    size: i32,
    data: Vec<Level<T>>,
}

impl<T: Real> ClippingPredictorLevelBuffer<T> {
    pub closed spec fn inv(&self) -> bool {
        &&& 0 < self.data@.len() <= i32::MAX
        &&& 0 <= self.size <= self.data@.len()
        &&& -1 <= self.tail < self.data@.len()
        &&& self.size > 0 ==> self.tail >= 0
        &&& self.size < self.data@.len() ==> self.tail == self.size - 1
    }

    /// How many levels the buffer can hold.
    pub closed spec fn max_len(&self) -> nat {
        self.data@.len()
    }

    /// Index of the level with the given delay.
    closed spec fn slot(&self, delay: int) -> int {
        if self.tail - delay < 0 {
            self.tail - delay + self.data@.len()
        } else {
            self.tail - delay
        }
    }

    /// The levels, the oldest one first.
    pub closed spec fn view(&self) -> Seq<Level<T>> {
        Seq::new(self.size as nat, |i: int| self.data@[self.slot(self.size - 1 - i)])
    }

    /// Creates a buffer with capacity `max(1, capacity)`.
    pub fn new(capacity: i32) -> (buffer: Self)
        requires
            is_total::<T>(),
        ensures
            buffer.inv(),
            buffer.max_len() == (if capacity < 1 {
                1
            } else {
                capacity as int
            }),
            buffer@ == Seq::<Level<T>>::empty(),
    {
        let clamped_capacity: usize = if capacity < 1 {
            1
        } else {
            capacity as usize
        };
        let data = vec![Level { average: zero(), max: zero() };clamped_capacity];
        let buffer = ClippingPredictorLevelBuffer { tail: -1, size: 0, data };
        assert(buffer@ =~= Seq::<Level<T>>::empty());
        buffer
    }

    pub fn reset(&mut self)
        requires
            old(self).inv(),
        ensures
            final(self).inv(),
            final(self).max_len() == old(self).max_len(),
            final(self)@ == Seq::<Level<T>>::empty(),
    {
        self.tail = -1;
        self.size = 0;
        assert(self@ =~= Seq::<Level<T>>::empty());
    }

    pub fn size(&self) -> (size: i32)
        requires
            self.inv(),
        ensures
            size == self@.len(),
            size <= self.max_len(),
    {
        self.size
    }

    pub fn capacity(&self) -> (capacity: i32)
        requires
            self.inv(),
        ensures
            capacity == self.max_len(),
            capacity > 0,
    {
        self.data.len() as i32
    }

    /// Adds `level`; when full, replaces the least recently pushed item.
    pub fn push(&mut self, level: Level<T>)
        requires
            old(self).inv(),
        ensures
            final(self).inv(),
            final(self).max_len() == old(self).max_len(),
            final(self)@ == (if old(self)@.len() == old(self).max_len() {
                old(self)@.skip(1).push(level)
            } else {
                old(self)@.push(level)
            }),
    {
        let ghost before = *self;
        self.tail = self.tail + 1;
        if self.tail == self.data.len() as i32 {
            self.tail = 0;
        }
        if self.size < self.data.len() as i32 {
            self.size = self.size + 1;
        }
        self.data[self.tail as usize] = level;
        proof {
            let wanted = if before@.len() == before.max_len() {
                before@.skip(1).push(level)
            } else {
                before@.push(level)
            };
            assert forall|i: int| 0 <= i < wanted.len() implies self@[i] == wanted[i] by {
                if i < wanted.len() - 1 {
                    let delay = self.size - 1 - i;
                    assert(self.slot(delay) == before.slot(delay - 1));
                    assert(self.slot(delay) != self.tail);
                }
            }
            assert(self@ =~= wanted);
        }
    }

    /// Returns metrics over `num_items` recent items with `delay`.
    ///
    /// `delay=0` means latest item. `number` gives the number for an integer.
    pub fn compute_partial_metrics<N: Fn(i32) -> T>(
        &self,
        delay: i32,
        num_items: i32,
        number: &N,
    ) -> (metrics: Option<Level<T>>)
        requires
            is_total::<T>(),
            self.inv(),
            0 <= delay,
            0 < num_items,
            delay + num_items <= self.max_len(),
            forall|n: i32| call_requires(number, (n,)),
        ensures
            metrics is Some <==> delay + num_items <= self@.len(),
            is_functional::<T>() && is_mapping(*number) ==> (metrics matches Some(m) ==> m
                == partial_metrics(|n: i32| image(*number, n), self@, delay, num_items)),
    {
        if delay + num_items > self.size {
            return None;
        }
        let mut total: T = zero();
        let mut max_v: T = zero();
        let mut i: i32 = 0;
        while i < num_items
            invariant
                is_total::<T>(),
                self.inv(),
                0 <= delay,
                0 <= i <= num_items,
                delay + num_items <= self.size,
                is_functional::<T>() ==> {
                    &&& total == sum_of_averages(self@, delay as int, i as int)
                    &&& max_v == max_of_levels(self@, delay as int, i as int)
                },
            decreases num_items - i,
        {
            let mut idx: i32 = self.tail - delay - i;
            if idx < 0 {
                idx = idx + self.data.len() as i32;
            }
            let lvl = self.data[idx as usize];
            assert(self@[self@.len() - 1 - delay - i] == lvl);
            total = sum(total, lvl.average);
            max_v = maximum(max_v, lvl.max);
            i = i + 1;
        }
        Some(Level { average: quotient(total, apply(number, num_items)), max: max_v })
    }
}

} // verus!
