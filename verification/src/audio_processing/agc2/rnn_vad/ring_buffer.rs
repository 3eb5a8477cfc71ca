//! Ring buffer of fixed-size arrays.
use vstd::array::array_fill_for_copy_types;
use vstd::prelude::*;

verus! {

/// Ring buffer for `N` arrays of type `T`, each with size `S`.
#[derive(Debug, Clone)]
pub struct RingBuffer<T: Copy + Default, const S: usize, const N: usize> {
    /// Index of the least recently pushed sub-array.
    tail: usize,
    buffer: [[T; S]; N],
}

/// Whether `values` holds default values only.
pub open spec fn all_default<T: Default>(values: Seq<T>) -> bool {
    forall|i: int| 0 <= i < values.len() ==> call_ensures(T::default, (), #[trigger] values[i])
}

impl<T: Copy + Default, const S: usize, const N: usize> RingBuffer<T, S, N> {
    pub closed spec fn inv(&self) -> bool {
        self.tail < N
    }

    /// Index in `buffer` of the array with the given delay.
    closed spec fn slot(tail: int, delay: int) -> int {
        if delay < tail {
            tail - 1 - delay
        } else {
            N - 1 - (delay - tail)
        }
    }

    /// The arrays by delay: the most recently pushed one first.
    pub closed spec fn view(&self) -> Seq<[T; S]> {
        Seq::new(N as nat, |delay: int| self.buffer@[Self::slot(self.tail as int, delay)])
    }

    /// There is an array for every delay.
    pub proof fn law_holds_all_delays(&self)
        ensures
            self@.len() == N,
            self.inv() ==> N > 0,
    {
    }

    pub fn new() -> (ring_buffer: Self)
        requires
            call_requires(T::default, ()),
            S > 0,
            N > 0,
        ensures
            ring_buffer.inv(),
            ring_buffer@.len() == N,
            forall|delay: int| 0 <= delay < N ==> all_default((#[trigger] ring_buffer@[delay])@),
    {
        let row: [T; S] = array_fill_for_copy_types(T::default());
        RingBuffer { tail: 0, buffer: array_fill_for_copy_types(row) }
    }

    /// Sets the ring buffer values to zero/default.
    pub fn reset(&mut self)
        requires
            old(self).inv(),
            call_requires(T::default, ()),
        ensures
            final(self).inv(),
            final(self)@.len() == N,
            forall|delay: int| 0 <= delay < N ==> all_default((#[trigger] final(self)@[delay])@),
    {
        let row: [T; S] = array_fill_for_copy_types(T::default());
        self.buffer = array_fill_for_copy_types(row);
    }

    /// Replaces the least recently pushed array with `new_values`.
    pub fn push(&mut self, new_values: &[T; S])
        requires
            old(self).inv(),
        ensures
            final(self).inv(),
            final(self)@.len() == N,
            final(self)@ == seq![*new_values] + old(self)@.drop_last(),
    {
        self.buffer[self.tail] = *new_values;
        self.tail = self.tail + 1;
        if self.tail == N {
            self.tail = 0;
        }
        assert(self@ =~= seq![*new_values] + old(self)@.drop_last());
    }

    /// Returns the array for a given delay.
    ///
    /// Delay 0 returns the most recently pushed array, delay N-1 the least
    /// recently pushed array.
    pub fn get_array_view(&self, delay: usize) -> (values: &[T; S])
        requires
            self.inv(),
            delay < N,
        ensures
            self@.len() == N,
            *values == self@[delay as int],
    {
        let offset: usize = if delay < self.tail {
            self.tail - 1 - delay
        } else {
            N - 1 - (delay - self.tail)
        };
        &self.buffer[offset]
    }
}

impl<T: Copy + Default, const S: usize, const N: usize> Default for RingBuffer<T, S, N> {
    fn default() -> (ring_buffer: Self)
        ensures
            N > 0 ==> ring_buffer.inv(),
            ring_buffer@.len() == N,
            forall|delay: int| 0 <= delay < N ==> all_default((#[trigger] ring_buffer@[delay])@),
    {
        let row: [T; S] = array_fill_for_copy_types(T::default());
        RingBuffer { tail: 0, buffer: array_fill_for_copy_types(row) }
    }
}

/// The arrays that a ring buffer holds after `pushed`, oldest first, were pushed
/// into one that held `initial`.
pub open spec fn after_pushes<A>(initial: Seq<A>, pushed: Seq<A>) -> Seq<A>
    decreases pushed.len(),
{
    if pushed.len() == 0 {
        initial
    } else {
        seq![pushed.last()] + after_pushes(initial, pushed.drop_last()).drop_last()
    }
}

/// Once enough arrays were pushed, delay `d` gives the array pushed `d` pushes
/// before the last one; arrays that were there before and still fit follow.
pub proof fn law_delay_counts_pushes<A>(initial: Seq<A>, pushed: Seq<A>, delay: int)
    requires
        0 <= delay < initial.len(),
    ensures
        after_pushes(initial, pushed).len() == initial.len(),
        after_pushes(initial, pushed)[delay] == (if delay < pushed.len() {
            pushed[pushed.len() - 1 - delay]
        } else {
            initial[delay - pushed.len()]
        }),
    decreases pushed.len(),
{
    if pushed.len() > 0 {
        law_delay_counts_pushes(initial, pushed.drop_last(), 0);
        if delay > 0 {
            law_delay_counts_pushes(initial, pushed.drop_last(), delay - 1);
        }
    }
}

} // verus!
