//! Linear sequence buffer for fixed-size chunk pushes.
use crate::audio_processing::agc2::rnn_vad::ring_buffer::all_default;
use vstd::array::array_fill_for_copy_types;
use vstd::prelude::*;
use vstd::slice::slice_subrange;

verus! {

/// Linear buffer that supports pushing fixed-size sequential chunks and reading
/// contiguous views over the buffer: `S` values, chunks of `N`, and a view on
/// the `M` most recent values.
#[derive(Debug, Clone)]
pub struct SequenceBuffer<T: Copy + Default, const S: usize, const N: usize, const M: usize> {
    buffer: [T; S],
}

impl<T: Copy + Default, const S: usize, const N: usize, const M: usize> SequenceBuffer<T, S, N, M> {
    /// The values, oldest first.
    pub closed spec fn view(&self) -> Seq<T> {
        self.buffer@
    }

    pub fn new() -> (buffer: Self)
        requires
            call_requires(T::default, ()),
            N <= S,
            M <= S,
        ensures
            buffer@.len() == S,
            all_default(buffer@),
    {
        SequenceBuffer { buffer: array_fill_for_copy_types(T::default()) }
    }

    pub fn size(&self) -> (size: usize)
        ensures
            size == S,
            size == self@.len(),
    {
        S
    }

    pub fn chunks_size(&self) -> (size: usize)
        ensures
            size == N,
    {
        N
    }

    /// Sets all sequence-buffer values to zero/default.
    pub fn reset(&mut self)
        requires
            call_requires(T::default, ()),
        ensures
            final(self)@.len() == S,
            all_default(final(self)@),
    {
        self.buffer = array_fill_for_copy_types(T::default());
    }

    /// Returns a view on the whole buffer.
    pub fn get_buffer_view(&self) -> (values: &[T; S])
        ensures
            values@ == self@,
    {
        &self.buffer
    }

    /// Returns a view on the `M` most recent values of the buffer.
    pub fn get_most_recent_values_view(&self) -> (values: &[T])
        requires
            M <= S,
        ensures
            values@ == self@.subrange(S - M, S as int),
    {
        slice_subrange(self.buffer.as_slice(), S - M, S)
    }

    /// Shifts the buffer left by `N` items and appends `new_values` at the end.
    pub fn push(&mut self, new_values: &[T; N])
        requires
            N <= S,
        ensures
            final(self)@ == old(self)@.subrange(N as int, S as int) + new_values@,
    {
        let ghost before = self.buffer@;
        let mut i: usize = 0;
        while i < S - N
            invariant
                N <= S,
                i <= S - N,
                before.len() == S,
                self.buffer@.len() == S,
                forall|k: int| 0 <= k < i ==> self.buffer@[k] == before[k + N],
                forall|k: int| i <= k < S ==> self.buffer@[k] == before[k],
            decreases S - N - i,
        {
            self.buffer[i] = self.buffer[i + N];
            i = i + 1;
        }
        let mut j: usize = 0;
        while j < N
            invariant
                N <= S,
                j <= N,
                before.len() == S,
                self.buffer@.len() == S,
                forall|k: int| 0 <= k < S - N ==> self.buffer@[k] == before[k + N],
                forall|k: int| 0 <= k < j ==> self.buffer@[S - N + k] == new_values@[k],
            decreases N - j,
        {
            self.buffer[S - N + j] = new_values[j];
            j = j + 1;
        }
        assert forall|k: int| S - N <= k < S implies self.buffer@[k] == new_values@[k - (S - N)] by {
            assert(self.buffer@[S - N + (k - (S - N))] == new_values@[k - (S - N)]);
        }
        assert(self@ =~= before.subrange(N as int, S as int) + new_values@);
    }
}

impl<T: Copy + Default, const S: usize, const N: usize, const M: usize> Default for SequenceBuffer<
    T,
    S,
    N,
    M,
> {
    fn default() -> (buffer: Self)
        ensures
            buffer@.len() == S,
            all_default(buffer@),
    {
        SequenceBuffer { buffer: array_fill_for_copy_types(T::default()) }
    }
}

/// The content of a buffer of `size` values after chunks were appended.
pub open spec fn after_chunks<T>(initial: Seq<T>, chunks: Seq<Seq<T>>) -> Seq<T>
    decreases chunks.len(),
{
    if chunks.len() == 0 {
        initial
    } else {
        let before = after_chunks(initial, chunks.drop_last());
        before.subrange(chunks.last().len() as int, before.len() as int) + chunks.last()
    }
}

/// Pushing chunks of `n` values leaves the last values of everything that was
/// ever in the buffer, in order: the buffer is a sliding window over its input.
pub proof fn law_sliding_window<T>(initial: Seq<T>, chunks: Seq<Seq<T>>, n: nat)
    requires
        n <= initial.len(),
        forall|i: int| 0 <= i < chunks.len() ==> (#[trigger] chunks[i]).len() == n,
    ensures
        (initial + chunks.flatten()).len() == initial.len() + n * chunks.len(),
        after_chunks(initial, chunks) == (initial + chunks.flatten()).skip(
            (n * chunks.len()) as int,
        ),
    decreases chunks.len(),
{
    if chunks.len() == 0 {
        assert(chunks.flatten() =~= Seq::<T>::empty());
        assert(n * 0 == 0) by (nonlinear_arith);
        assert(initial + chunks.flatten() =~= initial);
        assert(initial.skip(0) =~= initial);
    } else {
        let rest = chunks.drop_last();
        law_sliding_window(initial, rest, n);
        assert(chunks =~= rest.push(chunks.last()));
        rest.lemma_flatten_push(chunks.last());
        assert(chunks.flatten() == rest.flatten() + chunks.last());
        assert(n * chunks.len() == n * rest.len() + n) by (nonlinear_arith)
            requires
                chunks.len() == rest.len() + 1,
        ;
        assert(after_chunks(initial, chunks) =~= (initial + chunks.flatten()).skip(
            (n * chunks.len()) as int,
        ));
    }
}

} // verus!
