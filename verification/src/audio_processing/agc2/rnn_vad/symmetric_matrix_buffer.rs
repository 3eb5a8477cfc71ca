//! Buffer for pair-wise symmetric comparisons among ring-buffer items.
use crate::audio_processing::agc2::rnn_vad::ring_buffer::{all_default, RingBuffer};
use vstd::prelude::*;

verus! {

/// Data structure that buffers pair-wise comparison values among `S` items,
/// updating when the oldest item is replaced.
#[derive(Debug, Clone)]
pub struct SymmetricMatrixBuffer<T: Copy + Default, const S: usize> {
    // Encoded upper-right triangular matrix (excluding diagonal) in a square
    // storage to allow one contiguous move on push.
    buf: Vec<T>,
}

/// Position of the upper-triangle entry (`row`, `col`) in the square storage of
/// `width` columns; the first column of the matrix is not stored.
spec fn position(width: int, row: int, col: int) -> int {
    row * width + (col - 1)
}

proof fn lemma_position(width: int, row: int, col: int)
    requires
        0 <= row < width,
        1 <= col <= width,
    ensures
        0 <= row * width <= position(width, row, col) < width * width,
        row + 1 < width && col < width ==> position(width, row + 1, col + 1) == position(
            width,
            row,
            col,
        ) + width + 1,
{
    assert(0 <= row * width) by (nonlinear_arith)
        requires
            0 <= row,
            0 <= width,
    ;
    assert((row + 1) * width == row * width + width) by (nonlinear_arith);
    assert((row + 1) * width <= width * width) by (nonlinear_arith)
        requires
            row + 1 <= width,
            0 <= width,
    ;
}

proof fn lemma_position_injective(width: int, row1: int, col1: int, row2: int, col2: int)
    requires
        0 <= row1 < width,
        1 <= col1 <= width,
        0 <= row2 < width,
        1 <= col2 <= width,
        position(width, row1, col1) == position(width, row2, col2),
    ensures
        row1 == row2,
        col1 == col2,
{
    if row1 < row2 {
        assert((row1 + 1) * width <= row2 * width) by (nonlinear_arith)
            requires
                row1 + 1 <= row2,
                0 <= width,
        ;
        assert((row1 + 1) * width == row1 * width + width) by (nonlinear_arith);
    } else if row2 < row1 {
        assert((row2 + 1) * width <= row1 * width) by (nonlinear_arith)
            requires
                row2 + 1 <= row1,
                0 <= width,
        ;
        assert((row2 + 1) * width == row2 * width + width) by (nonlinear_arith);
    }
}

impl<T: Copy + Default, const S: usize> SymmetricMatrixBuffer<T, S> {
    pub closed spec fn inv(&self) -> bool {
        &&& S > 2
        &&& self.buf@.len() == (S - 1) * (S - 1)
    }

    /// The comparison value between the items with two distinct delays.
    pub closed spec fn value(&self, delay1: int, delay2: int) -> T {
        if delay1 > delay2 {
            self.buf@[position(S - 1, S - 1 - delay1, S - 1 - delay2)]
        } else {
            self.buf@[position(S - 1, S - 1 - delay2, S - 1 - delay1)]
        }
    }

    /// The order of the two delays does not matter.
    pub proof fn law_symmetric(&self, delay1: int, delay2: int)
        ensures
            self.value(delay1, delay2) == self.value(delay2, delay1),
    {
    }

    pub fn new() -> (buffer: Self)
        requires
            call_requires(T::default, ()),
            S > 2,
            (S - 1) * (S - 1) <= usize::MAX,
        ensures
            buffer.inv(),
            forall|d1: int, d2: int|
                0 <= d1 < S && 0 <= d2 < S && d1 != d2 ==> call_ensures(
                    T::default,
                    (),
                    #[trigger] buffer.value(d1, d2),
                ),
    {
        let mut buf: Vec<T> = Vec::new();
        let value = T::default();
        let len: usize = (S - 1) * (S - 1);
        let mut i: usize = 0;
        while i < len
            invariant
                i <= len,
                buf@.len() == i,
                call_ensures(T::default, (), value),
                all_default(buf@),
            decreases len - i,
        {
            buf.push(value);
            i = i + 1;
        }
        let buffer = SymmetricMatrixBuffer { buf };
        proof {
            buffer.lemma_all_default();
        }
        buffer
    }

    proof fn lemma_all_default(&self)
        requires
            self.inv(),
            all_default(self.buf@),
        ensures
            forall|d1: int, d2: int|
                0 <= d1 < S && 0 <= d2 < S && d1 != d2 ==> call_ensures(
                    T::default,
                    (),
                    #[trigger] self.value(d1, d2),
                ),
    {
        assert forall|d1: int, d2: int| 0 <= d1 < S && 0 <= d2 < S && d1 != d2 implies call_ensures(
            T::default,
            (),
            #[trigger] self.value(d1, d2),
        ) by {
            if d1 > d2 {
                lemma_position(S - 1, S - 1 - d1, S - 1 - d2);
            } else {
                lemma_position(S - 1, S - 1 - d2, S - 1 - d1);
            }
        }
    }

    /// Sets the buffer values to zero/default.
    pub fn reset(&mut self)
        requires
            old(self).inv(),
            call_requires(T::default, ()),
        ensures
            final(self).inv(),
            forall|d1: int, d2: int|
                0 <= d1 < S && 0 <= d2 < S && d1 != d2 ==> call_ensures(
                    T::default,
                    (),
                    #[trigger] final(self).value(d1, d2),
                ),
    {
        let value = T::default();
        let mut i: usize = 0;
        while i < self.buf.len()
            invariant
                self.inv(),
                i <= self.buf@.len(),
                call_ensures(T::default, (), value),
                forall|k: int|
                    0 <= k < i ==> call_ensures(T::default, (), #[trigger] self.buf@[k]),
            decreases self.buf@.len() - i,
        {
            self.buf[i] = value;
            i = i + 1;
        }
        proof {
            self.lemma_all_default();
        }
    }

    /// Whether `after` is `before` once a new item came in with its comparison values:
    /// those of any other two items are kept, each being one delay older.
    pub open spec fn follows(before: Self, after: Self, values: Seq<T>) -> bool {
        &&& forall|d: int| 1 <= d < S ==> #[trigger] after.value(0, d) == values[d - 1]
        &&& forall|d1: int, d2: int|
            1 <= d1 < S && 1 <= d2 < S && d1 != d2 ==> #[trigger] after.value(d1, d2)
                == before.value(d1 - 1, d2 - 1)
    }

    /// Pushes comparison values between newest and older elements.
    ///
    /// `values[0]` corresponds to comparison between delay 0 and delay 1,
    /// `values[S-2]` to comparison between delay 0 and delay S-1. The value for
    /// any other two items is kept, each item now being one delay older.
    pub fn push(&mut self, values: &[T])
        requires
            old(self).inv(),
            values@.len() == S - 1,
        ensures
            final(self).inv(),
            Self::follows(*old(self), *final(self), values@),
    {
        let width: usize = S - 1;
        let len: usize = self.buf.len();
        let ghost before = self.buf@;
        // Move lower-right (S-2)x(S-2) block one row up and one column left.
        let mut k: usize = 0;
        assert(width * width >= 2 * width) by (nonlinear_arith)
            requires
                width >= 2,
        ;
        while k < len - S
            invariant
                len == width * width,
                len >= S,
                k <= len - S,
                self.buf@.len() == len,
                before.len() == len,
                forall|m: int| 0 <= m < k ==> self.buf@[m] == before[m + S],
                forall|m: int| k <= m < len ==> self.buf@[m] == before[m],
            decreases len - S - k,
        {
            self.buf[k] = self.buf[k + S];
            k = k + 1;
        }
        let ghost moved = self.buf@;
        // Copy new values into the last column in reversed row order.
        let mut i: usize = 0;
        while i < width
            invariant
                width == S - 1,
                width >= 2,
                i <= width,
                values@.len() == width,
                len == width * width,
                self.buf@.len() == len,
                moved.len() == len,
                forall|m: int|
                    0 <= m < i ==> self.buf@[#[trigger] position(width as int, width - 1 - m, width as int)]
                        == values@[m],
                forall|row: int, col: int|
                    #![trigger position(width as int, row, col)]
                    0 <= row < width && 1 <= col < width ==> self.buf@[position(
                        width as int,
                        row,
                        col,
                    )] == moved[position(width as int, row, col)],
            decreases width - i,
        {
            proof {
                lemma_position(width as int, width - 1 - i, width as int);
                assert((width - i) * width == (width - 1 - i) * width + width) by (nonlinear_arith);
            }
            let index: usize = (width - i) * width - 1;
            assert(index == position(width as int, width - 1 - i, width as int));
            let ghost unwritten = self.buf@;
            self.buf[index] = values[i];
            proof {
                assert forall|m: int| 0 <= m < i implies self.buf@[#[trigger] position(
                    width as int,
                    width - 1 - m,
                    width as int,
                )] == values@[m] by {
                    lemma_position(width as int, width - 1 - m, width as int);
                    if position(width as int, width - 1 - m, width as int) == index {
                        lemma_position_injective(
                            width as int,
                            width - 1 - m,
                            width as int,
                            width - 1 - i,
                            width as int,
                        );
                    }
                }
                assert forall|row: int, col: int|
                    #![trigger position(width as int, row, col)]
                    0 <= row < width && 1 <= col < width implies self.buf@[position(
                    width as int,
                    row,
                    col,
                )] == moved[position(width as int, row, col)] by {
                    lemma_position(width as int, row, col);
                    if position(width as int, row, col) == index {
                        lemma_position_injective(
                            width as int,
                            row,
                            col,
                            width - 1 - i,
                            width as int,
                        );
                    }
                }
            }
            i = i + 1;
        }
        proof {
            assert forall|d: int| 1 <= d < S implies #[trigger] self.value(0, d) == values@[d - 1] by {
                assert(position(S - 1, S - 1 - d, S - 1) == position(
                    width as int,
                    width - 1 - (d - 1),
                    width as int,
                ));
            }
            assert forall|d1: int, d2: int|
                1 <= d1 < S && 1 <= d2 < S && d1 != d2 implies #[trigger] self.value(d1, d2)
                == old(self).value(d1 - 1, d2 - 1) by {
                let (older, newer) = if d1 > d2 {
                    (d1, d2)
                } else {
                    (d2, d1)
                };
                let row = S - 1 - older;
                let col = S - 1 - newer;
                lemma_position(width as int, row, col);
                lemma_position(width as int, row + 1, col + 1);
                assert(self.buf@[position(width as int, row, col)] == moved[position(
                    width as int,
                    row,
                    col,
                )]);
            }
        }
    }

    /// Reads the comparison value between items with delays `delay1` and
    /// `delay2`. Delays must be distinct and in `[0, S-1]`.
    pub fn get_value(&self, delay1: usize, delay2: usize) -> (value: T)
        requires
            self.inv(),
            delay1 < S,
            delay2 < S,
            delay1 != delay2,
        ensures
            value == self.value(delay1 as int, delay2 as int),
    {
        let width: usize = S - 1;
        let mut row: usize = width - delay1;
        let mut col: usize = width - delay2;
        if row > col {
            let higher: usize = row;
            row = col;
            col = higher;
        }
        proof {
            lemma_position(width as int, row as int, col as int);
        }
        assert(self.buf.len() == width * width);
        let index: usize = row * width + (col - 1);
        self.buf[index]
    }
}

/// The buffer of fewer than three items, or of more pairs than fit into a `usize`,
/// holds no values.
impl<T: Copy + Default, const S: usize> Default for SymmetricMatrixBuffer<T, S> {
    fn default() -> (buffer: Self)
        ensures
            S > 2 && (S - 1) * (S - 1) <= usize::MAX ==> {
                &&& buffer.inv()
                &&& forall|d1: int, d2: int|
                    0 <= d1 < S && 0 <= d2 < S && d1 != d2 ==> call_ensures(
                        T::default,
                        (),
                        #[trigger] buffer.value(d1, d2),
                    )
            },
    {
        if S > 2 && (S - 1).checked_mul(S - 1).is_some() {
            SymmetricMatrixBuffer::new()
        } else {
            SymmetricMatrixBuffer { buf: Vec::new() }
        }
    }
}

/// Whether a ring buffer and a comparison buffer go on from round `n` to the next one:
/// an item is pushed, with its comparisons to the items that are then older.
pub open spec fn is_round<A: Copy + Default, T: Copy + Default, const W: usize, const S: usize>(
    rings: Seq<RingBuffer<A, W, S>>,
    buffers: Seq<SymmetricMatrixBuffer<T, S>>,
    items: Seq<[A; W]>,
    compare: spec_fn([A; W], [A; W]) -> T,
    n: int,
) -> bool {
    &&& rings[n + 1]@ == seq![items[n]] + rings[n]@.drop_last()
    &&& SymmetricMatrixBuffer::follows(
        buffers[n],
        buffers[n + 1],
        Seq::new((S - 1) as nat, |i: int| compare(rings[n + 1]@[i + 1], items[n])),
    )
}

/// Where each item is pushed into a ring buffer, and its comparisons to the older items
/// into a comparison buffer, every value that can be read for one of the items pushed is
/// that of the two items now at these delays: none is left of an item that has gone.
pub proof fn law_values_compare_buffered_items<
    A: Copy + Default,
    T: Copy + Default,
    const W: usize,
    const S: usize,
>(
    rings: Seq<RingBuffer<A, W, S>>,
    buffers: Seq<SymmetricMatrixBuffer<T, S>>,
    items: Seq<[A; W]>,
    compare: spec_fn([A; W], [A; W]) -> T,
    rounds: int,
)
    requires
        rings[0]@.len() == S,
        S > 2,
        0 <= rounds <= items.len(),
        forall|n: int| 0 <= n < items.len() ==> #[trigger] is_round(
            rings,
            buffers,
            items,
            compare,
            n,
        ),
    ensures
        rings[rounds]@.len() == S,
        forall|d1: int, d2: int|
            0 <= d1 < d2 < S && d1 < rounds ==> #[trigger] buffers[rounds].value(d1, d2) == compare(
                rings[rounds]@[d2],
                rings[rounds]@[d1],
            ),
    decreases rounds,
{
    if rounds > 0 {
        let n = rounds - 1;
        law_values_compare_buffered_items(rings, buffers, items, compare, n);
        assert(is_round(rings, buffers, items, compare, n));
        assert forall|d1: int, d2: int| 0 <= d1 < d2 < S && d1 < rounds implies
            #[trigger] buffers[rounds].value(d1, d2) == compare(
            rings[rounds]@[d2],
            rings[rounds]@[d1],
        ) by {
            if d1 > 0 {
                assert(buffers[n + 1].value(d1, d2) == buffers[n].value(d1 - 1, d2 - 1));
            } else {
                assert(buffers[n + 1].value(0, d2) == compare(
                    rings[n + 1]@[d2 - 1 + 1],
                    items[n],
                ));
            }
        }
    }
}

} // verus!
