//! Aggregation of the lags found by the matched filters into a delay.
use crate::api::config::{Delay, DelaySelectionThresholds};
use crate::audio_processing::aec3::aec3_common::{
    BLOCK_SIZE, MATCHED_FILTER_WINDOW_SIZE_SUB_BLOCKS,
};
use crate::audio_processing::aec3::binary32::{is_less, nearest, Binary32};
use crate::audio_processing::aec3::delay_estimate::{DelayEstimate, DelayEstimateQuality};
use crate::audio_processing::aec3::histogram::{
    count_of, find_last_max, last_max_index, law_last_max_index, lemma_count_bounds,
    lemma_count_constant, lemma_count_first, lemma_count_update, most_recent,
};
use crate::audio_processing::aec3::matched_filter::LagEstimate;
use vstd::arithmetic::power2::*;
use vstd::array::array_fill_for_copy_types;
use vstd::prelude::*;

verus! {

pub const HISTOGRAM_DATA_SIZE: usize = 250;

pub const PRE_ECHO_HISTOGRAM_DATA_NOT_UPDATED: i32 = -1;

/// Number of updates during which earlier pre-echoes are favoured.
pub const PRE_ECHO_FAVOURED_UPDATES: usize = 500;

/// The number of downsampled lags in a block: the block size over the largest power
/// of two up to the downsampling factor, but at least one.
pub open spec fn block_size_in_lags(down_sampling_factor: usize) -> nat {
    if down_sampling_factor < 2 {
        64
    } else if down_sampling_factor < 4 {
        32
    } else if down_sampling_factor < 8 {
        16
    } else if down_sampling_factor < 16 {
        8
    } else if down_sampling_factor < 32 {
        4
    } else if down_sampling_factor < 64 {
        2
    } else {
        1
    }
}

/// The lags of a block span as many samples as a block has, or up to twice as many where
/// the downsampling factor is no power of two. There is a lag in a block in any case.
pub proof fn law_block_size_in_lags(down_sampling_factor: usize)
    requires
        0 < down_sampling_factor,
    ensures
        block_size_in_lags(down_sampling_factor) >= 1,
        down_sampling_factor < 128 ==> 64 <= block_size_in_lags(down_sampling_factor)
            * down_sampling_factor < 128,
        down_sampling_factor >= 64 ==> block_size_in_lags(down_sampling_factor) == 1,
        down_sampling_factor == 4 ==> block_size_in_lags(down_sampling_factor) == 16,
        down_sampling_factor == 8 ==> block_size_in_lags(down_sampling_factor) == 8,
{
    let d = down_sampling_factor as int;
    let s = block_size_in_lags(down_sampling_factor) as int;
    if d < 128 {
        assert(64 <= s * d < 128) by (nonlinear_arith)
            requires
                0 < d < 128,
                s == 64 && d < 2 || s == 32 && 2 <= d < 4 || s == 16 && 4 <= d < 8 || s == 8 && 8
                    <= d < 16 || s == 4 && 16 <= d < 32 || s == 2 && 32 <= d < 64 || s == 1 && 64
                    <= d,
        ;
    }
}

/// The number of blocks that pre-echo lags are counted in.
pub open spec fn num_pre_echo_blocks(max_filter_lag: usize, down_sampling_factor: usize) -> nat {
    if (max_filter_lag + 1) * down_sampling_factor < BLOCK_SIZE {
        1
    } else {
        ((max_filter_lag + 1) * down_sampling_factor / BLOCK_SIZE as int) as nat
    }
}

/// Whether the lags can be numbered in blocks: an `i32` holds every lag at which a
/// block starts.
pub open spec fn has_pre_echo_blocks(max_filter_lag: usize, down_sampling_factor: usize) -> bool {
    &&& max_filter_lag < usize::MAX
    &&& (max_filter_lag + 1) * down_sampling_factor <= usize::MAX
    &&& num_pre_echo_blocks(max_filter_lag, down_sampling_factor) * block_size_in_lags(
        down_sampling_factor,
    ) <= i32::MAX
}

/// Number of bits to shift a downsampled lag by to get a block index: the
/// logarithm of the block size, less that of the downsampling factor.
pub fn down_sampling_block_size_log2(down_sampling_factor: usize) -> (bits: u32)
    ensures
        bits <= 6,
        pow2(bits as nat) == block_size_in_lags(down_sampling_factor),
        bits > 0 ==> down_sampling_factor < pow2((7 - bits) as nat),
        bits < 6 ==> pow2((6 - bits) as nat) <= down_sampling_factor,
{
    let mut bits: u32 = 6;
    let mut next: usize = 2;
    proof {
        lemma2_to64();
    }
    while bits > 0 && next <= down_sampling_factor
        invariant
            bits <= 6,
            next == pow2((7 - bits) as nat),
            next <= 128,
            bits < 6 ==> pow2((6 - bits) as nat) <= down_sampling_factor,
        decreases bits,
    {
        proof {
            lemma2_to64();
            lemma_pow2_unfold((8 - bits) as nat);
            if bits > 1 {
                lemma_pow2_strictly_increases((8 - bits) as nat, 7);
            }
        }
        bits = bits - 1;
        if bits > 0 {
            next = 2 * next;
        } else {
            next = 128;
        }
    }
    proof {
        lemma2_to64();
    }
    bits
}

/// The number of downsampled lags in a block.
fn lags_per_block(block_size_log2: u32) -> (lags: usize)
    requires
        block_size_log2 <= 6,
    ensures
        lags == pow2(block_size_log2 as nat),
        1 <= lags <= 64,
{
    proof {
        lemma2_to64();
    }
    match block_size_log2 {
        0 => 1,
        1 => 2,
        2 => 4,
        3 => 8,
        4 => 16,
        5 => 32,
        _ => 64,
    }
}

/// Whether `after` is `before` once the `n`th of the values was written into a circular
/// array.
spec fn is_written<A>(before: Seq<A>, after: Seq<A>, written: Seq<A>, n: int) -> bool {
    after == before.update(n % HISTOGRAM_DATA_SIZE as int, written[n])
}

/// Whether `datas` are what a circular array holds while values are written into it
/// in turn, from its start on, where it held `filler` only.
spec fn are_written<A>(datas: Seq<Seq<A>>, written: Seq<A>, filler: A) -> bool {
    &&& datas.len() == written.len() + 1
    &&& datas[0] == Seq::new(HISTOGRAM_DATA_SIZE as nat, |i: int| filler)
    &&& forall|n: int|
        0 <= n < written.len() ==> #[trigger] is_written(datas[n], datas[n + 1], written, n)
}

proof fn lemma_written_values<A>(datas: Seq<Seq<A>>, written: Seq<A>, filler: A, n: int)
    requires
        are_written(datas, written, filler),
        0 <= n <= written.len(),
    ensures
        datas[n].len() == HISTOGRAM_DATA_SIZE,
        forall|j: int|
            0 <= j < n && n - HISTOGRAM_DATA_SIZE <= j ==> #[trigger] written[j] == datas[n][j
                % HISTOGRAM_DATA_SIZE as int],
        forall|k: int| n <= k < HISTOGRAM_DATA_SIZE ==> #[trigger] datas[n][k] == filler,
    decreases n,
{
    if n > 0 {
        lemma_written_values(datas, written, filler, n - 1);
        assert(is_written(datas[n - 1], datas[n - 1 + 1], written, n - 1));
        assert forall|j: int| 0 <= j < n && n - 250 <= j implies #[trigger] written[j]
            == datas[n][j % 250] by {
            if j < n - 1 {
                assert(j % 250 != (n - 1) % 250);
            }
        }
    }
}

/// The array counts the most recent values, and what it held before where there
/// were fewer.
proof fn lemma_most_recent_are_counted<A>(
    datas: Seq<Seq<A>>,
    written: Seq<A>,
    filler: A,
    value: A,
    n: int,
)
    requires
        are_written(datas, written, filler),
        0 <= n <= written.len(),
    ensures
        count_of(datas[n], value) == count_of(
            most_recent(written.take(n), HISTOGRAM_DATA_SIZE as nat),
            value,
        ) + if value == filler && n < HISTOGRAM_DATA_SIZE {
            HISTOGRAM_DATA_SIZE - n
        } else {
            0
        },
    decreases n,
{
    if n == 0 {
        lemma_count_constant(datas[0], filler, value);
    } else {
        lemma_most_recent_are_counted(datas, written, filler, value, n - 1);
        lemma_written_values(datas, written, filler, n - 1);
        assert(is_written(datas[n - 1], datas[n - 1 + 1], written, n - 1));
        lemma_count_update(datas[n - 1], (n - 1) % 250, written[n - 1], value);
        let before = most_recent(written.take(n - 1), 250);
        let after = most_recent(written.take(n), 250);
        assert(after.last() == written[n - 1]);
        if n <= 250 {
            assert(before =~= after.drop_last());
        } else {
            assert(written[n - 251] == datas[n - 1][(n - 251) % 250]);
            lemma_count_first(before, value);
            assert(before.skip(1) =~= after.drop_last());
        }
    }
}

/// The most recent lags, how often each was seen, and the most frequent one.
pub struct PeakHistory {
    /// The lags, in the first slots as long as not all are filled.
    pub data: Seq<usize>,
    pub num_filled: int,
    pub index: int,
    pub histogram: Seq<i32>,
    pub candidate: int,
}

impl PeakHistory {
    /// The lags that were recorded are counted.
    pub open spec fn counts(self) -> bool {
        forall|i: int|
            0 <= i < self.histogram.len() ==> #[trigger] self.histogram[i] == count_of(
                self.data.take(self.num_filled),
                i as usize,
            )
    }

    pub open spec fn inv(self) -> bool {
        &&& self.data.len() == HISTOGRAM_DATA_SIZE
        &&& 0 <= self.num_filled <= HISTOGRAM_DATA_SIZE
        &&& 0 <= self.index < HISTOGRAM_DATA_SIZE
        &&& self.num_filled < HISTOGRAM_DATA_SIZE ==> self.index == self.num_filled
        &&& 0 < self.histogram.len() <= i32::MAX
        &&& forall|k: int|
            0 <= k < self.data.len() ==> (#[trigger] self.data[k]) < self.histogram.len()
        &&& self.counts()
        &&& -1 <= self.candidate < self.histogram.len()
    }

    /// The history of no lags.
    pub open spec fn empty(num_lags: nat, candidate: int) -> PeakHistory {
        PeakHistory {
            data: Seq::new(HISTOGRAM_DATA_SIZE as nat, |i: int| 0usize),
            num_filled: 0,
            index: 0,
            histogram: Seq::new(num_lags, |i: int| 0i32),
            candidate,
        }
    }

    /// Whether no lag was recorded yet, or none since all were forgotten.
    pub open spec fn is_clear(self) -> bool {
        &&& self.data == Seq::new(HISTOGRAM_DATA_SIZE as nat, |i: int| 0usize)
        &&& self.num_filled == 0
        &&& self.index == 0
    }

    /// A lag as it is recorded: at most the largest one.
    pub open spec fn kept(self, lag: int) -> usize {
        (if lag < self.histogram.len() - 1 {
            lag
        } else {
            self.histogram.len() - 1
        }) as usize
    }

    /// The history once `lag` has replaced the oldest lag.
    pub open spec fn recorded(self, lag: int, after: PeakHistory) -> bool {
        &&& after.data == self.data.update(self.index, self.kept(lag))
        &&& after.num_filled == (if self.num_filled < HISTOGRAM_DATA_SIZE {
            self.num_filled + 1
        } else {
            self.num_filled
        })
        &&& after.index == (self.index + 1) % HISTOGRAM_DATA_SIZE as int
        &&& after.histogram.len() == self.histogram.len()
        &&& after.counts()
        &&& after.candidate == last_max_index(after.histogram, 0, after.histogram.len() as int)
    }

    /// A lag with a positive count is one of the most recent lags.
    pub proof fn law_positive_count_is_a_seen_lag(self, lag: int)
        requires
            self.inv(),
            0 <= lag < self.histogram.len(),
        ensures
            self.histogram[lag] > 0 <==> self.data.take(self.num_filled).contains(lag as usize),
    {
        lemma_count_bounds(self.data.take(self.num_filled), lag as usize);
    }

    /// Whether the histories follow each other by the given lags, the first one
    /// being clear.
    pub open spec fn is_run(histories: Seq<PeakHistory>, lags: Seq<nat>) -> bool {
        &&& histories.len() == lags.len() + 1
        &&& histories[0].inv()
        &&& histories[0].is_clear()
        &&& forall|n: int|
            0 <= n < lags.len() ==> #[trigger] histories[n].recorded(
                lags[n] as int,
                histories[n + 1],
            )
    }

    /// The most recent of the lags, as they are recorded.
    pub open spec fn recent(self, lags: Seq<nat>) -> Seq<usize> {
        most_recent(
            Seq::new(lags.len(), |i: int| self.kept(lags[i] as int)),
            HISTOGRAM_DATA_SIZE as nat,
        )
    }

    proof fn lemma_run(histories: Seq<PeakHistory>, lags: Seq<nat>, n: int)
        requires
            Self::is_run(histories, lags),
            0 <= n < histories.len(),
        ensures
            histories[n].index == n % HISTOGRAM_DATA_SIZE as int,
            histories[n].num_filled == (if n < HISTOGRAM_DATA_SIZE {
                n
            } else {
                HISTOGRAM_DATA_SIZE as int
            }),
            histories[n].histogram.len() == histories[0].histogram.len(),
            histories[n].data.len() == HISTOGRAM_DATA_SIZE,
            histories[n].counts(),
        decreases n,
    {
        if n > 0 {
            Self::lemma_run(histories, lags, n - 1);
            assert(histories[n - 1].recorded(lags[n - 1] as int, histories[n - 1 + 1]));
        }
    }

    /// The histogram counts the most recent lags.
    pub proof fn law_most_recent_lags_are_counted(
        histories: Seq<PeakHistory>,
        lags: Seq<nat>,
        lag: int,
    )
        requires
            Self::is_run(histories, lags),
            0 <= lag < histories[0].histogram.len(),
        ensures
            histories.last().histogram.len() == histories[0].histogram.len(),
            histories.last().histogram[lag] == count_of(histories[0].recent(lags), lag as usize),
    {
        let datas = histories.map_values(|history: PeakHistory| history.data);
        let written = Seq::new(lags.len(), |i: int| histories[0].kept(lags[i] as int));
        assert forall|n: int| 0 <= n < written.len() implies #[trigger] is_written(
            datas[n],
            datas[n + 1],
            written,
            n,
        ) by {
            Self::lemma_run(histories, lags, n);
            assert(histories[n].recorded(lags[n] as int, histories[n + 1]));
        }
        let n = lags.len() as int;
        Self::lemma_run(histories, lags, n);
        assert(written.take(n) =~= written);
        if n < 250 {
            lemma_written_values(datas, written, 0usize, n);
            assert(datas[n].take(n) =~= written) by {
                assert forall|j: int| 0 <= j < n implies #[trigger] written[j] == datas[n].take(
                    n,
                )[j] by {
                    assert(written[j] == datas[n][j % 250]);
                }
            }
        } else {
            lemma_most_recent_are_counted(datas, written, 0usize, lag as usize, n);
            assert(datas[n].take(250) =~= datas[n]);
        }
    }

    /// The candidate is the most frequent one of the most recent lags, and of several the
    /// largest.
    pub proof fn law_candidate_is_most_frequent(histories: Seq<PeakHistory>, lags: Seq<nat>)
        requires
            Self::is_run(histories, lags),
            lags.len() > 0,
        ensures
            is_most_frequent(histories[0].recent(lags), histories.last().candidate),
    {
        let len = histories[0].histogram.len() as int;
        let recent = histories[0].recent(lags);
        let last = histories.last();
        let n = lags.len() as int;
        Self::lemma_run(histories, lags, n);
        assert(histories[n - 1].recorded(lags[n - 1] as int, histories[n - 1 + 1]));
        law_last_max_index(last.histogram, 0, len);
        assert forall|i: int| 0 <= i < len implies #[trigger] last.histogram[i] == count_of(
            recent,
            i as usize,
        ) by {
            Self::law_most_recent_lags_are_counted(histories, lags, i);
        }
        let newest = recent.last();
        assert(recent[recent.len() - 1] == newest);
        assert(recent.contains(newest));
        assert forall|i: int| 0 <= i < recent.len() implies #[trigger] recent[i] < len by {
            let skipped = lags.len() - recent.len();
            assert(recent[i] == histories[0].kept(lags[skipped + i] as int));
        }
        lemma_count_bounds(recent, newest);
        assert(last.histogram[newest as int] > 0);
        let best = last.candidate;
        assert(last.histogram[best] > 0);
        lemma_count_bounds(recent, best as usize);
        assert forall|value: usize|
            #![trigger count_of(recent, value)]
            count_of(recent, value) <= count_of(recent, best as usize) && (best < value
                ==> count_of(recent, value) < count_of(recent, best as usize)) by {
            lemma_count_bounds(recent, value);
            if recent.contains(value) {
                assert(value < len);
                assert(last.histogram[value as int] == count_of(recent, value));
            }
        }
    }
}

/// Whether a value is one of the values, none occurs more often, and no larger one as
/// often.
pub open spec fn is_most_frequent(values: Seq<usize>, value: int) -> bool {
    &&& 0 <= value <= usize::MAX
    &&& values.contains(value as usize)
    &&& forall|other: usize| #[trigger]
        count_of(values, other) <= count_of(values, value as usize)
    &&& forall|other: usize|
        value < other ==> #[trigger] count_of(values, other) < count_of(values, value as usize)
}

/// Tracks the most frequent lag over the recent history.
pub struct HighestPeakAggregator {
    histogram: Vec<i32>,
    histogram_data: [usize; HISTOGRAM_DATA_SIZE],
    /// How many of the slots hold a lag.
    num_filled: usize,
    histogram_data_index: usize,
    candidate: i32,
}

impl HighestPeakAggregator {
    pub closed spec fn view(&self) -> PeakHistory {
        PeakHistory {
            data: self.histogram_data@,
            num_filled: self.num_filled as int,
            index: self.histogram_data_index as int,
            histogram: self.histogram@,
            candidate: self.candidate as int,
        }
    }

    pub fn new(max_filter_lag: usize) -> (aggregator: Self)
        requires
            max_filter_lag < i32::MAX,
        ensures
            aggregator@.inv(),
            aggregator@ == PeakHistory::empty((max_filter_lag + 1) as nat, -1),
    {
        let histogram: Vec<i32> = vec![0i32;max_filter_lag + 1];
        let aggregator = HighestPeakAggregator {
            histogram,
            histogram_data: array_fill_for_copy_types(0usize),
            num_filled: 0,
            histogram_data_index: 0,
            candidate: -1,
        };
        proof {
            assert(aggregator@.data =~= Seq::new(HISTOGRAM_DATA_SIZE as nat, |i: int| 0usize));
            assert(aggregator@.histogram =~= Seq::new((max_filter_lag + 1) as nat, |i: int| 0i32));
            lemma_empty_counts(aggregator@);
        }
        aggregator
    }

    /// Forgets every lag; the last candidate is kept.
    pub fn reset(&mut self)
        requires
            old(self)@.inv(),
        ensures
            final(self)@.inv(),
            final(self)@ == PeakHistory::empty(
                old(self)@.histogram.len(),
                old(self)@.candidate,
            ),
    {
        clear(&mut self.histogram);
        self.histogram_data = array_fill_for_copy_types(0usize);
        self.num_filled = 0;
        self.histogram_data_index = 0;
        proof {
            assert(self@.data =~= Seq::new(HISTOGRAM_DATA_SIZE as nat, |i: int| 0usize));
            assert(self@.histogram =~= Seq::new(old(self)@.histogram.len(), |i: int| 0i32));
            lemma_empty_counts(self@);
        }
    }

    /// Replaces the oldest lag and looks for the most frequent one.
    pub fn aggregate(&mut self, lag: usize)
        requires
            old(self)@.inv(),
        ensures
            final(self)@.inv(),
            old(self)@.recorded(lag as int, final(self)@),
    {
        let ghost before = self@;
        let kept: usize = if lag < self.histogram.len() - 1 {
            lag
        } else {
            self.histogram.len() - 1
        };
        proof {
            assert(before.data.take(250) =~= before.data);
            lemma_count_bounds(before.data.take(before.num_filled), kept);
        }
        // Drop the oldest lag, once there is one.
        if self.num_filled == HISTOGRAM_DATA_SIZE {
            let oldest: usize = self.histogram_data[self.histogram_data_index];
            proof {
                assert(oldest == before.data[before.index]);
                lemma_count_bounds(before.data, oldest);
                assert(before.data.contains(oldest));
            }
            let fewer: i32 = self.histogram[oldest] - 1;
            self.histogram[oldest] = fewer;
        } else {
            self.num_filled = self.num_filled + 1;
        }
        self.histogram_data[self.histogram_data_index] = kept;
        let more: i32 = self.histogram[kept] + 1;
        self.histogram[kept] = more;
        self.histogram_data_index = (self.histogram_data_index + 1) % HISTOGRAM_DATA_SIZE;
        let len: usize = self.histogram.len();
        let best: usize = find_last_max(&self.histogram, 0, len);
        self.candidate = best as i32;
        proof {
            assert(self@.data =~= before.data.update(before.index, kept));
            let now = self@.data.take(self@.num_filled);
            assert forall|i: int| 0 <= i < self@.histogram.len() implies #[trigger] self@.histogram[i]
                == count_of(now, i as usize) by {
                assert(before.histogram[i] == count_of(
                    before.data.take(before.num_filled),
                    i as usize,
                ));
                if before.num_filled == 250 {
                    lemma_count_update(before.data, before.index, kept, i as usize);
                    assert(now =~= before.data.update(before.index, kept));
                } else {
                    assert(now.drop_last() =~= before.data.take(before.num_filled));
                    assert(now.last() == kept);
                }
            }
        }
    }

    /// The most frequent lag when a lag was last aggregated, or -1.
    pub fn candidate(&self) -> (candidate: i32)
        ensures
            candidate == self@.candidate,
    {
        self.candidate
    }

    pub fn histogram(&self) -> (histogram: &[i32])
        ensures
            histogram@ == self@.histogram,
    {
        self.histogram.as_slice()
    }
}

proof fn lemma_empty_counts(history: PeakHistory)
    requires
        history.num_filled == 0,
        history.histogram == Seq::new(history.histogram.len(), |i: int| 0i32),
    ensures
        history.counts(),
{
    assert(history.data.take(0) =~= Seq::<usize>::empty());
}

/// Sets every entry to zero.
fn clear(histogram: &mut Vec<i32>)
    ensures
        final(histogram)@ == Seq::new(old(histogram)@.len(), |i: int| 0i32),
{
    let mut i: usize = 0;
    while i < histogram.len()
        invariant
            i <= histogram@.len(),
            histogram@.len() == old(histogram)@.len(),
            forall|k: int| 0 <= k < i ==> histogram@[k] == 0,
        decreases histogram@.len() - i,
    {
        histogram[i] = 0;
        i = i + 1;
    }
    assert(histogram@ =~= Seq::new(old(histogram)@.len(), |i: int| 0i32));
}

/// The weight of the windows of the pre-echo histogram: one, and seven tenths of
/// the window before, in single precision.
pub open spec fn window_weight(window: nat) -> (nat, int)
    decreases window,
{
    if window == 0 {
        nearest(1, 0)
    } else {
        let before = window_weight((window - 1) as nat);
        nearest(before.0 * 11744051, before.1 - 24)
    }
}

/// A count weighted for its window, in single precision.
pub open spec fn weighted_count(count: nat, window: nat) -> (nat, int) {
    nearest(
        nearest(count, 0).0 * window_weight(window).0,
        nearest(count, 0).1 + window_weight(window).1,
    )
}

/// The factor from one window to the next is seven tenths to the last place of single
/// precision.
pub proof fn law_window_weight(window: nat) -> (factor: nat)
    ensures
        -5 <= 10 * factor - 7 * 0x100_0000 <= 5,
        window_weight(0) == nearest(1, 0),
        window_weight(window + 1) == nearest(
            window_weight(window).0 * factor,
            window_weight(window).1 - 24,
        ),
{
    11744051
}

/// The last most frequent block of a window.
pub open spec fn window_peak(histogram: Seq<i32>, window: int) -> int {
    last_max_index(
        histogram,
        window * MATCHED_FILTER_WINDOW_SIZE_SUB_BLOCKS,
        window * MATCHED_FILTER_WINDOW_SIZE_SUB_BLOCKS + MATCHED_FILTER_WINDOW_SIZE_SUB_BLOCKS,
    )
}

pub open spec fn window_score(histogram: Seq<i32>, window: int) -> (nat, int) {
    weighted_count(histogram[window_peak(histogram, window)] as nat, window as nat)
}

/// The peak of a window is one of its blocks, none of them is more frequent, and none
/// after it as frequent.
pub proof fn law_window_peak(histogram: Seq<i32>, window: int)
    requires
        0 <= window,
        (window + 1) * 32 <= histogram.len(),
    ensures
        32 * window <= window_peak(histogram, window) < 32 * window + 32,
        forall|block: int|
            32 * window <= block < 32 * window + 32 ==> (#[trigger] histogram[block])
                <= histogram[window_peak(histogram, window)],
        forall|block: int|
            window_peak(histogram, window) < block < 32 * window + 32 ==> (
            #[trigger] histogram[block]) < histogram[window_peak(histogram, window)],
{
    law_last_max_index(histogram, window * 32, window * 32 + 32);
}

/// The first of the windows with the largest score.
pub open spec fn best_window(histogram: Seq<i32>, windows: int) -> int
    decreases windows,
{
    if windows <= 1 {
        0
    } else {
        let best = best_window(histogram, windows - 1);
        if is_less(window_score(histogram, best), window_score(histogram, windows - 1)) {
            windows - 1
        } else {
            best
        }
    }
}

/// No window scores higher than the best one, and none before it as high.
pub proof fn law_best_window(histogram: Seq<i32>, windows: int)
    requires
        windows >= 1,
    ensures
        0 <= best_window(histogram, windows) < windows,
        forall|w: int|
            0 <= w < windows ==> !is_less(
                window_score(histogram, best_window(histogram, windows)),
                #[trigger] window_score(histogram, w),
            ),
        forall|w: int|
            0 <= w < best_window(histogram, windows) ==> is_less(
                #[trigger] window_score(histogram, w),
                window_score(histogram, best_window(histogram, windows)),
            ),
    decreases windows,
{
    if windows > 1 {
        law_best_window(histogram, windows - 1);
    }
}

/// The pre-echo block to report: while `favour_early`, the peak of the best
/// scored of the whole windows, and later the last most frequent block.
pub open spec fn pre_echo_block(histogram: Seq<i32>, favour_early: bool) -> int {
    let windows = histogram.len() as int / MATCHED_FILTER_WINDOW_SIZE_SUB_BLOCKS as int;
    if !favour_early {
        last_max_index(histogram, 0, histogram.len() as int)
    } else if windows == 0 {
        0
    } else {
        window_peak(histogram, best_window(histogram, windows))
    }
}

/// The most recent pre-echo blocks, how often each was seen, and the pre-echo
/// lag to report.
pub struct PreEchoHistory {
    pub block_size_log2: nat,
    pub data: Seq<i32>,
    pub index: int,
    pub histogram: Seq<i32>,
    pub candidate: int,
    pub number_updates: nat,
}

impl PreEchoHistory {
    pub open spec fn counts(self) -> bool {
        forall|i: int|
            0 <= i < self.histogram.len() ==> #[trigger] self.histogram[i] == count_of(
                self.data,
                i as i32,
            )
    }

    pub open spec fn inv(self) -> bool {
        &&& self.block_size_log2 <= 6
        &&& self.data.len() == HISTOGRAM_DATA_SIZE
        &&& 0 <= self.index < HISTOGRAM_DATA_SIZE
        &&& 0 < self.histogram.len()
        &&& self.histogram.len() * pow2(self.block_size_log2) <= i32::MAX
        &&& forall|k: int|
            0 <= k < self.data.len() ==> PRE_ECHO_HISTOGRAM_DATA_NOT_UPDATED <= (
            #[trigger] self.data[k]) < self.histogram.len()
        &&& self.counts()
        &&& 0 <= self.candidate <= i32::MAX
        &&& self.number_updates <= PRE_ECHO_FAVOURED_UPDATES
    }

    /// The block of a pre-echo lag.
    pub open spec fn block_of(self, lag: usize) -> int {
        let block = ((lag as nat / pow2(self.block_size_log2)) as usize) as i32;
        if block < 0 {
            0
        } else if block > self.histogram.len() - 1 {
            self.histogram.len() - 1
        } else {
            block as int
        }
    }

    /// The history once `lag` has replaced the oldest pre-echo lag.
    pub open spec fn recorded(self, lag: usize, after: PreEchoHistory) -> bool {
        &&& after.block_size_log2 == self.block_size_log2
        &&& after.data == self.data.update(self.index, self.block_of(lag) as i32)
        &&& after.index == (self.index + 1) % HISTOGRAM_DATA_SIZE as int
        &&& after.histogram.len() == self.histogram.len()
        &&& after.counts()
        &&& after.number_updates == (if self.number_updates < PRE_ECHO_FAVOURED_UPDATES {
            self.number_updates + 1
        } else {
            self.number_updates
        })
        &&& after.candidate == pre_echo_block(
            after.histogram,
            self.number_updates < PRE_ECHO_FAVOURED_UPDATES,
        ) * pow2(self.block_size_log2)
    }

    /// Whether no pre-echo was recorded yet, or none since all were forgotten.
    pub open spec fn is_clear(self) -> bool {
        &&& self.data == Seq::new(
            HISTOGRAM_DATA_SIZE as nat,
            |i: int| PRE_ECHO_HISTOGRAM_DATA_NOT_UPDATED,
        )
        &&& self.index == 0
    }

    /// The block of a lag is its number in blocks, up to that of the last block. That
    /// number has to be an `i32`.
    pub proof fn law_block_of_lag(self, lag: usize)
        requires
            self.inv(),
            lag as nat / pow2(self.block_size_log2) <= i32::MAX,
        ensures
            self.block_of(lag) == (if lag as nat / pow2(self.block_size_log2)
                < self.histogram.len() {
                lag as int / pow2(self.block_size_log2) as int
            } else {
                self.histogram.len() - 1
            }),
    {
        lemma_pow2_pos(self.block_size_log2);
        lemma_block_size(self.histogram.len(), self.block_size_log2);
    }

    /// Whether the histories follow each other by the given lags, the first one
    /// being clear.
    pub open spec fn is_run(histories: Seq<PreEchoHistory>, lags: Seq<usize>) -> bool {
        &&& histories.len() == lags.len() + 1
        &&& histories[0].inv()
        &&& histories[0].is_clear()
        &&& forall|n: int|
            0 <= n < lags.len() ==> #[trigger] histories[n].recorded(lags[n], histories[n + 1])
    }

    /// The blocks of the most recent of the lags.
    pub open spec fn recent(self, lags: Seq<usize>) -> Seq<i32> {
        most_recent(
            Seq::new(lags.len(), |i: int| self.block_of(lags[i]) as i32),
            HISTOGRAM_DATA_SIZE as nat,
        )
    }

    proof fn lemma_run(histories: Seq<PreEchoHistory>, lags: Seq<usize>, n: int)
        requires
            Self::is_run(histories, lags),
            0 <= n < histories.len(),
        ensures
            histories[n].index == n % HISTOGRAM_DATA_SIZE as int,
            histories[n].histogram.len() == histories[0].histogram.len(),
            histories[n].block_size_log2 == histories[0].block_size_log2,
            histories[n].counts(),
            histories[n].number_updates == (if histories[0].number_updates + n
                < PRE_ECHO_FAVOURED_UPDATES {
                histories[0].number_updates + n
            } else {
                PRE_ECHO_FAVOURED_UPDATES as int
            }),
        decreases n,
    {
        if n > 0 {
            Self::lemma_run(histories, lags, n - 1);
            assert(histories[n - 1].recorded(lags[n - 1], histories[n - 1 + 1]));
        }
    }

    /// The histogram counts the blocks of the most recent lags.
    pub proof fn law_most_recent_blocks_are_counted(
        histories: Seq<PreEchoHistory>,
        lags: Seq<usize>,
        block: int,
    )
        requires
            Self::is_run(histories, lags),
            0 <= block < histories[0].histogram.len(),
        ensures
            histories.last().histogram.len() == histories[0].histogram.len(),
            histories.last().histogram[block] == count_of(
                histories[0].recent(lags),
                block as i32,
            ),
    {
        lemma_block_size(histories[0].histogram.len(), histories[0].block_size_log2);
        let datas = histories.map_values(|history: PreEchoHistory| history.data);
        let written = Seq::new(lags.len(), |i: int| histories[0].block_of(lags[i]) as i32);
        assert forall|n: int| 0 <= n < written.len() implies #[trigger] is_written(
            datas[n],
            datas[n + 1],
            written,
            n,
        ) by {
            Self::lemma_run(histories, lags, n);
            assert(histories[n].recorded(lags[n], histories[n + 1]));
        }
        let n = lags.len() as int;
        Self::lemma_run(histories, lags, n);
        lemma_most_recent_are_counted(
            datas,
            written,
            PRE_ECHO_HISTOGRAM_DATA_NOT_UPDATED,
            block as i32,
            n,
        );
        assert(written.take(n) =~= written);
    }

    /// Once earlier pre-echoes are no longer favoured, the candidate is the first lag
    /// of the most frequent of the most recent blocks, and of several the last one.
    pub proof fn law_candidate_is_most_frequent(
        histories: Seq<PreEchoHistory>,
        lags: Seq<usize>,
    ) -> (block: i32)
        requires
            Self::is_run(histories, lags),
            lags.len() > 0,
            histories[0].number_updates + lags.len() > PRE_ECHO_FAVOURED_UPDATES,
        ensures
            is_most_frequent_block(histories[0].recent(lags), block),
            histories.last().candidate == block * pow2(histories[0].block_size_log2),
    {
        let len = histories[0].histogram.len() as int;
        lemma_block_size(len as nat, histories[0].block_size_log2);
        let recent = histories[0].recent(lags);
        let last = histories.last();
        let n = lags.len() as int;
        Self::lemma_run(histories, lags, n - 1);
        Self::lemma_run(histories, lags, n);
        assert(histories[n - 1].recorded(lags[n - 1], histories[n - 1 + 1]));
        law_last_max_index(last.histogram, 0, len);
        assert forall|i: int| 0 <= i < len implies #[trigger] last.histogram[i] == count_of(
            recent,
            i as i32,
        ) by {
            Self::law_most_recent_blocks_are_counted(histories, lags, i);
        }
        let newest = recent.last();
        assert(recent[recent.len() - 1] == newest);
        assert forall|i: int| 0 <= i < recent.len() implies 0 <= #[trigger] recent[i] < len by {
            let skipped = lags.len() - recent.len();
            assert(recent[i] == histories[0].block_of(lags[skipped + i]) as i32);
        }
        lemma_count_bounds(recent, newest);
        assert(last.histogram[newest as int] > 0);
        let best = last_max_index(last.histogram, 0, len) as i32;
        lemma_count_bounds(recent, best);
        assert(last.histogram[best as int] == count_of(recent, best));
        assert forall|other: i32|
            #![trigger count_of(recent, other)]
            count_of(recent, other) <= count_of(recent, best) && (best < other ==> count_of(
                recent,
                other,
            ) < count_of(recent, best)) by {
            lemma_count_bounds(recent, other);
            if recent.contains(other) {
                assert(last.histogram[other as int] == count_of(recent, other));
            }
        }
        best
    }
}

/// Whether a block is one of the blocks, none occurs more often, and no later one as
/// often.
pub open spec fn is_most_frequent_block(blocks: Seq<i32>, block: i32) -> bool {
    &&& blocks.contains(block)
    &&& forall|other: i32| #[trigger] count_of(blocks, other) <= count_of(blocks, block)
    &&& forall|other: i32|
        block < other ==> #[trigger] count_of(blocks, other) < count_of(blocks, block)
}

/// Tracks the most frequent pre-echo lag, in blocks, over the recent history.
pub struct PreEchoLagAggregator {
    block_size_log2: u32,
    histogram_data: [i32; HISTOGRAM_DATA_SIZE],
    histogram: Vec<i32>,
    histogram_data_index: usize,
    pre_echo_candidate: i32,
    number_updates: usize,
}

proof fn lemma_empty_pre_echo_counts(history: PreEchoHistory)
    requires
        history.data == Seq::new(
            HISTOGRAM_DATA_SIZE as nat,
            |i: int| PRE_ECHO_HISTOGRAM_DATA_NOT_UPDATED,
        ),
        history.histogram == Seq::new(history.histogram.len(), |i: int| 0i32),
        history.histogram.len() <= i32::MAX,
    ensures
        history.counts(),
{
    assert forall|i: int| 0 <= i < history.histogram.len() implies #[trigger] history.histogram[i]
        == count_of(history.data, i as i32) by {
        lemma_count_constant(history.data, PRE_ECHO_HISTOGRAM_DATA_NOT_UPDATED, i as i32);
    }
}

proof fn lemma_block_size(histogram_len: nat, block_size_log2: nat)
    requires
        histogram_len * pow2(block_size_log2) <= i32::MAX,
    ensures
        histogram_len <= i32::MAX,
        forall|block: int|
            0 <= block < histogram_len ==> 0 <= #[trigger] (block * pow2(block_size_log2))
                <= i32::MAX,
{
    lemma_pow2_pos(block_size_log2);
    let size = pow2(block_size_log2);
    assert(histogram_len <= histogram_len * size) by (nonlinear_arith)
        requires
            size >= 1,
    ;
    assert forall|block: int| 0 <= block < histogram_len implies 0 <= #[trigger] (block * pow2(
        block_size_log2,
    )) <= i32::MAX by {
        assert(0 <= block * size <= histogram_len * size) by (nonlinear_arith)
            requires
                0 <= block < histogram_len,
                size >= 1,
        ;
    }
}

impl PreEchoLagAggregator {
    pub closed spec fn view(&self) -> PreEchoHistory {
        PreEchoHistory {
            block_size_log2: self.block_size_log2 as nat,
            data: self.histogram_data@,
            index: self.histogram_data_index as int,
            histogram: self.histogram@,
            candidate: self.pre_echo_candidate as int,
            number_updates: self.number_updates as nat,
        }
    }

    pub fn new(max_filter_lag: usize, down_sampling_factor: usize) -> (aggregator: Self)
        requires
            has_pre_echo_blocks(max_filter_lag, down_sampling_factor),
        ensures
            aggregator@.inv(),
            pow2(aggregator@.block_size_log2) == block_size_in_lags(down_sampling_factor),
            aggregator@.block_size_log2 > 0 ==> down_sampling_factor < pow2(
                (7 - aggregator@.block_size_log2) as nat,
            ),
            aggregator@.block_size_log2 < 6 ==> pow2((6 - aggregator@.block_size_log2) as nat)
                <= down_sampling_factor,
            aggregator@.data == Seq::new(
                HISTOGRAM_DATA_SIZE as nat,
                |i: int| PRE_ECHO_HISTOGRAM_DATA_NOT_UPDATED,
            ),
            aggregator@.index == 0,
            aggregator@.histogram == Seq::new(
                num_pre_echo_blocks(max_filter_lag, down_sampling_factor),
                |i: int| 0i32,
            ),
            aggregator@.candidate == 0,
            aggregator@.number_updates == 0,
    {
        assert(0 <= (max_filter_lag + 1) * down_sampling_factor) by (nonlinear_arith);
        let lags: usize = (max_filter_lag + 1) * down_sampling_factor;
        let histogram_len: usize = if lags < BLOCK_SIZE {
            1
        } else {
            lags / BLOCK_SIZE
        };
        let histogram: Vec<i32> = vec![0i32;histogram_len];
        let aggregator = PreEchoLagAggregator {
            block_size_log2: down_sampling_block_size_log2(down_sampling_factor),
            histogram_data: array_fill_for_copy_types(PRE_ECHO_HISTOGRAM_DATA_NOT_UPDATED),
            histogram,
            histogram_data_index: 0,
            pre_echo_candidate: 0,
            number_updates: 0,
        };
        proof {
            let bits = aggregator@.block_size_log2;
            assert(histogram_len == num_pre_echo_blocks(max_filter_lag, down_sampling_factor));
            lemma_block_size(histogram_len as nat, bits);
            assert(aggregator@.data =~= Seq::new(
                HISTOGRAM_DATA_SIZE as nat,
                |i: int| PRE_ECHO_HISTOGRAM_DATA_NOT_UPDATED,
            ));
            assert(aggregator@.histogram =~= Seq::new(histogram_len as nat, |i: int| 0i32));
            lemma_empty_pre_echo_counts(aggregator@);
        }
        aggregator
    }

    /// Forgets every lag. The number of updates is kept, so that earlier
    /// pre-echoes are favoured only once.
    pub fn reset(&mut self)
        requires
            old(self)@.inv(),
        ensures
            final(self)@.inv(),
            final(self)@ == (PreEchoHistory {
                data: Seq::new(
                    HISTOGRAM_DATA_SIZE as nat,
                    |i: int| PRE_ECHO_HISTOGRAM_DATA_NOT_UPDATED,
                ),
                index: 0,
                histogram: Seq::new(old(self)@.histogram.len(), |i: int| 0i32),
                candidate: 0,
                ..old(self)@
            }),
    {
        clear(&mut self.histogram);
        self.histogram_data = array_fill_for_copy_types(PRE_ECHO_HISTOGRAM_DATA_NOT_UPDATED);
        self.histogram_data_index = 0;
        self.pre_echo_candidate = 0;
        proof {
            lemma_block_size(self@.histogram.len(), self@.block_size_log2);
            assert(self@.data =~= Seq::new(
                HISTOGRAM_DATA_SIZE as nat,
                |i: int| PRE_ECHO_HISTOGRAM_DATA_NOT_UPDATED,
            ));
            lemma_empty_pre_echo_counts(self@);
        }
    }

    /// Searches the whole windows of the histogram for the best scored block.
    fn favoured_block(&self) -> (block: usize)
        requires
            self@.counts(),
            0 < self@.histogram.len() <= i32::MAX,
        ensures
            block == pre_echo_block(self@.histogram, true),
            block < self@.histogram.len(),
    {
        let ghost h = self.histogram@;
        let seven_tenths = Binary32::seven_tenths();
        let mut weight = Binary32::from_integer(1);
        let mut best_score = Binary32::from_integer(0);
        let mut best_block: usize = 0;
        let mut window: usize = 0;
        let mut window_start: usize = 0;
        assert(window_weight(0) == nearest(1, 0));
        while window_start + MATCHED_FILTER_WINDOW_SIZE_SUB_BLOCKS <= self.histogram.len()
            invariant
                h == self.histogram@,
                0 < h.len() <= i32::MAX,
                forall|i: int| 0 <= i < h.len() ==> 0 <= #[trigger] h[i],
                window_start == window * MATCHED_FILTER_WINDOW_SIZE_SUB_BLOCKS,
                window_start <= h.len(),
                weight.inv(),
                seven_tenths.inv(),
                seven_tenths@ == (11744051nat, -24int),
                weight@ == window_weight(window as nat),
                weight@.1 <= window + 25,
                window > 0 ==> best_score@ == window_score(h, best_window(h, window as int)),
                window > 0 ==> best_block == window_peak(h, best_window(h, window as int)),
                window == 0 ==> best_block == 0,
                best_block < h.len(),
            decreases h.len() - window_start,
        {
            let window_end: usize = window_start + MATCHED_FILTER_WINDOW_SIZE_SUB_BLOCKS;
            let peak: usize = find_last_max(&self.histogram, window_start, window_end);
            let score = Binary32::from_integer(self.histogram[peak] as u64).times(weight);
            assert(score@ == window_score(h, window as int));
            if window == 0 || best_score.less_than(score) {
                best_score = score;
                best_block = peak;
            }
            weight = weight.times(seven_tenths);
            window = window + 1;
            window_start = window_start + MATCHED_FILTER_WINDOW_SIZE_SUB_BLOCKS;
        }
        assert(window == h.len() / 32) by {
            assert(32 * window <= h.len() < 32 * window + 32);
        }
        best_block
    }

    /// Replaces the oldest pre-echo lag and picks the one to report.
    pub fn aggregate(&mut self, pre_echo_lag: usize)
        requires
            old(self)@.inv(),
        ensures
            final(self)@.inv(),
            old(self)@.recorded(pre_echo_lag, final(self)@),
    {
        let ghost before = self@;
        proof {
            lemma_block_size(before.histogram.len(), before.block_size_log2);
        }
        let block_size: usize = lags_per_block(self.block_size_log2);
        let last: i32 = self.histogram.len() as i32 - 1;
        let block: i32 = #[verifier::truncate] ((pre_echo_lag / block_size) as i32);
        let block: i32 = if block < 0 {
            0
        } else if block > last {
            last
        } else {
            block
        };
        assert(block == before.block_of(pre_echo_lag));
        let oldest: i32 = self.histogram_data[self.histogram_data_index];
        proof {
            assert(oldest == before.data[before.index]);
            lemma_count_bounds(before.data, oldest);
            lemma_count_bounds(before.data, block);
            assert(before.data.contains(oldest));
            assert(before.histogram[block as int] == count_of(before.data, block));
        }
        // Drop the oldest point, skipping the initial unfilled entries.
        if oldest != PRE_ECHO_HISTOGRAM_DATA_NOT_UPDATED {
            let fewer: i32 = self.histogram[oldest as usize] - 1;
            self.histogram[oldest as usize] = fewer;
        }
        self.histogram_data[self.histogram_data_index] = block;
        let more: i32 = self.histogram[block as usize] + 1;
        self.histogram[block as usize] = more;
        self.histogram_data_index = (self.histogram_data_index + 1) % HISTOGRAM_DATA_SIZE;
        proof {
            assert forall|i: int| 0 <= i < self@.histogram.len() implies #[trigger] self@.histogram[i]
                == count_of(self@.data, i as i32) by {
                lemma_count_update(before.data, before.index, block, i as i32);
                assert(before.histogram[i] == count_of(before.data, i as i32));
            }
            assert(self@.data =~= before.data.update(before.index, block));
            assert(self@.counts());
        }
        let ghost filled = self@;
        let candidate_block: usize = if self.number_updates < PRE_ECHO_FAVOURED_UPDATES {
            self.number_updates = self.number_updates + 1;
            assert(self@.histogram == filled.histogram && self@.data == filled.data);
            assert(self@.counts());
            self.favoured_block()
        } else {
            let len: usize = self.histogram.len();
            find_last_max(&self.histogram, 0, len)
        };
        assert(0 <= candidate_block * pow2(before.block_size_log2) <= i32::MAX);
        self.pre_echo_candidate = (candidate_block * block_size) as i32;
        assert(self@.histogram == filled.histogram && self@.data == filled.data);
        assert(self@.counts());
    }

    /// The pre-echo lag to report.
    pub fn pre_echo_candidate(&self) -> (candidate: i32)
        ensures
            candidate == self@.candidate,
    {
        self.pre_echo_candidate
    }
}

/// Turns a series of lags into a delay.
pub struct MatchedFilterLagAggregator {
    significant_candidate_found: bool,
    thresholds: DelaySelectionThresholds,
    headroom: usize,
    highest_peak_aggregator: HighestPeakAggregator,
    pre_echo_lag_aggregator: Option<PreEchoLagAggregator>,
}

/// A lag beyond the headroom is by the headroom further than what is left of it; of any
/// other one nothing is left.
pub proof fn law_headroom(lag: usize, headroom: nat)
    ensures
        lag >= headroom ==> without_headroom(lag, headroom) + headroom == lag,
        lag <= headroom ==> without_headroom(lag, headroom) == 0,
{
}

/// A lag without the headroom.
pub open spec fn without_headroom(lag: usize, headroom: nat) -> int {
    if lag < headroom {
        0
    } else {
        lag - headroom
    }
}

impl MatchedFilterLagAggregator {
    pub closed spec fn inv(&self) -> bool {
        &&& self.highest_peak_aggregator@.inv()
        &&& self.pre_echo_lag_aggregator matches Some(aggregator) ==> aggregator@.inv()
        &&& self.thresholds.initial <= self.thresholds.converged
    }

    pub closed spec fn thresholds(&self) -> DelaySelectionThresholds {
        self.thresholds
    }

    pub closed spec fn headroom(&self) -> nat {
        self.headroom as nat
    }

    pub closed spec fn reliable(&self) -> bool {
        self.significant_candidate_found
    }

    pub closed spec fn peaks(&self) -> PeakHistory {
        self.highest_peak_aggregator@
    }

    pub closed spec fn pre_echoes(&self) -> Option<PreEchoHistory> {
        match self.pre_echo_lag_aggregator {
            Some(aggregator) => Some(aggregator@),
            None => None,
        }
    }

    /// How often the most frequent lag was seen, but a lag of zero makes no delay.
    pub open spec fn peak_count(&self) -> int {
        if self.peaks().candidate == 0 {
            0
        } else {
            self.peaks().histogram[self.peaks().candidate] as int
        }
    }

    /// The histograms count the recorded lags, and a delay that is only coarse needs no
    /// more sightings than a reliable one.
    pub proof fn law_histories_are_counted(&self)
        requires
            self.inv(),
        ensures
            self.peaks().inv(),
            self.pre_echoes() matches Some(history) ==> history.inv(),
            self.thresholds().initial <= self.thresholds().converged,
    {
    }

    pub fn new(max_filter_lag: usize, delay_config: &Delay) -> (aggregator: Self)
        requires
            delay_config.down_sampling_factor > 0,
            delay_config.delay_selection_thresholds.initial
                <= delay_config.delay_selection_thresholds.converged,
            max_filter_lag < i32::MAX,
            delay_config.detect_pre_echo ==> has_pre_echo_blocks(
                max_filter_lag,
                delay_config.down_sampling_factor,
            ),
        ensures
            aggregator.inv(),
            !aggregator.reliable(),
            aggregator.thresholds() == delay_config.delay_selection_thresholds,
            aggregator.headroom() == delay_config.delay_headroom_samples as nat
                / delay_config.down_sampling_factor as nat,
            aggregator.peaks() == PeakHistory::empty((max_filter_lag + 1) as nat, -1),
            aggregator.pre_echoes() is Some <==> delay_config.detect_pre_echo,
            aggregator.pre_echoes() matches Some(history) ==> {
                &&& history.number_updates == 0
                &&& history.candidate == 0
                &&& history.index == 0
                &&& history.data == Seq::new(
                    HISTOGRAM_DATA_SIZE as nat,
                    |i: int| PRE_ECHO_HISTOGRAM_DATA_NOT_UPDATED,
                )
                &&& history.histogram == Seq::new(
                    num_pre_echo_blocks(max_filter_lag, delay_config.down_sampling_factor),
                    |i: int| 0i32,
                )
                &&& pow2(history.block_size_log2) == block_size_in_lags(
                    delay_config.down_sampling_factor,
                )
                &&& history.block_size_log2 > 0 ==> delay_config.down_sampling_factor < pow2(
                    (7 - history.block_size_log2) as nat,
                )
                &&& history.block_size_log2 < 6 ==> pow2((6 - history.block_size_log2) as nat)
                    <= delay_config.down_sampling_factor
            },
    {
        MatchedFilterLagAggregator {
            significant_candidate_found: false,
            thresholds: delay_config.delay_selection_thresholds,
            headroom: delay_config.delay_headroom_samples / delay_config.down_sampling_factor,
            highest_peak_aggregator: HighestPeakAggregator::new(max_filter_lag),
            pre_echo_lag_aggregator: if delay_config.detect_pre_echo {
                Some(PreEchoLagAggregator::new(max_filter_lag, delay_config.down_sampling_factor))
            } else {
                None
            },
        }
    }

    /// Forgets every lag; a hard reset also forgets that a reliable delay was
    /// found.
    pub fn reset(&mut self, hard_reset: bool)
        requires
            old(self).inv(),
        ensures
            final(self).inv(),
            final(self).reliable() == (old(self).reliable() && !hard_reset),
            final(self).thresholds() == old(self).thresholds(),
            final(self).headroom() == old(self).headroom(),
            final(self).peaks() == PeakHistory::empty(
                old(self).peaks().histogram.len(),
                old(self).peaks().candidate,
            ),
            match (old(self).pre_echoes(), final(self).pre_echoes()) {
                (Some(before), Some(after)) => after == (PreEchoHistory {
                    data: Seq::new(
                        HISTOGRAM_DATA_SIZE as nat,
                        |i: int| PRE_ECHO_HISTOGRAM_DATA_NOT_UPDATED,
                    ),
                    index: 0,
                    histogram: Seq::new(before.histogram.len(), |i: int| 0i32),
                    candidate: 0,
                    ..before
                }),
                (before, after) => before is None && after is None,
            },
    {
        self.highest_peak_aggregator.reset();
        if let Some(aggregator) = &mut self.pre_echo_lag_aggregator {
            aggregator.reset();
        }
        if hard_reset {
            self.significant_candidate_found = false;
        }
    }

    /// Whether a delay candidate has been seen often enough to be trusted.
    pub fn reliable_delay_found(&self) -> (reliable: bool)
        ensures
            reliable == self.reliable(),
    {
        self.significant_candidate_found
    }

    /// The delay taken from the highest peak of the matched filters, ignoring
    /// any pre-echo.
    pub fn delay_at_highest_peak(&self) -> (delay: i32)
        ensures
            delay == self.peaks().candidate,
    {
        self.highest_peak_aggregator.candidate()
    }

    /// Whether `after` is `before` once an estimate was recorded, and `delay` is what
    /// is reported: a delay whose lag was seen more often than the threshold for a
    /// reliable one, or than that for a first one as long as there was none reliable.
    pub open spec fn records(
        before: Self,
        after: Self,
        estimate: LagEstimate,
        delay: Option<DelayEstimate>,
    ) -> bool {
        &&& after.thresholds() == before.thresholds()
        &&& after.headroom() == before.headroom()
        &&& before.peaks().recorded(
            without_headroom(estimate.lag, before.headroom()),
            after.peaks(),
        )
        &&& match (before.pre_echoes(), after.pre_echoes()) {
            (Some(old_echoes), Some(new_echoes)) => old_echoes.recorded(
                without_headroom(estimate.pre_echo_lag, before.headroom()) as usize,
                new_echoes,
            ),
            (old_echoes, new_echoes) => old_echoes is None && new_echoes is None,
        }
        &&& after.reliable() == (before.reliable() || after.peak_count()
            > before.thresholds().converged)
        &&& delay is Some <==> (after.peak_count() > before.thresholds().converged || (
        after.peak_count() > before.thresholds().initial && !before.reliable()))
        &&& delay matches Some(reported) ==> reported == (DelayEstimate {
            quality: if after.reliable() {
                DelayEstimateQuality::Refined
            } else {
                DelayEstimateQuality::Coarse
            },
            delay: match after.pre_echoes() {
                Some(history) => history.candidate as usize,
                None => after.peaks().candidate as usize,
            },
            blocks_since_last_change: 0,
            blocks_since_last_update: 0,
        })
    }

    /// Whether the aggregators follow each other by the given estimates, each of which
    /// led to one of the delays. An estimate that is missing changes nothing.
    pub open spec fn is_run(
        aggregators: Seq<Self>,
        estimates: Seq<LagEstimate>,
        delays: Seq<Option<DelayEstimate>>,
    ) -> bool {
        &&& aggregators.len() == estimates.len() + 1
        &&& delays.len() == estimates.len()
        &&& aggregators[0].inv()
        &&& forall|n: int|
            0 <= n < estimates.len() ==> #[trigger] Self::records(
                aggregators[n],
                aggregators[n + 1],
                estimates[n],
                delays[n],
            )
    }

    /// The lags of the estimates, less the headroom.
    pub open spec fn lags_of(&self, estimates: Seq<LagEstimate>) -> Seq<nat> {
        Seq::new(
            estimates.len(),
            |i: int| without_headroom(estimates[i].lag, self.headroom()) as nat,
        )
    }

    proof fn lemma_settings(
        aggregators: Seq<Self>,
        estimates: Seq<LagEstimate>,
        delays: Seq<Option<DelayEstimate>>,
        n: int,
    )
        requires
            Self::is_run(aggregators, estimates, delays),
            0 <= n < aggregators.len(),
        ensures
            aggregators[n].thresholds() == aggregators[0].thresholds(),
            aggregators[n].headroom() == aggregators[0].headroom(),
        decreases n,
    {
        if n > 0 {
            Self::lemma_settings(aggregators, estimates, delays, n - 1);
            assert(Self::records(
                aggregators[n - 1],
                aggregators[n - 1 + 1],
                estimates[n - 1],
                delays[n - 1],
            ));
        }
    }

    proof fn lemma_peaks(
        aggregators: Seq<Self>,
        estimates: Seq<LagEstimate>,
        delays: Seq<Option<DelayEstimate>>,
    ) -> (histories: Seq<PeakHistory>)
        requires
            Self::is_run(aggregators, estimates, delays),
            aggregators[0].peaks().is_clear(),
        ensures
            histories == aggregators.map_values(|aggregator: Self| aggregator.peaks()),
            PeakHistory::is_run(histories, aggregators[0].lags_of(estimates)),
    {
        let histories = aggregators.map_values(|aggregator: Self| aggregator.peaks());
        let lags = aggregators[0].lags_of(estimates);
        assert forall|n: int| 0 <= n < lags.len() implies #[trigger] histories[n].recorded(
            lags[n] as int,
            histories[n + 1],
        ) by {
            Self::lemma_settings(aggregators, estimates, delays, n);
            assert(Self::records(
                aggregators[n],
                aggregators[n + 1],
                estimates[n],
                delays[n],
            ));
        }
        histories
    }

    /// The delay at the highest peak is the most frequent of the most recent lags since
    /// the start or the last reset, and of several the largest. Pre-echoes play no part.
    pub proof fn law_highest_peak_is_most_frequent(
        aggregators: Seq<Self>,
        estimates: Seq<LagEstimate>,
        delays: Seq<Option<DelayEstimate>>,
    )
        requires
            Self::is_run(aggregators, estimates, delays),
            aggregators[0].peaks().is_clear(),
            estimates.len() > 0,
        ensures
            is_most_frequent(
                aggregators[0].peaks().recent(aggregators[0].lags_of(estimates)),
                aggregators.last().peaks().candidate,
            ),
    {
        let histories = Self::lemma_peaks(aggregators, estimates, delays);
        PeakHistory::law_candidate_is_most_frequent(histories, aggregators[0].lags_of(estimates));
    }

    /// Equal lags since the start give no delay at first, a coarse one once there are
    /// more of them than the first threshold, and a refined and reliable one once there
    /// are more than the second.
    pub proof fn law_equal_lags(
        aggregators: Seq<Self>,
        estimates: Seq<LagEstimate>,
        delays: Seq<Option<DelayEstimate>>,
        lag: usize,
    )
        requires
            Self::is_run(aggregators, estimates, delays),
            aggregators[0].peaks().is_clear(),
            aggregators[0].peaks().histogram.len() > 1,
            !aggregators[0].reliable(),
            0 <= aggregators[0].thresholds().initial,
            1 <= estimates.len() <= HISTOGRAM_DATA_SIZE,
            lag > aggregators[0].headroom(),
            forall|n: int| 0 <= n < estimates.len() ==> (#[trigger] estimates[n]).lag == lag,
        ensures
            aggregators.last().reliable() == (estimates.len()
                > aggregators[0].thresholds().converged),
            estimates.len() <= aggregators[0].thresholds().initial ==> delays.last() is None,
            aggregators[0].thresholds().initial < estimates.len()
                <= aggregators[0].thresholds().converged ==> {
                &&& delays.last() matches Some(delay)
                &&& delay.quality == DelayEstimateQuality::Coarse
            },
            aggregators[0].thresholds().converged < estimates.len() ==> {
                &&& delays.last() matches Some(delay)
                &&& delay.quality == DelayEstimateQuality::Refined
            },
        decreases estimates.len(),
    {
        let first = aggregators[0];
        let n = estimates.len() as int;
        if n > 1 {
            let aggregators_before = aggregators.drop_last();
            let estimates_before = estimates.drop_last();
            let delays_before = delays.drop_last();
            assert forall|i: int| 0 <= i < estimates_before.len() implies #[trigger] Self::records(
                aggregators_before[i],
                aggregators_before[i + 1],
                estimates_before[i],
                delays_before[i],
            ) by {
                assert(Self::records(
                    aggregators[i],
                    aggregators[i + 1],
                    estimates[i],
                    delays[i],
                ));
            }
            assert forall|i: int| 0 <= i < estimates_before.len() implies (
            #[trigger] estimates_before[i]).lag == lag by {
                assert(estimates[i].lag == lag);
            }
            Self::law_equal_lags(aggregators_before, estimates_before, delays_before, lag);
            assert(aggregators_before.last() == aggregators[n - 1]);
        }
        Self::lemma_settings(aggregators, estimates, delays, n - 1);
        assert(Self::records(
            aggregators[n - 1],
            aggregators[n - 1 + 1],
            estimates[n - 1],
            delays[n - 1],
        ));
        let lags = first.lags_of(estimates);
        let recent = first.peaks().recent(lags);
        let kept = first.peaks().kept(lag - first.headroom());
        assert(recent.len() == n);
        assert forall|i: int| 0 <= i < recent.len() implies #[trigger] recent[i] == kept by {
            assert(estimates[i].lag == lag);
        }
        Self::law_highest_peak_is_most_frequent(aggregators, estimates, delays);
        let best = aggregators.last().peaks().candidate;
        assert(best == kept);
        lemma_count_constant(recent, kept, kept);
        let histories = Self::lemma_peaks(aggregators, estimates, delays);
        PeakHistory::law_most_recent_lags_are_counted(histories, lags, kept as int);
        assert(aggregators.last().peak_count() == n);
    }

    /// Records a lag and reports a delay once its most frequent lag was seen
    /// often enough. Without a lag nothing is recorded nor reported.
    pub fn aggregate(&mut self, lag_estimate: Option<LagEstimate>) -> (delay: Option<DelayEstimate>)
        requires
            old(self).inv(),
        ensures
            final(self).inv(),
            lag_estimate is None ==> delay is None && *final(self) == *old(self),
            lag_estimate matches Some(estimate) ==> Self::records(
                *old(self),
                *final(self),
                estimate,
                delay,
            ),
    {
        let lag_estimate = match lag_estimate {
            Some(lag_estimate) => lag_estimate,
            None => {
                return None;
            },
        };
        let headroom: usize = self.headroom;
        if let Some(aggregator) = &mut self.pre_echo_lag_aggregator {
            aggregator.aggregate(lag_estimate.pre_echo_lag.saturating_sub(headroom));
        }
        self.highest_peak_aggregator.aggregate(lag_estimate.lag.saturating_sub(headroom));
        let candidate: i32 = self.highest_peak_aggregator.candidate();
        proof {
            law_last_max_index(
                self.highest_peak_aggregator@.histogram,
                0,
                self.highest_peak_aggregator@.histogram.len() as int,
            );
        }
        // A lag of zero makes no delay, however often it was seen.
        let count: i32 = if candidate == 0 {
            0
        } else {
            self.highest_peak_aggregator.histogram()[candidate as usize]
        };
        if count > self.thresholds.converged {
            self.significant_candidate_found = true;
        }
        if count > self.thresholds.converged || (count > self.thresholds.initial
            && !self.significant_candidate_found) {
            let quality = if self.significant_candidate_found {
                DelayEstimateQuality::Refined
            } else {
                DelayEstimateQuality::Coarse
            };
            let reported_delay: usize = match &self.pre_echo_lag_aggregator {
                Some(aggregator) => aggregator.pre_echo_candidate() as usize,
                None => candidate as usize,
            };
            return Some(DelayEstimate::new(quality, reported_delay));
        }
        None
    }
}

} // verus!
