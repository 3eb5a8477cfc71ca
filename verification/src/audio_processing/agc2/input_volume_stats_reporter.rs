//! Statistics on how often, and by how much, the input volume changes.
use std::collections::BTreeMap;
use vstd::std_specs::btree::increasing_seq;
use vstd::std_specs::cmp::OrdSpec;
use vstd::std_specs::iter::IteratorSpec;
use vstd::prelude::*;

verus! {

broadcast use vstd::std_specs::btree::group_btree_axioms;

/// Length of a logging period, in frames.
pub const FRAMES_IN_60_SECONDS: i32 = 6000;

pub const MIN_INPUT_VOLUME: i32 = 0;

pub const MAX_INPUT_VOLUME: i32 = 255;

pub const MAX_UPDATE: i32 = 255;

#[derive(Debug, Clone, Copy, PartialEq, Eq, Structural)]
pub enum InputVolumeType {
    Applied,
    Recommended,
}

/// Volume changes in the current logging period.
#[derive(Debug, Clone, Copy, PartialEq, Eq, Structural)]
pub struct VolumeUpdateStats {
    pub num_decreases: i32,
    pub num_increases: i32,
    pub sum_decreases: i32,
    pub sum_increases: i32,
}

impl Default for VolumeUpdateStats {
    fn default() -> (stats: Self)
        ensures
            stats == no_updates(),
    {
        VolumeUpdateStats { num_decreases: 0, num_increases: 0, sum_decreases: 0, sum_increases: 0 }
    }
}

pub open spec fn no_updates() -> VolumeUpdateStats {
    VolumeUpdateStats { num_decreases: 0, num_increases: 0, sum_decreases: 0, sum_increases: 0 }
}

/// How often each value was logged.
#[derive(Debug, Clone)]
pub struct HistogramSamples {
    samples: BTreeMap<i32, i32>,
}

/// One more occurrence of `value`.
pub open spec fn counted(samples: Map<i32, i32>, value: i32) -> Map<i32, i32> {
    samples.insert(
        value,
        if samples.contains_key(value) {
            (samples[value] + 1) as i32
        } else {
            1
        },
    )
}

/// One more occurrence of `value` where `occurs`.
pub open spec fn counted_if(samples: Map<i32, i32>, occurs: bool, value: i32) -> Map<i32, i32> {
    if occurs {
        counted(samples, value)
    } else {
        samples
    }
}

/// Whether every value occurs fewer than `limit` times.
pub open spec fn counts_below(samples: Map<i32, i32>, limit: int) -> bool {
    forall|value: i32| #[trigger]
        samples.contains_key(value) ==> 0 < samples[value] < limit
}

/// One more occurrence raises no count by more than one.
pub proof fn law_counted(samples: Map<i32, i32>, value: i32, limit: int)
    requires
        counts_below(samples, limit),
        1 < limit <= i32::MAX,
    ensures
        counts_below(counted(samples, value), limit + 1),
{
}

/// How often a value was logged.
pub open spec fn count_in(samples: Map<i32, i32>, value: i32) -> int {
    if samples.contains_key(value) {
        samples[value] as int
    } else {
        0
    }
}

/// How often one of the values from zero up to, but without, `limit` was logged.
pub open spec fn num_samples(samples: Map<i32, i32>, limit: nat) -> int
    decreases limit,
{
    if limit == 0 {
        0
    } else {
        num_samples(samples, (limit - 1) as nat) + count_in(samples, (limit - 1) as i32)
    }
}

/// Whether only values from zero up to `last` were logged.
pub open spec fn are_up_to(samples: Map<i32, i32>, last: i32) -> bool {
    forall|value: i32| #[trigger] samples.contains_key(value) ==> 0 <= value <= last
}

proof fn lemma_num_samples_counted(samples: Map<i32, i32>, value: i32, limit: nat)
    requires
        counts_below(samples, i32::MAX as int),
        0 <= value,
        limit <= i32::MAX,
    ensures
        num_samples(counted(samples, value), limit) == num_samples(samples, limit) + if value
            < limit {
            1int
        } else {
            0int
        },
    decreases limit,
{
    if limit > 0 {
        lemma_num_samples_counted(samples, value, (limit - 1) as nat);
    }
}

proof fn lemma_no_samples(samples: Map<i32, i32>, limit: nat)
    requires
        samples == Map::<i32, i32>::empty(),
    ensures
        num_samples(samples, limit) == 0,
    decreases limit,
{
    if limit > 0 {
        lemma_no_samples(samples, (limit - 1) as nat);
    }
}

/// How often the volume changed to the given one.
pub open spec fn num_changes_to(volumes: Seq<i32>, volume: i32) -> int
    decreases volumes.len(),
{
    if volumes.len() <= 1 {
        0
    } else {
        num_changes_to(volumes.drop_last(), volume) + if volumes.last() == volume
            && volumes[volumes.len() - 2] != volume {
            1int
        } else {
            0int
        }
    }
}

impl HistogramSamples {
    pub closed spec fn view(&self) -> Map<i32, i32> {
        self.samples@
    }

    pub fn add(&mut self, value: i32)
        requires
            counts_below(old(self)@, i32::MAX as int),
        ensures
            final(self)@ == counted(old(self)@, value),
    {
        let count: i32 = match self.samples.get(&value) {
            Some(count) => *count + 1,
            None => 1,
        };
        self.samples.insert(value, count);
    }

    /// The values that were logged, in increasing order, each with its count.
    pub fn as_pairs(&self) -> (pairs: Vec<(i32, i32)>)
        ensures
            forall|i: int, j: int| 0 <= i < j < pairs@.len() ==> pairs@[i].0 < pairs@[j].0,
            forall|i: int|
                0 <= i < pairs@.len() ==> self@.contains_key((#[trigger] pairs@[i]).0)
                    && self@[pairs@[i].0] == pairs@[i].1,
            forall|value: i32| #[trigger]
                self@.contains_key(value) ==> pairs@.contains((value, self@[value])),
    {
        let mut pairs: Vec<(i32, i32)> = Vec::new();
        let iter = self.samples.iter();
        let ghost sorted = iter.remaining();
        assert(sorted == vstd::std_specs::btree::spec_btree_map_iter(&self.samples).remaining());
        let ghost keys = sorted.map_values(|entry: (&i32, &i32)| *entry.0);
        assert(increasing_seq(keys));
        for entry in entries: iter
            invariant
                entries.seq() == sorted,
                pairs@.len() == entries.index(),
                forall|i: int|
                    0 <= i < pairs@.len() ==> (#[trigger] pairs@[i]) == (
                    *entries.seq()[i].0,
                    *entries.seq()[i].1,
                ),
        {
            pairs.push((*entry.0, *entry.1));
        }
        proof {
            assert forall|i: int, j: int| 0 <= i < j < pairs@.len() implies pairs@[i].0
                < pairs@[j].0 by {
                assert(keys[i].cmp_spec(&keys[j]) is Less);
                assert(keys[i] == pairs@[i].0 && keys[j] == pairs@[j].0);
            }
            assert forall|value: i32| #[trigger] self@.contains_key(value) implies pairs@.contains(
                (value, self@[value]),
            ) by {
                assert(sorted.contains((&value, &self@[value])));
                let i = choose|i: int|
                    0 <= i < sorted.len() && sorted[i] == (&value, &self@[value]);
                assert(pairs@[i] == (value, self@[value]));
            }
        }
        pairs
    }
}

impl Default for HistogramSamples {
    fn default() -> (samples: Self)
        ensures
            samples@ == Map::<i32, i32>::empty(),
    {
        HistogramSamples { samples: BTreeMap::new() }
    }
}

/// The logged histograms.
#[derive(Debug, Clone)]
pub struct Histograms {
    pub on_volume_change: HistogramSamples,
    pub decrease_rate: HistogramSamples,
    pub decrease_average: HistogramSamples,
    pub increase_rate: HistogramSamples,
    pub increase_average: HistogramSamples,
    pub update_rate: HistogramSamples,
    pub update_average: HistogramSamples,
}

impl Histograms {
    pub open spec fn counts_below(&self, limit: int) -> bool {
        &&& counts_below(self.on_volume_change@, limit)
        &&& counts_below(self.decrease_rate@, limit)
        &&& counts_below(self.decrease_average@, limit)
        &&& counts_below(self.increase_rate@, limit)
        &&& counts_below(self.increase_average@, limit)
        &&& counts_below(self.update_rate@, limit)
        &&& counts_below(self.update_average@, limit)
    }

    pub open spec fn is_empty(&self) -> bool {
        &&& self.on_volume_change@ == Map::<i32, i32>::empty()
        &&& self.decrease_rate@ == Map::<i32, i32>::empty()
        &&& self.decrease_average@ == Map::<i32, i32>::empty()
        &&& self.increase_rate@ == Map::<i32, i32>::empty()
        &&& self.increase_average@ == Map::<i32, i32>::empty()
        &&& self.update_rate@ == Map::<i32, i32>::empty()
        &&& self.update_average@ == Map::<i32, i32>::empty()
    }

    /// What the end of a logging period with the changes `stats` adds: the
    /// number of changes, and their average if there were any.
    pub open spec fn logged(&self, stats: VolumeUpdateStats, after: Histograms) -> bool {
        let updates = (stats.num_decreases + stats.num_increases) as i32;
        let total = stats.sum_decreases + stats.sum_increases;
        &&& after.decrease_rate@ == counted(self.decrease_rate@, stats.num_decreases)
        &&& after.decrease_average@ == counted_if(
            self.decrease_average@,
            stats.num_decreases > 0,
            average(stats.sum_decreases as int, stats.num_decreases as int) as i32,
        )
        &&& after.increase_rate@ == counted(self.increase_rate@, stats.num_increases)
        &&& after.increase_average@ == counted_if(
            self.increase_average@,
            stats.num_increases > 0,
            average(stats.sum_increases as int, stats.num_increases as int) as i32,
        )
        &&& after.update_rate@ == counted(self.update_rate@, updates)
        &&& after.update_average@ == counted_if(
            self.update_average@,
            updates > 0,
            average(total, updates as int) as i32,
        )
    }

    /// All histograms but the one of the volumes are the same.
    pub open spec fn same_averages(&self, after: Histograms) -> bool {
        &&& after.decrease_rate@ == self.decrease_rate@
        &&& after.decrease_average@ == self.decrease_average@
        &&& after.increase_rate@ == self.increase_rate@
        &&& after.increase_average@ == self.increase_average@
        &&& after.update_rate@ == self.update_rate@
        &&& after.update_average@ == self.update_average@
    }
}

impl Default for Histograms {
    fn default() -> (histograms: Self)
        ensures
            histograms.is_empty(),
    {
        Histograms {
            on_volume_change: HistogramSamples::default(),
            decrease_rate: HistogramSamples::default(),
            decrease_average: HistogramSamples::default(),
            increase_rate: HistogramSamples::default(),
            increase_average: HistogramSamples::default(),
            update_rate: HistogramSamples::default(),
            update_average: HistogramSamples::default(),
        }
    }
}

/// The mean change, rounded to the nearest integer, a half upwards; zero when
/// there was no change.
pub open spec fn average(sum_updates: int, num_updates: int) -> int {
    if num_updates == 0 {
        0
    } else {
        (2 * sum_updates + num_updates) / (2 * num_updates)
    }
}

pub fn compute_average_update(sum_updates: i32, num_updates: i32) -> (mean: i32)
    requires
        0 <= sum_updates <= MAX_UPDATE * FRAMES_IN_60_SECONDS,
        0 <= num_updates <= FRAMES_IN_60_SECONDS,
    ensures
        mean == average(sum_updates as int, num_updates as int),
{
    if num_updates == 0 {
        return 0;
    }
    (2 * sum_updates + num_updates) / (2 * num_updates)
}

/// The changes in a period once the volume has gone from `previous` to `volume`.
pub open spec fn with_change(
    stats: VolumeUpdateStats,
    previous: Option<i32>,
    volume: i32,
) -> VolumeUpdateStats {
    match previous {
        Some(p) => if volume < p {
            VolumeUpdateStats {
                num_decreases: (stats.num_decreases + 1) as i32,
                sum_decreases: (stats.sum_decreases + (p - volume)) as i32,
                ..stats
            }
        } else if volume > p {
            VolumeUpdateStats {
                num_increases: (stats.num_increases + 1) as i32,
                sum_increases: (stats.sum_increases + (volume - p)) as i32,
                ..stats
            }
        } else {
            stats
        },
        None => stats,
    }
}

/// Collects the statistics of one kind of input volume.
pub struct InputVolumeStatsReporter {
    volume_update_stats: VolumeUpdateStats,
    histograms: Histograms,
    log_volume_update_stats_counter: i32,
    previous_input_volume: Option<i32>,
    input_volume_type: InputVolumeType,
}

impl InputVolumeStatsReporter {
    /// At most one change per frame of the period, each within the volume range.
    pub closed spec fn inv(&self) -> bool {
        let stats = self.volume_update_stats;
        &&& 0 <= self.log_volume_update_stats_counter < FRAMES_IN_60_SECONDS
        &&& 0 <= stats.num_decreases
        &&& 0 <= stats.num_increases
        &&& stats.num_decreases + stats.num_increases <= self.log_volume_update_stats_counter
        &&& 0 <= stats.sum_decreases <= MAX_UPDATE * stats.num_decreases
        &&& 0 <= stats.sum_increases <= MAX_UPDATE * stats.num_increases
        &&& self.previous_input_volume matches Some(volume) ==> MIN_INPUT_VOLUME <= volume
            <= MAX_INPUT_VOLUME
    }

    pub closed spec fn stats(&self) -> VolumeUpdateStats {
        self.volume_update_stats
    }

    pub closed spec fn logged(&self) -> Histograms {
        self.histograms
    }

    /// Frames since the start of the logging period.
    pub closed spec fn frames(&self) -> int {
        self.log_volume_update_stats_counter as int
    }

    pub closed spec fn previous(&self) -> Option<i32> {
        self.previous_input_volume
    }

    pub closed spec fn volume_type(&self) -> InputVolumeType {
        self.input_volume_type
    }

    pub fn new(input_volume_type: InputVolumeType) -> (reporter: Self)
        ensures
            reporter.inv(),
            reporter.stats() == no_updates(),
            reporter.logged().is_empty(),
            reporter.frames() == 0,
            reporter.previous() is None,
            reporter.volume_type() == input_volume_type,
    {
        InputVolumeStatsReporter {
            volume_update_stats: VolumeUpdateStats::default(),
            histograms: Histograms::default(),
            log_volume_update_stats_counter: 0,
            previous_input_volume: None,
            input_volume_type,
        }
    }

    /// Whether `after` is `before` once the volume of one frame was taken in.
    pub open spec fn follows(before: Self, after: Self, input_volume: i32) -> bool {
        let stats = with_change(before.stats(), before.previous(), input_volume);
        &&& after.volume_type() == before.volume_type()
        &&& after.previous() == Some(input_volume)
        &&& after.logged().on_volume_change@ == counted_if(
            before.logged().on_volume_change@,
            before.previous() is Some && before.previous() != Some(input_volume),
            input_volume,
        )
        &&& before.frames() + 1 < FRAMES_IN_60_SECONDS ==> {
            &&& after.frames() == before.frames() + 1
            &&& after.stats() == stats
            &&& before.logged().same_averages(after.logged())
        }
        &&& before.frames() + 1 == FRAMES_IN_60_SECONDS ==> {
            &&& after.frames() == 0
            &&& after.stats() == no_updates()
            &&& before.logged().logged(stats, after.logged())
        }
    }

    /// Whether the reporters follow each other by the volumes of frames, the first one
    /// being new.
    pub open spec fn is_run(reporters: Seq<Self>, volumes: Seq<i32>) -> bool {
        &&& reporters.len() == volumes.len() + 1
        &&& reporters[0].stats() == no_updates()
        &&& reporters[0].logged().is_empty()
        &&& reporters[0].frames() == 0
        &&& reporters[0].previous() is None
        &&& reporters[0].inv()
        &&& volumes.len() < i32::MAX
        &&& forall|n: int|
            0 <= n < volumes.len() ==> {
                &&& #[trigger] Self::follows(reporters[n], reporters[n + 1], volumes[n])
                &&& MIN_INPUT_VOLUME <= volumes[n] <= MAX_INPUT_VOLUME
            }
    }

    /// After any frames, one more with any volume can be taken in.
    pub proof fn law_any_volume_can_follow(reporters: Seq<Self>, volumes: Seq<i32>)
        requires
            Self::is_run(reporters, volumes),
        ensures
            reporters.last().inv(),
            reporters.last().logged().counts_below(i32::MAX as int),
    {
        Self::lemma_counts(reporters, volumes, volumes.len() as int);
    }

    proof fn lemma_counts(reporters: Seq<Self>, volumes: Seq<i32>, n: int)
        requires
            Self::is_run(reporters, volumes),
            0 <= n < reporters.len(),
        ensures
            reporters[n].inv(),
            reporters[n].logged().counts_below(n + 1),
        decreases n,
    {
        if n > 0 {
            Self::lemma_counts(reporters, volumes, n - 1);
            assert(Self::follows(reporters[n - 1], reporters[n - 1 + 1], volumes[n - 1]));
        }
    }

    /// The volume at the start of the period that `n` frames end in.
    pub open spec fn volume_before_period(volumes: Seq<i32>, n: int) -> i32 {
        let start = n - n % FRAMES_IN_60_SECONDS as int;
        if start == 0 {
            volumes[0]
        } else {
            volumes[start - 1]
        }
    }

    /// The increases of the period less its decreases are the change of the volume since
    /// its start.
    pub proof fn law_changes_add_up(reporters: Seq<Self>, volumes: Seq<i32>)
        requires
            Self::is_run(reporters, volumes),
            volumes.len() > 0,
        ensures
            reporters.last().stats().sum_increases - reporters.last().stats().sum_decreases
                == volumes.last() - Self::volume_before_period(volumes, volumes.len() as int),
    {
        Self::lemma_changes_add_up(reporters, volumes, volumes.len() as int);
    }

    proof fn lemma_changes_add_up(reporters: Seq<Self>, volumes: Seq<i32>, n: int)
        requires
            Self::is_run(reporters, volumes),
            0 < n < reporters.len(),
        ensures
            reporters[n].frames() == n % 6000,
            reporters[n].previous() == Some(volumes[n - 1]),
            reporters[n].stats().sum_increases - reporters[n].stats().sum_decreases == volumes[n
                - 1] - Self::volume_before_period(volumes, n),
        decreases n,
    {
        Self::lemma_counts(reporters, volumes, n - 1);
        assert(Self::follows(reporters[n - 1], reporters[n - 1 + 1], volumes[n - 1]));
        if n > 1 {
            Self::lemma_changes_add_up(reporters, volumes, n - 1);
        }
    }

    /// Every full period adds one sample to each histogram of rates; before the first
    /// one ends, no rate and no average is logged.
    pub proof fn law_one_rate_per_period(reporters: Seq<Self>, volumes: Seq<i32>)
        requires
            Self::is_run(reporters, volumes),
        ensures
            ({
                let logged = reporters.last().logged();
                let periods = volumes.len() / FRAMES_IN_60_SECONDS as nat;
                let limit = (FRAMES_IN_60_SECONDS + 1) as nat;
                &&& are_up_to(logged.decrease_rate@, FRAMES_IN_60_SECONDS)
                &&& are_up_to(logged.increase_rate@, FRAMES_IN_60_SECONDS)
                &&& are_up_to(logged.update_rate@, FRAMES_IN_60_SECONDS)
                &&& num_samples(logged.decrease_rate@, limit) == periods
                &&& num_samples(logged.increase_rate@, limit) == periods
                &&& num_samples(logged.update_rate@, limit) == periods
                &&& volumes.len() < FRAMES_IN_60_SECONDS ==> reporters[0].logged().same_averages(
                    logged,
                )
            }),
    {
        Self::lemma_periods(reporters, volumes, volumes.len() as int);
    }

    proof fn lemma_periods(reporters: Seq<Self>, volumes: Seq<i32>, n: int)
        requires
            Self::is_run(reporters, volumes),
            0 <= n < reporters.len(),
        ensures
            ({
                let logged = reporters[n].logged();
                let limit = (FRAMES_IN_60_SECONDS + 1) as nat;
                &&& reporters[n].frames() == n % 6000
                &&& are_up_to(logged.decrease_rate@, FRAMES_IN_60_SECONDS)
                &&& are_up_to(logged.increase_rate@, FRAMES_IN_60_SECONDS)
                &&& are_up_to(logged.update_rate@, FRAMES_IN_60_SECONDS)
                &&& num_samples(logged.decrease_rate@, limit) == n / 6000
                &&& num_samples(logged.increase_rate@, limit) == n / 6000
                &&& num_samples(logged.update_rate@, limit) == n / 6000
                &&& n < 6000 ==> reporters[0].logged().same_averages(logged)
            }),
        decreases n,
    {
        let limit = (FRAMES_IN_60_SECONDS + 1) as nat;
        if n == 0 {
            lemma_no_samples(reporters[0].logged().decrease_rate@, limit);
        } else {
            Self::lemma_periods(reporters, volumes, n - 1);
            let before = reporters[n - 1];
            let logged = before.logged();
            assert(Self::follows(reporters[n - 1], reporters[n - 1 + 1], volumes[n - 1]));
            Self::lemma_counts(reporters, volumes, n - 1);
            if (n - 1) % 6000 == 5999 {
                let stats = with_change(before.stats(), before.previous(), volumes[n - 1]);
                let updates = (stats.num_decreases + stats.num_increases) as i32;
                lemma_num_samples_counted(logged.decrease_rate@, stats.num_decreases, limit);
                lemma_num_samples_counted(logged.increase_rate@, stats.num_increases, limit);
                lemma_num_samples_counted(logged.update_rate@, updates, limit);
            }
        }
    }

    /// Each volume is counted as often as the volume changed to it.
    pub proof fn law_changes_are_counted(reporters: Seq<Self>, volumes: Seq<i32>, volume: i32)
        requires
            Self::is_run(reporters, volumes),
        ensures
            count_in(reporters.last().logged().on_volume_change@, volume) == num_changes_to(
                volumes,
                volume,
            ),
    {
        Self::lemma_changes(reporters, volumes, volume, volumes.len() as int);
        assert(volumes.take(volumes.len() as int) =~= volumes);
    }

    proof fn lemma_changes(reporters: Seq<Self>, volumes: Seq<i32>, volume: i32, n: int)
        requires
            Self::is_run(reporters, volumes),
            0 <= n < reporters.len(),
        ensures
            reporters[n].previous() == (if n == 0 {
                None
            } else {
                Some(volumes[n - 1])
            }),
            count_in(reporters[n].logged().on_volume_change@, volume) == num_changes_to(
                volumes.take(n),
                volume,
            ),
        decreases n,
    {
        if n > 0 {
            Self::lemma_changes(reporters, volumes, volume, n - 1);
            Self::lemma_counts(reporters, volumes, n - 1);
            assert(Self::follows(reporters[n - 1], reporters[n - 1 + 1], volumes[n - 1]));
            assert(volumes.take(n).drop_last() =~= volumes.take(n - 1));
        }
    }

    /// Takes in the volume of one frame. The last frame of a period logs the
    /// changes of the period and starts the next one.
    pub fn update_statistics(&mut self, input_volume: i32)
        requires
            old(self).inv(),
            MIN_INPUT_VOLUME <= input_volume <= MAX_INPUT_VOLUME,
            old(self).logged().counts_below(i32::MAX as int),
        ensures
            final(self).inv(),
            Self::follows(*old(self), *final(self), input_volume),
            old(self).frames() < FRAMES_IN_60_SECONDS,
    {
        if let Some(previous) = self.previous_input_volume {
            if input_volume != previous {
                self.histograms.on_volume_change.add(input_volume);
                let volume_change: i32 = input_volume - previous;
                if volume_change < 0 {
                    self.volume_update_stats.num_decreases =
                    self.volume_update_stats.num_decreases + 1;
                    self.volume_update_stats.sum_decreases =
                    self.volume_update_stats.sum_decreases - volume_change;
                } else {
                    self.volume_update_stats.num_increases =
                    self.volume_update_stats.num_increases + 1;
                    self.volume_update_stats.sum_increases =
                    self.volume_update_stats.sum_increases + volume_change;
                }
            }
        }
        self.log_volume_update_stats_counter = self.log_volume_update_stats_counter + 1;
        if self.log_volume_update_stats_counter >= FRAMES_IN_60_SECONDS {
            self.log_volume_update_stats();
            self.volume_update_stats = VolumeUpdateStats::default();
            self.log_volume_update_stats_counter = 0;
        }
        self.previous_input_volume = Some(input_volume);
    }

    /// Logs the changes of the period.
    fn log_volume_update_stats(&mut self)
        requires
            0 <= old(self).stats().num_decreases,
            0 <= old(self).stats().num_increases,
            old(self).stats().num_decreases + old(self).stats().num_increases
                <= FRAMES_IN_60_SECONDS,
            0 <= old(self).stats().sum_decreases <= MAX_UPDATE * old(self).stats().num_decreases,
            0 <= old(self).stats().sum_increases <= MAX_UPDATE * old(self).stats().num_increases,
            counts_below(old(self).logged().decrease_rate@, i32::MAX as int),
            counts_below(old(self).logged().decrease_average@, i32::MAX as int),
            counts_below(old(self).logged().increase_rate@, i32::MAX as int),
            counts_below(old(self).logged().increase_average@, i32::MAX as int),
            counts_below(old(self).logged().update_rate@, i32::MAX as int),
            counts_below(old(self).logged().update_average@, i32::MAX as int),
        ensures
            final(self).stats() == old(self).stats(),
            final(self).frames() == old(self).frames(),
            final(self).previous() == old(self).previous(),
            final(self).volume_type() == old(self).volume_type(),
            final(self).logged().on_volume_change@ == old(self).logged().on_volume_change@,
            old(self).logged().logged(old(self).stats(), final(self).logged()),
    {
        let stats = self.volume_update_stats;
        self.histograms.decrease_rate.add(stats.num_decreases);
        if stats.num_decreases > 0 {
            let average_decrease: i32 = compute_average_update(
                stats.sum_decreases,
                stats.num_decreases,
            );
            self.histograms.decrease_average.add(average_decrease);
        }
        self.histograms.increase_rate.add(stats.num_increases);
        if stats.num_increases > 0 {
            let average_increase: i32 = compute_average_update(
                stats.sum_increases,
                stats.num_increases,
            );
            self.histograms.increase_average.add(average_increase);
        }
        let num_updates: i32 = stats.num_decreases + stats.num_increases;
        self.histograms.update_rate.add(num_updates);
        if num_updates > 0 {
            let average_update: i32 = compute_average_update(
                stats.sum_decreases + stats.sum_increases,
                num_updates,
            );
            self.histograms.update_average.add(average_update);
        }
    }

    pub fn volume_update_stats(&self) -> (stats: VolumeUpdateStats)
        ensures
            stats == self.stats(),
    {
        self.volume_update_stats
    }

    pub fn histograms(&self) -> (histograms: &Histograms)
        ensures
            *histograms == self.logged(),
    {
        &self.histograms
    }
}

/// Logs a recommended volume that was changed to match the target level.
pub fn update_histogram_on_recommended_input_volume_change_to_match_target(
    samples: &mut HistogramSamples,
    volume: i32,
)
    requires
        1 <= volume <= MAX_INPUT_VOLUME,
        counts_below(old(samples)@, i32::MAX as int),
    ensures
        final(samples)@ == counted(old(samples)@, volume),
{
    samples.add(volume);
}

/// The mean change times the number of changes is off their sum by at most half of that
/// number, upwards where it is a half.
pub proof fn law_average_is_nearest(sum_updates: int, num_updates: int)
    requires
        0 < num_updates,
    ensures
        -num_updates < 2 * (num_updates * average(sum_updates, num_updates)) - 2 * sum_updates
            <= num_updates,
{
    let d = 2 * num_updates;
    let a = 2 * sum_updates + num_updates;
    let q = average(sum_updates, num_updates);
    vstd::arithmetic::div_mod::lemma_fundamental_div_mod(a, d);
    vstd::arithmetic::div_mod::lemma_mod_bound(a, d);
    assert(d * q == 2 * (num_updates * q)) by (nonlinear_arith)
        requires
            d == 2 * num_updates,
    ;
}

/// A change counts once, as a decrease or an increase by how far it goes; a volume that
/// stays, or is the first one, does not count.
pub proof fn law_change_counts_once(stats: VolumeUpdateStats, previous: Option<i32>, volume: i32)
    requires
        0 <= stats.num_decreases < 6000,
        0 <= stats.num_increases < 6000,
        0 <= stats.sum_decreases <= 6000 * 255,
        0 <= stats.sum_increases <= 6000 * 255,
        0 <= volume <= 255,
        previous matches Some(p) ==> 0 <= p <= 255,
    ensures
        ({
            let after = with_change(stats, previous, volume);
            &&& previous is None || previous == Some(volume) ==> after == stats
            &&& (previous matches Some(p) ==> {
                &&& volume < p ==> after.num_decreases == stats.num_decreases + 1
                    && after.sum_decreases == stats.sum_decreases + p - volume
                    && after.num_increases == stats.num_increases && after.sum_increases
                    == stats.sum_increases
                &&& volume > p ==> after.num_increases == stats.num_increases + 1
                    && after.sum_increases == stats.sum_increases + volume - p
                    && after.num_decreases == stats.num_decreases && after.sum_decreases
                    == stats.sum_decreases
            })
        }),
{
}

/// The mean change lies between zero and the widest possible one.
pub proof fn law_average_within_range(sum_updates: int, num_updates: int)
    requires
        0 <= num_updates,
        0 <= sum_updates <= MAX_UPDATE * num_updates,
    ensures
        0 <= average(sum_updates, num_updates) <= MAX_UPDATE,
{
    if num_updates > 0 {
        let n = 2 * num_updates;
        let s = 2 * sum_updates + num_updates;
        assert(0 <= s / n <= 255) by (nonlinear_arith)
            requires
                n > 0,
                0 <= s < 256 * n,
        ;
    }
}

} // verus!
