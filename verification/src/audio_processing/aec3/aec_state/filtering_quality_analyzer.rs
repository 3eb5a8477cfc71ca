//! Judges whether the output of the linear filter can be used.
use crate::api::config::EchoCanceller3Config;
use crate::audio_processing::aec3::delay_estimate::DelayEstimate;
use vstd::prelude::*;

verus! {

/// Filter updates since the start beyond which the filter may have converged.
pub const BLOCKS_TO_CONVERGE_AT_STARTUP: usize = 100;

/// Filter updates since a reset beyond which the filter may have converged.
pub const BLOCKS_TO_CONVERGE_AT_RESET: usize = 50;

/// What is known of a block.
pub struct FilterBlock {
    pub active_render: bool,
    pub transparent_mode: bool,
    pub saturated_capture: bool,
    pub external_delay: Option<DelayEstimate>,
    pub any_filter_converged: bool,
}

impl FilterBlock {
    /// One if the filters are updated in the block.
    pub open spec fn updates(self) -> nat {
        if self.active_render && !self.saturated_capture {
            1
        } else {
            0
        }
    }
}

/// How many of the blocks updated the filters, where `None` stands for a reset.
pub open spec fn num_updates(events: Seq<Option<FilterBlock>>) -> nat
    decreases events.len(),
{
    if events.len() == 0 {
        0
    } else {
        num_updates(events.drop_last()) + match events.last() {
            Some(block) => block.updates(),
            None => 0,
        }
    }
}

/// How many of the blocks since the last reset updated the filters.
pub open spec fn num_updates_since_reset(events: Seq<Option<FilterBlock>>) -> nat
    decreases events.len(),
{
    if events.len() == 0 {
        0
    } else {
        match events.last() {
            Some(block) => num_updates_since_reset(events.drop_last()) + block.updates(),
            None => 0,
        }
    }
}

/// Whether a filter had converged in one of the blocks.
pub open spec fn has_converged(events: Seq<Option<FilterBlock>>) -> bool {
    exists|i: int|
        0 <= i < events.len() && (#[trigger] events[i] matches Some(block)
            && block.any_filter_converged)
}

/// State of the judgement, over all capture channels and for each.
pub struct FilteringQualityAnalyzer {
    use_linear_filter: bool,
    overall_usable_linear_estimates: bool,
    filter_update_blocks_since_reset: usize,
    filter_update_blocks_since_start: usize,
    convergence_seen: bool,
    usable_linear_filter_estimates: Vec<bool>,
}

impl FilteringQualityAnalyzer {
    pub closed spec fn uses_filter(&self) -> bool {
        self.use_linear_filter
    }

    pub closed spec fn usable(&self) -> bool {
        self.overall_usable_linear_estimates
    }

    pub closed spec fn blocks_since_reset(&self) -> nat {
        self.filter_update_blocks_since_reset as nat
    }

    pub closed spec fn blocks_since_start(&self) -> nat {
        self.filter_update_blocks_since_start as nat
    }

    pub closed spec fn converged(&self) -> bool {
        self.convergence_seen
    }

    /// Whether the output is usable, per capture channel.
    pub closed spec fn outputs(&self) -> Seq<bool> {
        self.usable_linear_filter_estimates@
    }

    /// No output is usable unless the linear filter is used and judged usable.
    pub closed spec fn inv(&self) -> bool {
        &&& self.filter_update_blocks_since_reset <= self.filter_update_blocks_since_start
        &&& forall|i: int|
            0 <= i < self.usable_linear_filter_estimates@.len() ==> (
            #[trigger] self.usable_linear_filter_estimates@[i]) == (self.use_linear_filter
                && self.overall_usable_linear_estimates)
    }

    pub fn new(config: &EchoCanceller3Config, num_capture_channels: usize) -> (analyzer: Self)
        ensures
            analyzer.inv(),
            analyzer.uses_filter() == config.filter.use_linear_filter,
            !analyzer.usable(),
            analyzer.blocks_since_reset() == 0,
            analyzer.blocks_since_start() == 0,
            !analyzer.converged(),
            analyzer.outputs() == Seq::new(num_capture_channels as nat, |i: int| false),
    {
        let analyzer = FilteringQualityAnalyzer {
            use_linear_filter: config.filter.use_linear_filter,
            overall_usable_linear_estimates: false,
            filter_update_blocks_since_reset: 0,
            filter_update_blocks_since_start: 0,
            convergence_seen: false,
            usable_linear_filter_estimates: all_equal(num_capture_channels, false),
        };
        analyzer
    }

    /// Whether `after` is `before` after a reset.
    pub open spec fn is_reset(before: Self, after: Self) -> bool {
        &&& after.uses_filter() == before.uses_filter()
        &&& !after.usable()
        &&& after.blocks_since_reset() == 0
        &&& after.blocks_since_start() == before.blocks_since_start()
        &&& after.converged() == before.converged()
        &&& after.outputs() == Seq::new(before.outputs().len(), |i: int| false)
    }

    /// Whether `after` is `before` after a block.
    pub open spec fn is_updated(before: Self, after: Self, block: FilterBlock) -> bool {
        &&& after.uses_filter() == before.uses_filter()
        &&& after.blocks_since_reset() == before.blocks_since_reset() + block.updates()
        &&& after.blocks_since_start() == before.blocks_since_start() + block.updates()
        &&& after.converged() == (before.converged() || block.any_filter_converged)
        &&& after.usable() == ({
            &&& after.blocks_since_start() > BLOCKS_TO_CONVERGE_AT_STARTUP
            &&& after.blocks_since_reset() > BLOCKS_TO_CONVERGE_AT_RESET
            &&& block.external_delay is Some || after.converged()
            &&& !block.transparent_mode
        })
        &&& after.outputs() == Seq::new(
            before.outputs().len(),
            |i: int| after.uses_filter() && after.usable(),
        )
    }

    /// Whether `after` is `before` after a block, or after a reset for `None`.
    pub open spec fn follows(before: Self, after: Self, event: Option<FilterBlock>) -> bool {
        match event {
            Some(block) => Self::is_updated(before, after, block),
            None => Self::is_reset(before, after),
        }
    }

    /// A block with active render that does not saturate the capture counts, and no other
    /// one. The output is usable after more than a hundred such blocks in all and more than
    /// fifty since a reset, with a known delay or a filter that ever converged, and not in
    /// transparent mode.
    pub proof fn law_usable(before: Self, after: Self, block: FilterBlock)
        requires
            Self::is_updated(before, after, block),
        ensures
            block.active_render && !block.saturated_capture ==> after.blocks_since_start()
                == before.blocks_since_start() + 1 && after.blocks_since_reset()
                == before.blocks_since_reset() + 1,
            !block.active_render || block.saturated_capture ==> after.blocks_since_start()
                == before.blocks_since_start() && after.blocks_since_reset()
                == before.blocks_since_reset(),
            block.any_filter_converged ==> after.converged(),
            !block.any_filter_converged ==> after.converged() == before.converged(),
            after.usable() <==> after.blocks_since_start() > 100 && after.blocks_since_reset() > 50
                && (block.external_delay is Some || after.converged()) && !block.transparent_mode,
            forall|i: int|
                0 <= i < before.outputs().len() ==> #[trigger] after.outputs()[i] == (
                before.uses_filter() && after.usable()),
    {
    }

    /// The output is usable exactly if the last thing that happened was a block, not in
    /// transparent mode, there were enough filter updates in all and since the last
    /// reset, and a delay is known or a filter has ever converged.
    pub proof fn law_usable_by_history(
        analyzers: Seq<Self>,
        events: Seq<Option<FilterBlock>>,
        n: int,
    )
        requires
            !analyzers[0].usable(),
            analyzers[0].blocks_since_start() == 0,
            analyzers[0].blocks_since_reset() == 0,
            !analyzers[0].converged(),
            0 <= n <= events.len(),
            forall|i: int|
                0 <= i < events.len() ==> #[trigger] Self::follows(
                    analyzers[i],
                    analyzers[i + 1],
                    events[i],
                ),
        ensures
            analyzers[n].blocks_since_start() == num_updates(events.take(n)),
            analyzers[n].blocks_since_reset() == num_updates_since_reset(events.take(n)),
            analyzers[n].converged() == has_converged(events.take(n)),
            analyzers[n].usable() == ({
                &&& n > 0
                &&& events[n - 1] matches Some(block)
                &&& num_updates(events.take(n)) > BLOCKS_TO_CONVERGE_AT_STARTUP
                &&& num_updates_since_reset(events.take(n)) > BLOCKS_TO_CONVERGE_AT_RESET
                &&& block.external_delay is Some || has_converged(events.take(n))
                &&& !block.transparent_mode
            }),
        decreases n,
    {
        if n > 0 {
            Self::law_usable_by_history(analyzers, events, n - 1);
            assert(Self::follows(analyzers[n - 1], analyzers[n - 1 + 1], events[n - 1]));
            let before = events.take(n - 1);
            let now = events.take(n);
            assert(now.drop_last() =~= before);
            assert(now[n - 1] == events[n - 1]);
            if has_converged(before) {
                let i = choose|i: int|
                    0 <= i < before.len() && (#[trigger] before[i] matches Some(block)
                        && block.any_filter_converged);
                assert(now[i] == before[i]);
            }
            if has_converged(now) && !has_converged(before) {
                let i = choose|i: int|
                    0 <= i < now.len() && (#[trigger] now[i] matches Some(block)
                        && block.any_filter_converged);
                if i < n - 1 {
                    assert(before[i] == now[i]);
                }
            }
        }
    }

    /// Forgets the updates since the last reset, not those since the start nor
    /// that a filter has converged.
    pub fn reset(&mut self)
        requires
            old(self).inv(),
        ensures
            final(self).inv(),
            Self::is_reset(*old(self), *final(self)),
    {
        let num_channels: usize = self.usable_linear_filter_estimates.len();
        self.usable_linear_filter_estimates = all_equal(num_channels, false);
        self.overall_usable_linear_estimates = false;
        self.filter_update_blocks_since_reset = 0;
    }

    /// The output is usable after enough filter updates since the start and
    /// since the last reset, once a delay is known or a filter has converged,
    /// and not in transparent mode.
    pub fn update(
        &mut self,
        active_render: bool,
        transparent_mode: bool,
        saturated_capture: bool,
        external_delay: Option<DelayEstimate>,
        any_filter_converged: bool,
    )
        requires
            old(self).inv(),
            old(self).blocks_since_start() < usize::MAX,
        ensures
            final(self).inv(),
            Self::is_updated(
                *old(self),
                *final(self),
                (FilterBlock {
                    active_render,
                    transparent_mode,
                    saturated_capture,
                    external_delay,
                    any_filter_converged,
                }),
            ),
    {
        let filter_update = active_render && !saturated_capture;
        if filter_update {
            self.filter_update_blocks_since_reset = self.filter_update_blocks_since_reset + 1;
            self.filter_update_blocks_since_start = self.filter_update_blocks_since_start + 1;
        }
        if any_filter_converged {
            self.convergence_seen = true;
        }
        let sufficient_data_to_converge_at_startup = self.filter_update_blocks_since_start
            > BLOCKS_TO_CONVERGE_AT_STARTUP;
        let sufficient_data_to_converge_at_reset = sufficient_data_to_converge_at_startup
            && self.filter_update_blocks_since_reset > BLOCKS_TO_CONVERGE_AT_RESET;
        self.overall_usable_linear_estimates = sufficient_data_to_converge_at_startup
            && sufficient_data_to_converge_at_reset && (external_delay.is_some()
            || self.convergence_seen) && !transparent_mode;
        let num_channels: usize = self.usable_linear_filter_estimates.len();
        if self.use_linear_filter {
            self.usable_linear_filter_estimates = all_equal(
                num_channels,
                self.overall_usable_linear_estimates,
            );
        }
        assert(self.outputs() =~= Seq::new(
            num_channels as nat,
            |i: int| self.uses_filter() && self.usable(),
        ));
    }

    pub fn linear_filter_usable(&self) -> (usable: bool)
        ensures
            usable == self.usable(),
    {
        self.overall_usable_linear_estimates
    }

    pub fn usable_linear_filter_outputs(&self) -> (outputs: &[bool])
        ensures
            outputs@ == self.outputs(),
    {
        self.usable_linear_filter_estimates.as_slice()
    }
}

/// A vector of equal flags.
fn all_equal(len: usize, flag: bool) -> (flags: Vec<bool>)
    ensures
        flags@ == Seq::new(len as nat, |i: int| flag),
{
    let flags: Vec<bool> = vec![flag;len];
    assert(flags@ =~= Seq::new(len as nat, |i: int| flag));
    flags
}

} // verus!
