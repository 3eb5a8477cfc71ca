//! State of the echo canceller: which estimates can be used, and when.
pub mod avg_render_reverb;
pub mod filter_delay;
pub mod filtering_quality_analyzer;
pub mod initial_state;
pub mod saturation_detector;
pub mod transparent_mode;

use crate::api::config::EchoCanceller3Config;
use crate::audio_processing::aec3::aec3_common::BLOCK_SIZE;
use crate::audio_processing::aec3::aec_state::filter_delay::{
    is_min_delay, FilterDelay, BLOCKS_TO_CONVERGE,
};
use crate::audio_processing::aec3::aec_state::filtering_quality_analyzer::{
    FilteringQualityAnalyzer, BLOCKS_TO_CONVERGE_AT_RESET, BLOCKS_TO_CONVERGE_AT_STARTUP,
};
use crate::audio_processing::aec3::aec_state::initial_state::{
    InitialState, CONSERVATIVE_INITIAL_BLOCKS,
};
use crate::audio_processing::aec3::aec_state::saturation_detector::{
    echo_saturates, EchoEstimatePeaks, SaturationDetector, SaturationParameters,
};
use crate::audio_processing::aec3::aec_state::transparent_mode::{
    FilterObservation, HmmParameters, TransparentMode,
};
use crate::audio_processing::aec3::delay_estimate::DelayEstimate;
use crate::audio_processing::aec3::echo_path_variability::{DelayAdjustment, EchoPathVariability};
use crate::audio_processing::arithmetic::{
    energy, energy_of, is_functional, is_less, is_total, less, product, times, Real,
};
use vstd::prelude::*;

verus! {

/// Active render blocks beyond which the render counts as active.
pub const ACTIVE_RENDER_BLOCKS: usize = 200;

/// Strong render blocks after which the filter has had time to converge.
pub const CONVERGENCE_BLOCKS: usize = 200;

/// The same in a conservative initial phase.
pub const CONSERVATIVE_CONVERGENCE_BLOCKS: usize = 375;

/// What the signal analysis found in a block, aligned by the direct path delay.
pub struct BlockAnalysis<T: Real> {
    pub any_filter_converged: bool,
    pub any_coarse_filter_converged: bool,
    pub all_filters_diverged: bool,
    pub any_filter_consistent: bool,
    /// The aligned render channels.
    pub render_block: Vec<Vec<T>>,
    /// The peaks of the linear echo estimates of each capture channel.
    pub echo_estimates: Vec<EchoEstimatePeaks<T>>,
    pub max_echo_path_gain: T,
}

/// The numbers that the state works with.
#[derive(Debug, Clone, Copy)]
pub struct AecStateParameters<T: Real> {
    /// Level of a render channel beyond which it is active.
    pub active_render_limit: T,
    /// Number of samples in a channel of a block.
    pub block_length: T,
    pub hmm: HmmParameters<T>,
    pub saturation: SaturationParameters<T>,
}

/// Whether some render channel has more energy than the limit.
pub open spec fn render_is_active<T: Real>(p: AecStateParameters<T>, x: Seq<Vec<T>>) -> bool {
    exists|ch: int|
        0 <= ch < x.len() && less(
            times(times(p.active_render_limit, p.active_render_limit), p.block_length),
            energy((#[trigger] x[ch])@),
        )
}

/// A render block is active if any one of its channels has more energy than the square
/// of the limit times the block length, whichever channel it is, and it is not if none
/// has.
pub proof fn law_any_channel_activates<T: Real>(p: AecStateParameters<T>, x: Seq<Vec<T>>)
    ensures
        forall|ch: int|
            0 <= ch < x.len() && less(
                times(times(p.active_render_limit, p.active_render_limit), p.block_length),
                energy((#[trigger] x[ch])@),
            ) ==> render_is_active(p, x),
        (forall|ch: int|
            0 <= ch < x.len() ==> !less(
                times(times(p.active_render_limit, p.active_render_limit), p.block_length),
                energy((#[trigger] x[ch])@),
            )) ==> !render_is_active(p, x),
{
}

/// Render blocks with the same channels, in whatever order, are active together.
pub proof fn law_channel_order_is_free<T: Real>(
    p: AecStateParameters<T>,
    x: Seq<Vec<T>>,
    y: Seq<Vec<T>>,
)
    requires
        forall|ch: int| 0 <= ch < x.len() ==> y.contains(#[trigger] x[ch]),
        forall|ch: int| 0 <= ch < y.len() ==> x.contains(#[trigger] y[ch]),
    ensures
        render_is_active(p, x) == render_is_active(p, y),
{
    law_any_channel_activates(p, x);
    law_any_channel_activates(p, y);
    let limit = times(times(p.active_render_limit, p.active_render_limit), p.block_length);
    if render_is_active(p, x) {
        let ch = choose|ch: int| 0 <= ch < x.len() && less(limit, energy((#[trigger] x[ch])@));
        let other = choose|k: int| 0 <= k < y.len() && y[k] == x[ch];
        assert(y.contains(x[ch]));
        assert(less(limit, energy(y[other]@)));
    }
    if render_is_active(p, y) {
        let ch = choose|ch: int| 0 <= ch < y.len() && less(limit, energy((#[trigger] y[ch])@));
        let other = choose|k: int| 0 <= k < x.len() && x[k] == y[ch];
        assert(x.contains(y[ch]));
        assert(less(limit, energy(x[other]@)));
    }
}

/// One more channel never makes an active render block inactive, and makes an inactive
/// one active just if it has more energy than the limit itself.
pub proof fn law_more_channels<T: Real>(
    p: AecStateParameters<T>,
    x: Seq<Vec<T>>,
    ch: int,
    channel: Vec<T>,
)
    requires
        0 <= ch <= x.len(),
    ensures
        render_is_active(p, x) ==> render_is_active(p, x.insert(ch, channel)),
        render_is_active(p, x.insert(ch, channel)) == (render_is_active(p, x) || less(
            times(times(p.active_render_limit, p.active_render_limit), p.block_length),
            energy(channel@),
        )),
{
    let y = x.insert(ch, channel);
    law_any_channel_activates(p, x);
    law_any_channel_activates(p, y);
    let limit = times(times(p.active_render_limit, p.active_render_limit), p.block_length);
    assert(y[ch] == channel);
    if render_is_active(p, x) {
        let k = choose|k: int| 0 <= k < x.len() && less(limit, energy((#[trigger] x[k])@));
        assert(y[if k < ch {
            k
        } else {
            k + 1
        }] == x[k]);
    }
    if render_is_active(p, y) {
        let k = choose|k: int| 0 <= k < y.len() && less(limit, energy((#[trigger] y[k])@));
        if k != ch {
            assert(x[if k < ch {
                k
            } else {
                k - 1
            }] == y[k]);
        }
    }
}

fn is_render_active<T: Real>(p: &AecStateParameters<T>, x: &[Vec<T>]) -> (active: bool)
    requires
        is_total::<T>(),
    ensures
        is_functional::<T>() ==> active == render_is_active(*p, x@),
        is_functional::<T>() ==> forall|ch: int|
            0 <= ch < x@.len() && less(
                times(times(p.active_render_limit, p.active_render_limit), p.block_length),
                energy((#[trigger] x@[ch])@),
            ) ==> active,
{
    let limit = product(product(p.active_render_limit, p.active_render_limit), p.block_length);
    let mut ch: usize = 0;
    while ch < x.len()
        invariant
            is_total::<T>(),
            ch <= x@.len(),
            is_functional::<T>() ==> limit == times(
                times(p.active_render_limit, p.active_render_limit),
                p.block_length,
            ),
            is_functional::<T>() ==> forall|k: int|
                0 <= k < ch ==> !less(limit, energy((#[trigger] x@[k])@)),
        decreases x@.len() - ch,
    {
        if is_less(limit, energy_of(x[ch].as_slice())) {
            assert(is_functional::<T>() ==> less(limit, energy(x@[ch as int]@)));
            return true;
        }
        ch = ch + 1;
    }
    false
}

/// What the estimators are to do for a block.
#[derive(Debug, Clone, Copy, PartialEq, Eq, Structural)]
pub struct EstimatorActions {
    pub active_render: bool,
    /// The echo return loss enhancement starts over: the initial phase ended with
    /// the block before.
    pub reset_erle: bool,
    /// The echo audibility is to be updated.
    pub update_echo_audibility: bool,
}

/// What is to be reset after a change of the echo path.
#[derive(Debug, Clone, Copy, PartialEq, Eq, Structural)]
pub enum EstimatorReset {
    /// Filter analysis, echo return loss and its enhancement.
    Full,
    /// The echo return loss enhancement, keeping what a delay change would not.
    ErleOnly,
    Nothing,
}

/// State of the echo canceller.
pub struct AecState<T: Real> {
    config: EchoCanceller3Config,
    parameters: AecStateParameters<T>,
    num_capture_channels: usize,
    initial_state: InitialState,
    delay_state: FilterDelay,
    transparent_state: TransparentMode<T>,
    filter_quality_state: FilteringQualityAnalyzer,
    saturation_detector: SaturationDetector,
    strong_not_saturated_render_blocks: usize,
    blocks_with_active_render: usize,
    capture_signal_saturation: bool,
}

/// An event is counted, and nothing else is, until the count is the largest number.
pub proof fn law_events_are_counted(count: usize)
    ensures
        saturating_plus_if(count, false) == count,
        count < usize::MAX ==> saturating_plus_if(count, true) == count + 1,
        saturating_plus_if(usize::MAX, true) == usize::MAX,
{
}

/// One more block if `event`, up to the largest number.
pub open spec fn saturating_plus_if(count: usize, event: bool) -> int {
    if event && count < usize::MAX {
        count + 1
    } else {
        count as int
    }
}

impl<T: Real> AecState<T> {
    pub closed spec fn inv(&self) -> bool {
        &&& self.initial_state.inv()
        &&& self.delay_state.inv()
        &&& self.delay_state.delays().len() == self.num_capture_channels
        &&& self.delay_state.headroom() == self.config.delay.delay_headroom_samples
        &&& self.config.delay.delay_headroom_samples / BLOCK_SIZE <= i32::MAX
        &&& self.filter_quality_state.inv()
        &&& self.filter_quality_state.uses_filter() == self.config.filter.use_linear_filter
        &&& self.filter_quality_state.outputs().len() == self.num_capture_channels
    }

    pub closed spec fn settings(&self) -> EchoCanceller3Config {
        self.config
    }

    pub closed spec fn numbers(&self) -> AecStateParameters<T> {
        self.parameters
    }

    pub closed spec fn num_channels(&self) -> nat {
        self.num_capture_channels as nat
    }

    pub closed spec fn initial(&self) -> InitialState {
        self.initial_state
    }

    pub closed spec fn delay(&self) -> FilterDelay {
        self.delay_state
    }

    pub closed spec fn transparency(&self) -> TransparentMode<T> {
        self.transparent_state
    }

    pub closed spec fn quality(&self) -> FilteringQualityAnalyzer {
        self.filter_quality_state
    }

    pub closed spec fn echo_saturates(&self) -> bool {
        self.saturation_detector.saturated()
    }

    pub closed spec fn strong_blocks(&self) -> usize {
        self.strong_not_saturated_render_blocks
    }

    pub closed spec fn active_blocks(&self) -> usize {
        self.blocks_with_active_render
    }

    pub closed spec fn capture_saturates(&self) -> bool {
        self.capture_signal_saturation
    }

    /// Whether the linear filter is used and its output can be.
    pub open spec fn usable(&self) -> bool {
        self.quality().usable() && self.settings().filter.use_linear_filter
    }

    /// Whether another block can be counted.
    pub open spec fn has_room(&self) -> bool {
        &&& self.initial().blocks() < usize::MAX
        &&& self.quality().blocks_since_start() < usize::MAX
        &&& self.transparency().has_room()
    }

    pub fn new(
        config: EchoCanceller3Config,
        num_capture_channels: usize,
        parameters: AecStateParameters<T>,
    ) -> (state: Self)
        requires
            num_capture_channels > 0,
            config.delay.delay_headroom_samples / BLOCK_SIZE <= i32::MAX,
        ensures
            state.inv(),
            state.settings() == config,
            state.numbers() == parameters,
            state.num_channels() == num_capture_channels,
            state.initial().limit() == (if config.filter.conservative_initial_phase {
                CONSERVATIVE_INITIAL_BLOCKS
            } else {
                config.filter.initial_state_blocks
            }),
            state.initial().is_initial() && !state.initial().triggered()
                && state.initial().blocks() == 0,
            state.delay().delays() == Seq::new(num_capture_channels as nat, |i: int| 0i32),
            state.delay().min_delay() == 0,
            state.delay().external() is None,
            state.transparency().is_new(config, parameters.hmm),
            !state.transparency().is_active(),
            !state.quality().usable() && !state.quality().converged(),
            state.quality().blocks_since_start() == 0,
            state.quality().blocks_since_reset() == 0,
            state.quality().outputs() == Seq::new(num_capture_channels as nat, |i: int| false),
            !state.echo_saturates(),
            state.strong_blocks() == 0,
            state.active_blocks() == 0,
            !state.capture_saturates(),
            state.has_room(),
    {
        AecState {
            config,
            parameters,
            num_capture_channels,
            initial_state: InitialState::new(&config),
            delay_state: FilterDelay::new(&config, num_capture_channels),
            transparent_state: TransparentMode::new(&config, parameters.hmm),
            filter_quality_state: FilteringQualityAnalyzer::new(&config, num_capture_channels),
            saturation_detector: SaturationDetector::default(),
            strong_not_saturated_render_blocks: 0,
            blocks_with_active_render: 0,
            capture_signal_saturation: false,
        }
    }

    pub fn usable_linear_estimate(&self) -> (usable: bool)
        ensures
            usable == self.usable(),
    {
        self.filter_quality_state.linear_filter_usable() && self.config.filter.use_linear_filter
    }

    pub fn use_linear_filter_output(&self) -> (usable: bool)
        ensures
            usable == self.usable(),
    {
        self.usable_linear_estimate()
    }

    pub fn active_render(&self) -> (active: bool)
        ensures
            active == (self.active_blocks() > ACTIVE_RENDER_BLOCKS),
    {
        self.blocks_with_active_render > ACTIVE_RENDER_BLOCKS
    }

    /// Whether the filter has had time to converge, so that the residual echo is
    /// scaled by its audibility.
    pub fn filter_has_had_time_to_converge(&self) -> (result: bool)
        ensures
            result == (self.strong_blocks() >= if self.settings().filter.conservative_initial_phase {
                CONSERVATIVE_CONVERGENCE_BLOCKS
            } else {
                CONVERGENCE_BLOCKS
            }),
    {
        let limit_blocks: usize = if self.config.filter.conservative_initial_phase {
            CONSERVATIVE_CONVERGENCE_BLOCKS
        } else {
            CONVERGENCE_BLOCKS
        };
        self.strong_not_saturated_render_blocks >= limit_blocks
    }

    /// How uncertain the echo return loss enhancement is: fully while the echo
    /// saturates the capture.
    pub fn erle_uncertainty(&self) -> (uncertainty: Option<T>)
        ensures
            uncertainty == (if self.echo_saturates() {
                Some(self.numbers().hmm.one)
            } else {
                None
            }),
    {
        if self.saturated_echo() {
            Some(self.parameters.hmm.one)
        } else {
            None
        }
    }

    pub fn use_stationarity_properties(&self) -> (result: bool)
        ensures
            result == self.settings().echo_audibility.use_stationarity_properties,
    {
        self.config.echo_audibility.use_stationarity_properties
    }

    pub fn min_direct_path_filter_delay(&self) -> (delay: i32)
        ensures
            delay == self.delay().min_delay(),
    {
        self.delay_state.min_direct_path_filter_delay()
    }

    pub fn direct_path_filter_delays(&self) -> (delays: &[i32])
        ensures
            delays@ == self.delay().delays(),
    {
        self.delay_state.direct_path_filter_delays()
    }

    pub fn usable_linear_filter_outputs(&self) -> (outputs: &[bool])
        ensures
            outputs@ == self.quality().outputs(),
    {
        self.filter_quality_state.usable_linear_filter_outputs()
    }

    pub fn external_delay_reported(&self) -> (reported: bool)
        requires
            self.inv(),
        ensures
            reported == self.delay().external() is Some,
    {
        self.delay_state.external_delay_reported()
    }

    pub fn saturated_capture(&self) -> (saturated: bool)
        ensures
            saturated == self.capture_saturates(),
    {
        self.capture_signal_saturation
    }

    pub fn saturated_echo(&self) -> (saturated: bool)
        ensures
            saturated == self.echo_saturates(),
    {
        self.saturation_detector.saturated_echo()
    }

    /// Everything but the capture saturation is the same.
    pub open spec fn same_but_capture_saturation(&self, after: Self) -> bool {
        &&& after.settings() == self.settings()
        &&& after.numbers() == self.numbers()
        &&& after.num_channels() == self.num_channels()
        &&& after.initial() == self.initial()
        &&& after.delay() == self.delay()
        &&& after.transparency() == self.transparency()
        &&& after.quality() == self.quality()
        &&& after.echo_saturates() == self.echo_saturates()
        &&& after.strong_blocks() == self.strong_blocks()
        &&& after.active_blocks() == self.active_blocks()
    }

    pub fn update_capture_saturation(&mut self, capture_signal_saturation: bool)
        requires
            old(self).inv(),
        ensures
            final(self).inv(),
            final(self).capture_saturates() == capture_signal_saturation,
            old(self).same_but_capture_saturation(*final(self)),
    {
        self.capture_signal_saturation = capture_signal_saturation;
    }

    pub fn transparent_mode(&self) -> (active: bool)
        ensures
            active == self.transparency().is_active(),
    {
        self.transparent_state.active()
    }

    pub fn initial_state_active(&self) -> (active: bool)
        ensures
            active == self.initial().is_initial(),
    {
        self.initial_state.initial_state_active()
    }

    pub fn transition_triggered(&self) -> (triggered: bool)
        ensures
            triggered == self.initial().triggered(),
    {
        self.initial_state.transition_triggered()
    }

    /// Whether `after` is `self` once the delay of the echo path has changed: the
    /// counts, the initial phase and the judgement of the filter start over; the
    /// known delays are kept.
    pub open spec fn is_fully_reset(&self, after: Self) -> bool {
        &&& after.settings() == self.settings()
        &&& after.numbers() == self.numbers()
        &&& after.num_channels() == self.num_channels()
        &&& after.delay() == self.delay()
        &&& after.echo_saturates() == self.echo_saturates()
        &&& !after.capture_saturates()
        &&& after.strong_blocks() == 0
        &&& after.active_blocks() == 0
        &&& after.initial().limit() == self.initial().limit()
        &&& after.initial().is_initial()
        &&& !after.initial().triggered()
        &&& after.initial().blocks() == 0
        &&& self.transparency().is_reset(after.transparency())
        &&& !after.quality().usable()
        &&& after.quality().blocks_since_reset() == 0
        &&& after.quality().outputs() == Seq::new(self.quality().outputs().len(), |i: int| false)
        &&& after.quality().blocks_since_start() == self.quality().blocks_since_start()
        &&& after.quality().converged() == self.quality().converged()
    }

    /// Resets what a change of the echo path makes void, and says which of the
    /// estimators to reset.
    pub fn handle_echo_path_change(&mut self, variability: &EchoPathVariability) -> (reset:
        EstimatorReset)
        requires
            old(self).inv(),
        ensures
            final(self).inv(),
            reset == (if variability.delay_change != DelayAdjustment::Unchanged {
                EstimatorReset::Full
            } else if variability.gain_change {
                EstimatorReset::ErleOnly
            } else {
                EstimatorReset::Nothing
            }),
            reset is Full ==> old(self).is_fully_reset(*final(self)),
            reset !is Full ==> *final(self) == *old(self),
    {
        if variability.delay_change != DelayAdjustment::Unchanged {
            self.full_reset();
            EstimatorReset::Full
        } else if variability.gain_change {
            EstimatorReset::ErleOnly
        } else {
            EstimatorReset::Nothing
        }
    }

    fn full_reset(&mut self)
        requires
            old(self).inv(),
        ensures
            final(self).inv(),
            old(self).is_fully_reset(*final(self)),
    {
        self.capture_signal_saturation = false;
        self.strong_not_saturated_render_blocks = 0;
        self.blocks_with_active_render = 0;
        self.initial_state.reset();
        self.transparent_state.reset();
        self.filter_quality_state.reset();
    }

    /// Everything but the delays is the same.
    pub open spec fn same_but_delay(&self, after: Self) -> bool {
        &&& after.settings() == self.settings()
        &&& after.numbers() == self.numbers()
        &&& after.num_channels() == self.num_channels()
        &&& after.initial() == self.initial()
        &&& after.transparency() == self.transparency()
        &&& after.quality() == self.quality()
        &&& after.echo_saturates() == self.echo_saturates()
        &&& after.strong_blocks() == self.strong_blocks()
        &&& after.active_blocks() == self.active_blocks()
        &&& after.capture_saturates() == self.capture_saturates()
    }

    /// First step of a block: takes in the delays that the filter analysis found,
    /// and returns the delay by which the render is to be aligned. Without the
    /// linear filter the delays stay as they are.
    pub fn update_delay(
        &mut self,
        external_delay: Option<DelayEstimate>,
        filter_delays_blocks: &[i32],
    ) -> (min_delay: i32)
        requires
            old(self).inv(),
            old(self).settings().filter.use_linear_filter && !FilterDelay::uses_guess(
                FilterDelay::kept_external(old(self).delay().external(), external_delay),
                old(self).strong_blocks(),
            ) ==> filter_delays_blocks@.len() == old(self).num_channels(),
        ensures
            final(self).inv(),
            old(self).same_but_delay(*final(self)),
            min_delay == final(self).delay().min_delay(),
            is_min_delay(final(self).delay().delays(), min_delay),
            !old(self).settings().filter.use_linear_filter ==> final(self).delay() == old(self).delay(),
            old(self).settings().filter.use_linear_filter ==> {
                &&& final(self).delay().external() == FilterDelay::kept_external(
                    old(self).delay().external(),
                    external_delay,
                )
                &&& final(self).delay().delays() == (if old(self).strong_blocks()
                    < BLOCKS_TO_CONVERGE && final(self).delay().external() is Some {
                    Seq::new(
                        old(self).num_channels(),
                        |i: int|
                            (old(self).settings().delay.delay_headroom_samples / BLOCK_SIZE) as i32,
                    )
                } else {
                    filter_delays_blocks@
                })
            },
    {
        if self.config.filter.use_linear_filter {
            self.delay_state.update(
                filter_delays_blocks,
                external_delay,
                self.strong_not_saturated_render_blocks,
            );
        }
        proof {
            self.delay_state.lemma_min_delay();
        }
        self.delay_state.min_direct_path_filter_delay()
    }

    /// Second step of a block: takes in what the analysis of the aligned block
    /// found, and says what the estimators are to do.
    pub fn update(
        &mut self,
        external_delay: Option<DelayEstimate>,
        analysis: &BlockAnalysis<T>,
    ) -> (actions: EstimatorActions)
        requires
            is_total::<T>(),
            old(self).inv(),
            old(self).has_room(),
            analysis.echo_estimates@.len() == old(self).num_channels(),
        ensures
            final(self).inv(),
            is_functional::<T>() ==> actions.active_render == render_is_active(
                old(self).numbers(),
                analysis.render_block@,
            ),
            is_functional::<T>() ==> forall|ch: int|
                0 <= ch < analysis.render_block@.len() && less(
                    times(
                        times(
                            old(self).numbers().active_render_limit,
                            old(self).numbers().active_render_limit,
                        ),
                        old(self).numbers().block_length,
                    ),
                    energy((#[trigger] analysis.render_block@[ch])@),
                ) ==> actions.active_render,
            actions.reset_erle == old(self).initial().triggered(),
            actions.update_echo_audibility
                == old(self).settings().echo_audibility.use_stationarity_properties,
            final(self).settings() == old(self).settings(),
            final(self).numbers() == old(self).numbers(),
            final(self).num_channels() == old(self).num_channels(),
            final(self).delay() == old(self).delay(),
            final(self).capture_saturates() == old(self).capture_saturates(),
            final(self).active_blocks() == saturating_plus_if(
                old(self).active_blocks(),
                actions.active_render,
            ),
            final(self).strong_blocks() == saturating_plus_if(
                old(self).strong_blocks(),
                actions.active_render && !old(self).capture_saturates(),
            ),
            is_functional::<T>() ==> final(self).echo_saturates() == echo_saturates(
                old(self).numbers().saturation,
                analysis.render_block@,
                old(self).capture_saturates(),
                old(self).usable(),
                analysis.echo_estimates@,
                analysis.max_echo_path_gain,
            ),
            final(self).echo_saturates() ==> old(self).capture_saturates(),
            final(self).initial().limit() == old(self).initial().limit(),
            final(self).initial().blocks() == old(self).initial().blocks() + (
            if actions.active_render && !old(self).capture_saturates() {
                1int
            } else {
                0int
            }),
            final(self).initial().is_initial() == (final(self).initial().blocks() < final(self).initial().limit()),
            final(self).initial().triggered() == (old(self).initial().is_initial() && !final(self).initial().is_initial()),
            old(self).transparency().observed(
                final(self).transparency(),
                (FilterObservation {
                    filter_delay_blocks: old(self).delay().min_delay(),
                    any_filter_consistent: analysis.any_filter_consistent,
                    any_filter_converged: analysis.any_filter_converged,
                    any_coarse_filter_converged: analysis.any_coarse_filter_converged,
                    all_filters_diverged: analysis.all_filters_diverged,
                    active_render: actions.active_render,
                    saturated_capture: old(self).capture_saturates(),
                }),
            ),
            final(self).quality().converged() == (old(self).quality().converged()
                || analysis.any_filter_converged),
            final(self).quality().blocks_since_start() == old(self).quality().blocks_since_start()
                + (if actions.active_render && !old(self).capture_saturates() {
                1int
            } else {
                0int
            }),
            final(self).quality().blocks_since_reset() == old(self).quality().blocks_since_reset()
                + (if actions.active_render && !old(self).capture_saturates() {
                1int
            } else {
                0int
            }),
            final(self).quality().usable() == ({
                &&& final(self).quality().blocks_since_start() > BLOCKS_TO_CONVERGE_AT_STARTUP
                &&& final(self).quality().blocks_since_reset() > BLOCKS_TO_CONVERGE_AT_RESET
                &&& external_delay is Some || final(self).quality().converged()
                &&& !final(self).transparency().is_active()
            }),
            final(self).quality().outputs() == Seq::new(
                old(self).num_channels(),
                |i: int| final(self).usable(),
            ),
            final(self).transparency().is_active() ==> !final(self).usable(),
    {
        let min_delay: i32 = self.delay_state.min_direct_path_filter_delay();
        let active_render = is_render_active(&self.parameters, analysis.render_block.as_slice());
        if active_render {
            self.blocks_with_active_render = self.blocks_with_active_render.saturating_add(1);
        }
        if active_render && !self.saturated_capture() {
            self.strong_not_saturated_render_blocks =
            self.strong_not_saturated_render_blocks.saturating_add(1);
        }
        let reset_erle = self.initial_state.transition_triggered();
        let saturated_capture = self.saturated_capture();
        let usable_linear_estimate = self.usable_linear_estimate();
        self.saturation_detector.update(
            &self.parameters.saturation,
            analysis.render_block.as_slice(),
            saturated_capture,
            usable_linear_estimate,
            analysis.echo_estimates.as_slice(),
            analysis.max_echo_path_gain,
        );
        self.initial_state.update(active_render, saturated_capture);
        let observation = FilterObservation {
            filter_delay_blocks: min_delay,
            any_filter_consistent: analysis.any_filter_consistent,
            any_filter_converged: analysis.any_filter_converged,
            any_coarse_filter_converged: analysis.any_coarse_filter_converged,
            all_filters_diverged: analysis.all_filters_diverged,
            active_render,
            saturated_capture,
        };
        self.transparent_state.update(&observation);
        let transparent_mode = self.transparent_state.active();
        self.filter_quality_state.update(
            active_render,
            transparent_mode,
            saturated_capture,
            external_delay,
            analysis.any_filter_converged,
        );
        assert(self.filter_quality_state.outputs() =~= Seq::new(
            self.num_capture_channels as nat,
            |i: int| self.usable(),
        ));
        EstimatorActions {
            active_render,
            reset_erle,
            update_echo_audibility: self.config.echo_audibility.use_stationarity_properties,
        }
    }
}

} // verus!
