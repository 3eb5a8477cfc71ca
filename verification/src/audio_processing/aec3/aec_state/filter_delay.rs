//! The delay of the direct path in the linear filters.
use crate::api::config::EchoCanceller3Config;
use crate::audio_processing::aec3::aec3_common::{BLOCK_SIZE, NUM_BLOCKS_PER_SECOND};
use crate::audio_processing::aec3::delay_estimate::DelayEstimate;
use vstd::prelude::*;

verus! {

/// Delay of the direct path, in blocks, per capture channel.
pub struct FilterDelay {
    delay_headroom_samples: usize,
    external_delay_reported: bool,
    filter_delays_blocks: Vec<i32>,
    min_filter_delay: i32,
    external_delay: Option<DelayEstimate>,
}

/// Whether `min` is the smallest of the delays, or zero if there are none.
pub open spec fn is_min_delay(delays: Seq<i32>, min: i32) -> bool {
    if delays.len() == 0 {
        min == 0
    } else {
        &&& delays.contains(min)
        &&& forall|i: int| 0 <= i < delays.len() ==> min <= #[trigger] delays[i]
    }
}

/// Number of blocks with filter adaptation before the filter delays are trusted
/// over an external delay.
pub const BLOCKS_TO_CONVERGE: usize = 500;

impl FilterDelay {
    pub closed spec fn inv(&self) -> bool {
        &&& is_min_delay(self.filter_delays_blocks@, self.min_filter_delay)
        &&& self.external_delay_reported == self.external_delay is Some
    }

    pub closed spec fn headroom(&self) -> usize {
        self.delay_headroom_samples
    }

    pub closed spec fn delays(&self) -> Seq<i32> {
        self.filter_delays_blocks@
    }

    pub closed spec fn min_delay(&self) -> i32 {
        self.min_filter_delay
    }

    pub closed spec fn external(&self) -> Option<DelayEstimate> {
        self.external_delay
    }

    pub proof fn lemma_min_delay(&self)
        requires
            self.inv(),
        ensures
            is_min_delay(self.delays(), self.min_delay()),
    {
    }

    pub fn new(config: &EchoCanceller3Config, num_capture_channels: usize) -> (delay: Self)
        requires
            config.delay.delay_headroom_samples / BLOCK_SIZE <= i32::MAX,
        ensures
            delay.inv(),
            delay.headroom() == config.delay.delay_headroom_samples,
            delay.delays() == Seq::new(num_capture_channels as nat, |i: int| 0i32),
            delay.min_delay() == 0,
            delay.external() is None,
    {
        let delay = FilterDelay {
            delay_headroom_samples: config.delay.delay_headroom_samples,
            external_delay_reported: false,
            filter_delays_blocks: vec![0i32;num_capture_channels],
            min_filter_delay: 0,
            external_delay: None,
        };
        proof {
            assert(delay.delays() =~= Seq::new(num_capture_channels as nat, |i: int| 0i32));
            if num_capture_channels > 0 {
                assert(delay.delays()[0] == 0);
            }
        }
        delay
    }

    /// Whether an external delay was ever reported.
    pub fn external_delay_reported(&self) -> (reported: bool)
        requires
            self.inv(),
        ensures
            reported == self.external() is Some,
    {
        self.external_delay_reported
    }

    pub fn direct_path_filter_delays(&self) -> (delays: &[i32])
        ensures
            delays@ == self.delays(),
    {
        self.filter_delays_blocks.as_slice()
    }

    pub fn min_direct_path_filter_delay(&self) -> (delay: i32)
        ensures
            delay == self.min_delay(),
    {
        self.min_filter_delay
    }

    /// The external delay that is kept: the first report of each new delay.
    pub open spec fn kept_external(
        before: Option<DelayEstimate>,
        reported: Option<DelayEstimate>,
    ) -> Option<DelayEstimate> {
        match (before, reported) {
            (Some(kept), Some(new)) => if kept.delay == new.delay {
                before
            } else {
                reported
            },
            (None, Some(new)) => reported,
            (_, None) => before,
        }
    }

    /// The external delay that is kept of a series of reports.
    pub open spec fn kept_of(reported: Seq<Option<DelayEstimate>>) -> Option<DelayEstimate>
        decreases reported.len(),
    {
        if reported.len() == 0 {
            None
        } else {
            Self::kept_external(Self::kept_of(reported.drop_last()), reported.last())
        }
    }

    /// An external delay is known exactly if one was reported in some block. It is the
    /// delay of the last report.
    pub proof fn law_any_report_counts(reported: Seq<Option<DelayEstimate>>, last: int)
        requires
            -1 <= last < reported.len(),
            last >= 0 ==> reported[last] is Some,
            forall|i: int| last < i < reported.len() ==> (#[trigger] reported[i]) is None,
        ensures
            Self::kept_of(reported) is Some <==> last >= 0,
            last >= 0 ==> Self::kept_of(reported)->0.delay == reported[last]->0.delay,
        decreases reported.len(),
    {
        if reported.len() > 0 {
            let before = reported.drop_last();
            if last < reported.len() - 1 {
                assert(reported[reported.len() - 1] is None);
                assert forall|i: int| last < i < before.len() implies (
                #[trigger] before[i]) is None by {
                    assert(reported[i] is None);
                }
                Self::law_any_report_counts(before, last);
            }
        }
    }

    /// Whether the delays are guessed from the headroom: an external delay is known, and
    /// the filters may not have converged.
    pub open spec fn uses_guess(
        external: Option<DelayEstimate>,
        blocks_with_proper_filter_adaptation: usize,
    ) -> bool {
        blocks_with_proper_filter_adaptation < BLOCKS_TO_CONVERGE && external is Some
    }

    /// The delays are guessed only for an external delay, and no longer than two seconds
    /// of proper adaptation.
    pub proof fn law_guess(external: Option<DelayEstimate>, blocks: usize)
        ensures
            external is None ==> !Self::uses_guess(external, blocks),
            blocks >= 500 ==> !Self::uses_guess(external, blocks),
            blocks < 500 && external is Some ==> Self::uses_guess(external, blocks),
    {
    }

    /// Takes the delays from the filters, or from the headroom while the filters
    /// may not have converged and an external delay is known.
    pub fn update(
        &mut self,
        analyzer_filter_delay_estimates_blocks: &[i32],
        external_delay: Option<DelayEstimate>,
        blocks_with_proper_filter_adaptation: usize,
    )
        requires
            old(self).inv(),
            !Self::uses_guess(
                Self::kept_external(old(self).external(), external_delay),
                blocks_with_proper_filter_adaptation,
            ) ==> old(self).delays().len() == analyzer_filter_delay_estimates_blocks@.len(),
            old(self).headroom() / BLOCK_SIZE <= i32::MAX,
        ensures
            final(self).inv(),
            final(self).headroom() == old(self).headroom(),
            final(self).external() == Self::kept_external(old(self).external(), external_delay),
            final(self).delays() == (if Self::uses_guess(
                final(self).external(),
                blocks_with_proper_filter_adaptation,
            ) {
                Seq::new(
                    old(self).delays().len(),
                    |i: int| (old(self).headroom() / BLOCK_SIZE) as i32,
                )
            } else {
                analyzer_filter_delay_estimates_blocks@
            }),
            is_min_delay(final(self).delays(), final(self).min_delay()),
    {
        if let Some(delay) = external_delay {
            let is_new = match self.external_delay {
                Some(stored) => stored.delay != delay.delay,
                None => true,
            };
            if is_new {
                self.external_delay = Some(delay);
                self.external_delay_reported = true;
            }
        }
        let delay_estimator_may_not_have_converged = blocks_with_proper_filter_adaptation < 2
            * NUM_BLOCKS_PER_SECOND;
        let use_guess = delay_estimator_may_not_have_converged && self.external_delay.is_some();
        let delay_guess: i32 = (self.delay_headroom_samples / BLOCK_SIZE) as i32;
        let num_channels: usize = self.filter_delays_blocks.len();
        let mut delays: Vec<i32> = Vec::new();
        let mut min: i32 = 0;
        let mut i: usize = 0;
        while i < num_channels
            invariant
                i <= num_channels,
                !use_guess ==> num_channels == analyzer_filter_delay_estimates_blocks@.len(),
                delays@.len() == i,
                is_min_delay(delays@, min),
                forall|k: int|
                    0 <= k < i ==> delays@[k] == if use_guess {
                        delay_guess
                    } else {
                        analyzer_filter_delay_estimates_blocks@[k]
                    },
            decreases num_channels - i,
        {
            let delay: i32 = if use_guess {
                delay_guess
            } else {
                analyzer_filter_delay_estimates_blocks[i]
            };
            let ghost before = delays@;
            delays.push(delay);
            assert(delays@[i as int] == delay);
            if i == 0 || delay < min {
                min = delay;
            } else {
                proof {
                    let k = choose|k: int| 0 <= k < before.len() && before[k] == min;
                    assert(delays@[k] == min);
                }
            }
            i = i + 1;
        }
        self.filter_delays_blocks = delays;
        self.min_filter_delay = min;
        assert(self.delays() =~= if use_guess {
            Seq::new(old(self).delays().len(), |i: int| delay_guess)
        } else {
            analyzer_filter_delay_estimates_blocks@
        });
    }
}

} // verus!
