//! Detection of captures that hold no echo.
use crate::api::config::EchoCanceller3Config;
use crate::audio_processing::aec3::aec3_common::NUM_BLOCKS_PER_SECOND;
use crate::audio_processing::arithmetic::{
    at_most, difference, is_functional, is_less, is_total, less, minus, over, plus, product,
    quotient, sum, times, zero_of, Real,
};
use crate::audio_processing::ordered::{
    is_exact, is_number, is_one, is_ordered, lemma_exact, lemma_mix, lemma_order, lemma_products,
    lemma_scaled_order, lemma_sums, products_keep_order, sums_keep_order,
};
use vstd::prelude::*;

verus! {

pub const BLOCKS_SINCE_CONVERGED_FILTER_INIT: usize = 10_000;

pub const BLOCKS_SINCE_CONSISTENT_ESTIMATE_INIT: usize = 10_000;

/// What the classifiers get to know of a block.
#[derive(Debug, Clone, Copy, PartialEq, Eq, Structural)]
pub struct FilterObservation {
    pub filter_delay_blocks: i32,
    pub any_filter_consistent: bool,
    pub any_filter_converged: bool,
    pub any_coarse_filter_converged: bool,
    pub all_filters_diverged: bool,
    pub active_render: bool,
    pub saturated_capture: bool,
}

/// The probabilities that the classifier with hidden states works with.
#[derive(Debug, Clone, Copy)]
pub struct HmmParameters<T: Real> {
    pub one: T,
    /// Probability of the transparent state at first.
    pub initial_prob_transparent: T,
    /// Probability of a transition from the normal to the transparent state.
    pub normal_to_transparent: T,
    /// Probability of staying in the transparent state.
    pub transparent_to_transparent: T,
    /// Probability of observing converged coarse filters in the normal state.
    pub converged_normal: T,
    pub not_converged_normal: T,
    /// Probability of observing converged coarse filters in the transparent state.
    pub converged_transparent: T,
    pub not_converged_transparent: T,
    /// Beyond this probability the mode is turned on.
    pub activation: T,
    /// Below this probability the mode is turned off.
    pub deactivation: T,
}

/// Probability of the transparent state after a transition.
pub open spec fn prior<T: Real>(p: HmmParameters<T>, prob_transparent: T) -> T {
    plus(
        times(minus(p.one, prob_transparent), p.normal_to_transparent),
        times(prob_transparent, p.transparent_to_transparent),
    )
}

/// Probability of the transparent state and of what was observed.
pub open spec fn joint_transparent<T: Real>(
    p: HmmParameters<T>,
    prob_transparent: T,
    converged: bool,
) -> T {
    times(
        prior(p, prob_transparent),
        if converged {
            p.converged_transparent
        } else {
            p.not_converged_transparent
        },
    )
}

/// Probability of the normal state and of what was observed.
pub open spec fn joint_normal<T: Real>(
    p: HmmParameters<T>,
    prob_transparent: T,
    converged: bool,
) -> T {
    times(
        minus(p.one, prior(p, prob_transparent)),
        if converged {
            p.converged_normal
        } else {
            p.not_converged_normal
        },
    )
}

/// Probability of the transparent state, given what was observed.
pub open spec fn posterior<T: Real>(
    p: HmmParameters<T>,
    prob_transparent: T,
    converged: bool,
) -> T {
    over(
        joint_transparent(p, prob_transparent, converged),
        plus(
            joint_normal(p, prob_transparent, converged),
            joint_transparent(p, prob_transparent, converged),
        ),
    )
}

/// The probability after a transition lies between that of a transition from the normal
/// state and that of staying: it is the one if the state was normal for sure, and the
/// other if it was transparent for sure.
pub proof fn law_prior<T: Real>(p: HmmParameters<T>, prob_transparent: T)
    requires
        is_ordered::<T>(),
        sums_keep_order::<T>(),
        products_keep_order::<T>(),
        is_exact::<T>(),
        is_one(p.one),
        at_most(zero_of(), prob_transparent),
        at_most(prob_transparent, p.one),
        at_most(p.normal_to_transparent, p.transparent_to_transparent),
    ensures
        at_most(p.normal_to_transparent, prior(p, prob_transparent)),
        at_most(prior(p, prob_transparent), p.transparent_to_transparent),
        prior(p, zero_of()) == p.normal_to_transparent,
        prior(p, p.one) == p.transparent_to_transparent,
        prior(p, prob_transparent) == plus(
            p.normal_to_transparent,
            times(
                minus(p.transparent_to_transparent, p.normal_to_transparent),
                prob_transparent,
            ),
        ),
{
    let zero = zero_of::<T>();
    let (enter, stay) = (p.normal_to_transparent, p.transparent_to_transparent);
    lemma_prior(p, prob_transparent);
    lemma_order(zero, p.one, zero);
    lemma_order(zero, zero, zero);
    lemma_order(p.one, p.one, p.one);
    lemma_prior(p, zero);
    lemma_prior(p, p.one);
    let d = minus(stay, enter);
    lemma_exact(d, zero, zero);
    lemma_exact(enter, zero, zero);
    assert(is_number(d));
    assert(times(d, p.one) == d);
    lemma_exact(enter, stay, zero);
}

proof fn lemma_prior<T: Real>(p: HmmParameters<T>, prob: T)
    requires
        is_ordered::<T>(),
        sums_keep_order::<T>(),
        products_keep_order::<T>(),
        is_exact::<T>(),
        is_one(p.one),
        at_most(zero_of(), prob),
        at_most(prob, p.one),
    ensures
        prior(p, prob) == plus(
            p.normal_to_transparent,
            times(minus(p.transparent_to_transparent, p.normal_to_transparent), prob),
        ),
        at_most(p.normal_to_transparent, p.transparent_to_transparent) ==> at_most(
            p.normal_to_transparent,
            prior(p, prob),
        ) && at_most(prior(p, prob), p.transparent_to_transparent),
{
    let zero = zero_of::<T>();
    lemma_mix(p.one, prob, p.transparent_to_transparent, p.normal_to_transparent);
    lemma_exact(minus(p.one, prob), p.normal_to_transparent, zero);
    lemma_exact(prob, p.transparent_to_transparent, zero);
}

/// The probability given an observation is by Bayes' rule: times that of the observation
/// it is the probability of both. It is a probability, and an observation that is at least
/// as likely in the normal state as in the transparent one never raises that of the
/// latter, nor does the other kind lower it.
pub proof fn law_posterior<T: Real>(p: HmmParameters<T>, prob_transparent: T, converged: bool)
    requires
        is_ordered::<T>(),
        sums_keep_order::<T>(),
        products_keep_order::<T>(),
        is_exact::<T>(),
        is_one(p.one),
        at_most(zero_of(), prior(p, prob_transparent)),
        at_most(prior(p, prob_transparent), p.one),
        at_most(zero_of(), p.converged_normal),
        at_most(zero_of(), p.not_converged_normal),
        at_most(zero_of(), p.converged_transparent),
        at_most(zero_of(), p.not_converged_transparent),
        less(
            zero_of(),
            plus(
                joint_normal(p, prob_transparent, converged),
                joint_transparent(p, prob_transparent, converged),
            ),
        ),
    ensures
        ({
            let before = prior(p, prob_transparent);
            let after = posterior(p, prob_transparent, converged);
            let in_transparent = if converged {
                p.converged_transparent
            } else {
                p.not_converged_transparent
            };
            let in_normal = if converged {
                p.converged_normal
            } else {
                p.not_converged_normal
            };
            let of_observation = plus(
                times(minus(p.one, before), in_normal),
                times(before, in_transparent),
            );
            &&& times(after, of_observation) == times(before, in_transparent)
            &&& at_most(zero_of(), after)
            &&& at_most(after, p.one)
            &&& at_most(in_transparent, in_normal) ==> at_most(after, before)
            &&& at_most(in_normal, in_transparent) ==> at_most(before, after)
        }),
{
    let zero = zero_of::<T>();
    let q = prior(p, prob_transparent);
    let after = posterior(p, prob_transparent, converged);
    let a = if converged {
        p.converged_transparent
    } else {
        p.not_converged_transparent
    };
    let b = if converged {
        p.converged_normal
    } else {
        p.not_converged_normal
    };
    let (jn, jt) = (
        joint_normal(p, prob_transparent, converged),
        joint_transparent(p, prob_transparent, converged),
    );
    let s = plus(jn, jt);
    lemma_exact(jt, s, zero);
    // The likelihood of what was observed lies between those in the two states.
    lemma_mix(p.one, q, a, b);
    lemma_exact(b, minus(p.one, q), zero);
    lemma_exact(a, q, zero);
    assert(s == plus(times(b, minus(p.one, q)), times(a, q)));
    lemma_products(a, s, q);
    lemma_products(s, a, q);
    lemma_exact(q, s, zero);
    lemma_scaled_order(p.one, after, q, s);
    lemma_scaled_order(p.one, q, after, s);
    // It is no less than the part of the transparent state.
    lemma_sums(q, p.one, zero, zero);
    lemma_products(minus(p.one, q), b, zero);
    lemma_products(q, a, zero);
    lemma_sums(zero, jn, jt, jt);
    lemma_exact(jt, zero, zero);
    lemma_scaled_order(p.one, after, p.one, s);
    assert(is_number(s));
    assert(times(s, p.one) == s);
    lemma_exact(s, p.one, zero);
    lemma_scaled_order(p.one, zero, after, s);
    lemma_exact(s, zero, zero);
}

/// Classifier with two hidden states.
pub struct TransparentModeHmm<T: Real> {
    parameters: HmmParameters<T>,
    transparency_activated: bool,
    prob_transparent_state: T,
}

impl<T: Real> TransparentModeHmm<T> {
    pub closed spec fn settings(&self) -> HmmParameters<T> {
        self.parameters
    }

    pub closed spec fn activated(&self) -> bool {
        self.transparency_activated
    }

    pub closed spec fn probability(&self) -> T {
        self.prob_transparent_state
    }

    pub fn new(parameters: HmmParameters<T>) -> (hmm: Self)
        ensures
            hmm.settings() == parameters,
            !hmm.activated(),
            hmm.probability() == parameters.initial_prob_transparent,
    {
        TransparentModeHmm {
            parameters,
            transparency_activated: false,
            prob_transparent_state: parameters.initial_prob_transparent,
        }
    }

    pub fn reset(&mut self)
        ensures
            final(self).settings() == old(self).settings(),
            !final(self).activated(),
            final(self).probability() == old(self).settings().initial_prob_transparent,
    {
        self.transparency_activated = false;
        self.prob_transparent_state = self.parameters.initial_prob_transparent;
    }

    pub fn active(&self) -> (active: bool)
        ensures
            active == self.activated(),
    {
        self.transparency_activated
    }

    /// Whether `after` is the state once a block was observed: nothing changes
    /// without active render; else the probability follows from what was observed,
    /// and the mode follows the probability, or stays in the dead zone between the
    /// thresholds.
    pub open spec fn observed(&self, after: Self, observation: FilterObservation) -> bool {
        let p = self.settings();
        &&& after.settings() == p
        &&& !observation.active_render ==> after == *self
        &&& observation.active_render && is_functional::<T>() ==> {
            &&& after.probability() == posterior(
                p,
                self.probability(),
                observation.any_coarse_filter_converged,
            )
            &&& after.activated() == if less(p.activation, after.probability()) {
                true
            } else if less(after.probability(), p.deactivation) {
                false
            } else {
                self.activated()
            }
        }
    }

    pub fn update(&mut self, observation: &FilterObservation)
        requires
            is_total::<T>(),
        ensures
            old(self).observed(*final(self), *observation),
    {
        // The probability is only updated during active render.
        if !observation.active_render {
            return;
        }
        let p = self.parameters;
        let prob_transparent = self.prob_transparent_state;
        let prob_normal = difference(p.one, prob_transparent);
        let prob_transition_transparent = sum(
            product(prob_normal, p.normal_to_transparent),
            product(prob_transparent, p.transparent_to_transparent),
        );
        let prob_transition_normal = difference(p.one, prob_transition_transparent);
        let b_normal = if observation.any_coarse_filter_converged {
            p.converged_normal
        } else {
            p.not_converged_normal
        };
        let b_transparent = if observation.any_coarse_filter_converged {
            p.converged_transparent
        } else {
            p.not_converged_transparent
        };
        let prob_joint_normal = product(prob_transition_normal, b_normal);
        let prob_joint_transparent = product(prob_transition_transparent, b_transparent);
        self.prob_transparent_state =
        quotient(prob_joint_transparent, sum(prob_joint_normal, prob_joint_transparent));
        // The mode is only turned on when its probability is high.
        if is_less(p.activation, self.prob_transparent_state) {
            self.transparency_activated = true;
        } else if is_less(self.prob_transparent_state, p.deactivation) {
            self.transparency_activated = false;
        }
    }
}

/// Classifier that counts blocks with converged, consistent and diverged filters.
#[derive(Debug, Clone, Copy, PartialEq, Eq, Structural)]
pub struct TransparentModeLegacy {
    pub linear_and_stable_echo_path: bool,
    pub capture_block_counter: usize,
    pub transparency_activated: bool,
    pub active_blocks_since_sane_filter: usize,
    pub sane_filter_observed: bool,
    pub finite_erl_recently_detected: bool,
    pub non_converged_sequence_size: usize,
    pub diverged_sequence_size: usize,
    pub active_non_converged_sequence_size: usize,
    pub num_converged_blocks: usize,
    pub recent_convergence_during_activity: bool,
    pub strong_not_saturated_render_blocks: usize,
}

/// With active render the mode is on above one threshold and off below the other, and
/// between them it is as before; without, nothing changes.
pub proof fn law_mode_has_hysteresis<T: Real>(
    before: TransparentModeHmm<T>,
    after: TransparentModeHmm<T>,
    observation: FilterObservation,
)
    requires
        is_functional::<T>(),
        is_ordered::<T>(),
        before.observed(after, observation),
        at_most(before.settings().deactivation, before.settings().activation),
    ensures
        ({
            let p = before.settings();
            &&& !observation.active_render ==> after.activated() == before.activated()
                && after.probability() == before.probability()
            &&& observation.active_render && less(p.activation, after.probability())
                ==> after.activated()
            &&& observation.active_render && less(after.probability(), p.deactivation)
                ==> !after.activated()
            &&& observation.active_render && at_most(p.deactivation, after.probability())
                && at_most(after.probability(), p.activation) ==> after.activated()
                == before.activated()
        }),
{
    let p = before.settings();
    let now = after.probability();
    lemma_order(now, p.deactivation, p.activation);
    lemma_order(p.deactivation, now, p.activation);
    lemma_order(p.activation, now, now);
    lemma_order(now, p.activation, now);
}

/// One more if `event`.
pub open spec fn plus_if(count: usize, event: bool) -> int {
    if event {
        count + 1
    } else {
        count as int
    }
}

/// How many of the events are blocks, where `None` stands for a reset.
pub open spec fn num_blocks(events: Seq<Option<FilterObservation>>) -> int
    decreases events.len(),
{
    if events.len() == 0 {
        0
    } else {
        num_blocks(events.drop_last()) + if events.last() is Some {
            1int
        } else {
            0int
        }
    }
}

/// Whether a filter was converged in every block.
pub open spec fn are_converged(events: Seq<Option<FilterObservation>>) -> bool {
    forall|i: int|
        0 <= i < events.len() ==> (#[trigger] events[i] matches Some(o) ==> o.any_filter_converged)
}

impl TransparentModeLegacy {
    /// Whether another block can be counted.
    pub open spec fn has_room(self) -> bool {
        &&& self.capture_block_counter < usize::MAX
        &&& self.active_blocks_since_sane_filter < usize::MAX
        &&& self.non_converged_sequence_size < usize::MAX
        &&& self.diverged_sequence_size < usize::MAX
        &&& self.active_non_converged_sequence_size < usize::MAX
        &&& self.num_converged_blocks < usize::MAX
        &&& self.strong_not_saturated_render_blocks < usize::MAX
    }

    /// A consistent filter with a short delay.
    pub open spec fn is_sane(observation: FilterObservation) -> bool {
        observation.any_filter_consistent && observation.filter_delay_blocks < 5
    }

    /// A sane filter was seen within thirty active seconds, or may yet be within
    /// the first five seconds.
    pub open spec fn sane_filter_recently_seen(self) -> bool {
        if self.sane_filter_observed {
            self.active_blocks_since_sane_filter <= 30 * NUM_BLOCKS_PER_SECOND
        } else {
            self.capture_block_counter <= 5 * NUM_BLOCKS_PER_SECOND
        }
    }

    /// The mode that the counts call for: transparent only if the filter should
    /// have converged, but neither is a finite echo return loss known nor did a
    /// sane filter converge recently.
    pub open spec fn should_be_transparent(self) -> bool {
        &&& !self.finite_erl_recently_detected
        &&& !(self.sane_filter_recently_seen() && self.recent_convergence_during_activity)
        &&& self.strong_not_saturated_render_blocks > 6 * NUM_BLOCKS_PER_SECOND
    }

    /// The counts of the blocks in `self` and one more.
    pub open spec fn counted(self, o: FilterObservation, after: Self) -> bool {
        let long_diverged = o.all_filters_diverged && self.diverged_sequence_size + 1 >= 60;
        &&& after.linear_and_stable_echo_path == self.linear_and_stable_echo_path
        &&& after.capture_block_counter == self.capture_block_counter + 1
        &&& after.strong_not_saturated_render_blocks == plus_if(
            self.strong_not_saturated_render_blocks,
            o.active_render && !o.saturated_capture,
        )
        &&& after.sane_filter_observed == (self.sane_filter_observed || Self::is_sane(o))
        &&& after.active_blocks_since_sane_filter == (if Self::is_sane(o) {
            0
        } else {
            plus_if(self.active_blocks_since_sane_filter, o.active_render)
        })
        &&& after.active_non_converged_sequence_size == (if o.any_filter_converged {
            0
        } else {
            plus_if(self.active_non_converged_sequence_size, o.active_render)
        })
        &&& after.non_converged_sequence_size == (if long_diverged {
            BLOCKS_SINCE_CONVERGED_FILTER_INIT as int
        } else if o.any_filter_converged {
            0
        } else {
            self.non_converged_sequence_size + 1
        })
        &&& after.num_converged_blocks == (if o.any_filter_converged {
            self.num_converged_blocks + 1
        } else if self.non_converged_sequence_size + 1 > 20 * NUM_BLOCKS_PER_SECOND {
            0
        } else {
            self.num_converged_blocks as int
        })
        &&& after.diverged_sequence_size == (if o.all_filters_diverged {
            self.diverged_sequence_size + 1
        } else {
            0
        })
    }

    /// What the counts of `after` conclude about convergence.
    pub open spec fn concluded(self, o: FilterObservation, after: Self) -> bool {
        let long_not_converged = after.active_non_converged_sequence_size > 60
            * NUM_BLOCKS_PER_SECOND;
        &&& after.recent_convergence_during_activity == (o.any_filter_converged || (
        self.recent_convergence_during_activity && !(o.active_render && long_not_converged)))
        &&& after.finite_erl_recently_detected == (after.num_converged_blocks > 50 || (
        self.finite_erl_recently_detected && !long_not_converged))
        &&& after.transparency_activated == after.should_be_transparent()
    }

    /// What each of the counts counts, and when it starts over.
    pub proof fn law_counts(self, o: FilterObservation, after: Self)
        requires
            self.counted(o, after),
        ensures
            after.capture_block_counter == self.capture_block_counter + 1,
            o.active_render && !o.saturated_capture ==> after.strong_not_saturated_render_blocks
                == self.strong_not_saturated_render_blocks + 1,
            !o.active_render || o.saturated_capture ==> after.strong_not_saturated_render_blocks
                == self.strong_not_saturated_render_blocks,
            o.any_filter_consistent && o.filter_delay_blocks < 5 ==> after.sane_filter_observed
                && after.active_blocks_since_sane_filter == 0,
            !o.any_filter_consistent || o.filter_delay_blocks >= 5 ==> after.sane_filter_observed
                == self.sane_filter_observed && after.active_blocks_since_sane_filter
                - self.active_blocks_since_sane_filter == (if o.active_render {
                1int
            } else {
                0int
            }),
            o.any_filter_converged ==> after.active_non_converged_sequence_size == 0
                && after.num_converged_blocks == self.num_converged_blocks + 1,
            !o.any_filter_converged ==> after.active_non_converged_sequence_size
                - self.active_non_converged_sequence_size == (if o.active_render {
                1int
            } else {
                0int
            }),
            !o.any_filter_converged && self.non_converged_sequence_size >= 5000
                ==> after.num_converged_blocks == 0,
            !o.any_filter_converged && self.non_converged_sequence_size < 5000
                ==> after.num_converged_blocks == self.num_converged_blocks,
            o.all_filters_diverged ==> after.diverged_sequence_size == self.diverged_sequence_size
                + 1,
            !o.all_filters_diverged ==> after.diverged_sequence_size == 0,
            o.all_filters_diverged && self.diverged_sequence_size >= 59
                ==> after.non_converged_sequence_size == 10_000,
            !(o.all_filters_diverged && self.diverged_sequence_size >= 59)
                && o.any_filter_converged ==> after.non_converged_sequence_size == 0,
            !(o.all_filters_diverged && self.diverged_sequence_size >= 59)
                && !o.any_filter_converged ==> after.non_converged_sequence_size
                == self.non_converged_sequence_size + 1,
    {
    }

    /// The mode is on just if there were more than six seconds of strong render, no finite
    /// echo return loss is known, and a filter has not converged recently or has not been
    /// sane for too long.
    pub proof fn law_mode(self, o: FilterObservation, after: Self)
        requires
            self.concluded(o, after),
        ensures
            after.transparency_activated <==> !after.finite_erl_recently_detected
                && after.strong_not_saturated_render_blocks > 1500 && (
            !after.recent_convergence_during_activity || (after.sane_filter_observed
                && after.active_blocks_since_sane_filter > 7500) || (!after.sane_filter_observed
                && after.capture_block_counter > 1250)),
            o.any_filter_converged ==> after.recent_convergence_during_activity,
            !o.any_filter_converged && o.active_render && after.active_non_converged_sequence_size
                > 15000 ==> !after.recent_convergence_during_activity,
            !o.any_filter_converged && (!o.active_render
                || after.active_non_converged_sequence_size <= 15000)
                ==> after.recent_convergence_during_activity
                == self.recent_convergence_during_activity,
            after.num_converged_blocks > 50 ==> after.finite_erl_recently_detected,
            after.num_converged_blocks <= 50 && after.active_non_converged_sequence_size > 15000
                ==> !after.finite_erl_recently_detected,
            after.num_converged_blocks <= 50 && after.active_non_converged_sequence_size <= 15000
                ==> after.finite_erl_recently_detected == self.finite_erl_recently_detected,
    {
    }

    /// A finite echo return loss keeps the mode off, and until more than six
    /// seconds of strong render were heard since a reset it is off as well.
    pub proof fn law_off_without_evidence(self, o: FilterObservation, after: Self)
        requires
            self.counted(o, after),
            self.concluded(o, after),
        ensures
            after.finite_erl_recently_detected ==> !after.transparency_activated,
            after.strong_not_saturated_render_blocks <= 6 * NUM_BLOCKS_PER_SECOND
                ==> !after.transparency_activated,
            after.num_converged_blocks > 50 ==> !after.transparency_activated,
    {
    }

    /// The classifier after a reset.
    pub open spec fn after_reset(self) -> Self {
        TransparentModeLegacy {
            non_converged_sequence_size: BLOCKS_SINCE_CONVERGED_FILTER_INIT,
            diverged_sequence_size: 0,
            strong_not_saturated_render_blocks: 0,
            recent_convergence_during_activity: self.recent_convergence_during_activity
                && !self.linear_and_stable_echo_path,
            ..self
        }
    }

    /// A reset forgets the strong render and the divergence, and on a linear and stable
    /// echo path the convergence; what is known of the echo return loss and of sane
    /// filters is kept.
    pub proof fn law_reset(self)
        ensures
            self.after_reset().strong_not_saturated_render_blocks == 0,
            self.after_reset().diverged_sequence_size == 0,
            self.after_reset().non_converged_sequence_size == 10_000,
            self.linear_and_stable_echo_path
                ==> !self.after_reset().recent_convergence_during_activity,
            !self.linear_and_stable_echo_path
                ==> self.after_reset().recent_convergence_during_activity
                == self.recent_convergence_during_activity,
            self.after_reset().finite_erl_recently_detected == self.finite_erl_recently_detected,
            self.after_reset().sane_filter_observed == self.sane_filter_observed,
            self.after_reset().active_blocks_since_sane_filter
                == self.active_blocks_since_sane_filter,
            self.after_reset().num_converged_blocks == self.num_converged_blocks,
            self.after_reset().capture_block_counter == self.capture_block_counter,
            self.after_reset().transparency_activated == self.transparency_activated,
    {
    }

    /// Whether `after` is `self` after a block with the given observation, or after a
    /// reset for `None`.
    pub open spec fn is_followed_by(self, event: Option<FilterObservation>, after: Self) -> bool {
        match event {
            Some(o) => self.counted(o, after) && self.concluded(o, after),
            None => after == self.after_reset(),
        }
    }

    /// Whether the classifiers follow each other by the blocks and resets.
    pub open spec fn is_run(modes: Seq<Self>, events: Seq<Option<FilterObservation>>) -> bool {
        &&& modes.len() == events.len() + 1
        &&& forall|n: int|
            0 <= n < events.len() ==> #[trigger] modes[n].is_followed_by(events[n], modes[n + 1])
    }

    proof fn lemma_converged_blocks(
        modes: Seq<Self>,
        events: Seq<Option<FilterObservation>>,
        n: int,
    )
        requires
            Self::is_run(modes, events),
            0 <= n <= events.len(),
            are_converged(events.take(n)),
        ensures
            modes[n].num_converged_blocks >= num_blocks(events.take(n)),
            num_blocks(events.take(n)) > 0 ==> {
                &&& modes[n].active_non_converged_sequence_size == 0
                &&& modes[n].num_converged_blocks > 50 ==> {
                    &&& modes[n].finite_erl_recently_detected
                    &&& !modes[n].transparency_activated
                }
            },
        decreases n,
    {
        if n > 0 {
            let before = events.take(n - 1);
            let now = events.take(n);
            assert(now.drop_last() =~= before);
            assert forall|i: int| 0 <= i < before.len() implies (#[trigger] before[i] matches Some(
                o,
            ) ==> o.any_filter_converged) by {
                assert(now[i] == before[i]);
            }
            assert(now[n - 1] == events[n - 1]);
            Self::lemma_converged_blocks(modes, events, n - 1);
            assert(modes[n - 1].is_followed_by(events[n - 1], modes[n - 1 + 1]));
        }
    }

    proof fn lemma_finite_erl(
        modes: Seq<Self>,
        events: Seq<Option<FilterObservation>>,
        first: int,
        n: int,
    )
        requires
            Self::is_run(modes, events),
            0 <= first <= n <= events.len(),
            are_converged(events.take(first)),
            num_blocks(events.take(first)) > 50,
            num_blocks(events.take(n)) <= num_blocks(events.take(first)) + 60
                * NUM_BLOCKS_PER_SECOND,
        ensures
            modes[n].finite_erl_recently_detected,
            modes[n].active_non_converged_sequence_size <= num_blocks(events.take(n)) - num_blocks(
                events.take(first),
            ),
            !modes[n].transparency_activated,
        decreases n,
    {
        if n == first {
            Self::lemma_converged_blocks(modes, events, n);
        } else {
            assert(events.take(n).drop_last() =~= events.take(n - 1));
            Self::lemma_finite_erl(modes, events, first, n - 1);
            assert(modes[n - 1].is_followed_by(events[n - 1], modes[n - 1 + 1]));
        }
    }

    /// Once a filter was converged in more than fifty blocks in a row, which make up the
    /// first of the events, the mode is off, and stays off for the blocks of the next
    /// sixty seconds whatever they bring. Resets change nothing of that.
    pub proof fn law_convergence_keeps_mode_off(
        modes: Seq<Self>,
        events: Seq<Option<FilterObservation>>,
        first: int,
    )
        requires
            Self::is_run(modes, events),
            0 <= first <= events.len(),
            are_converged(events.take(first)),
            num_blocks(events.take(first)) > 50,
            num_blocks(events) <= num_blocks(events.take(first)) + 60 * NUM_BLOCKS_PER_SECOND,
        ensures
            !modes.last().transparency_activated,
    {
        assert(events.take(events.len() as int) =~= events);
        Self::lemma_finite_erl(modes, events, first, events.len() as int);
    }

    /// Nothing was observed.
    pub open spec fn initial(linear_and_stable_echo_path: bool) -> Self {
        TransparentModeLegacy {
            linear_and_stable_echo_path,
            capture_block_counter: 0,
            transparency_activated: false,
            active_blocks_since_sane_filter: BLOCKS_SINCE_CONSISTENT_ESTIMATE_INIT,
            sane_filter_observed: false,
            finite_erl_recently_detected: false,
            non_converged_sequence_size: BLOCKS_SINCE_CONVERGED_FILTER_INIT,
            diverged_sequence_size: 0,
            active_non_converged_sequence_size: 0,
            num_converged_blocks: 0,
            recent_convergence_during_activity: false,
            strong_not_saturated_render_blocks: 0,
        }
    }

    pub fn new(config: &EchoCanceller3Config) -> (legacy: Self)
        ensures
            legacy == Self::initial(config.echo_removal_control.linear_and_stable_echo_path),
    {
        TransparentModeLegacy {
            linear_and_stable_echo_path: config.echo_removal_control.linear_and_stable_echo_path,
            capture_block_counter: 0,
            transparency_activated: false,
            active_blocks_since_sane_filter: BLOCKS_SINCE_CONSISTENT_ESTIMATE_INIT,
            sane_filter_observed: false,
            finite_erl_recently_detected: false,
            non_converged_sequence_size: BLOCKS_SINCE_CONVERGED_FILTER_INIT,
            diverged_sequence_size: 0,
            active_non_converged_sequence_size: 0,
            num_converged_blocks: 0,
            recent_convergence_during_activity: false,
            strong_not_saturated_render_blocks: 0,
        }
    }

    /// Forgets the current sequences; that the filters converged recently is
    /// forgotten only if the echo path is linear and stable.
    pub fn reset(&mut self)
        ensures
            *final(self) == old(self).after_reset(),
    {
        self.non_converged_sequence_size = BLOCKS_SINCE_CONVERGED_FILTER_INIT;
        self.diverged_sequence_size = 0;
        self.strong_not_saturated_render_blocks = 0;
        if self.linear_and_stable_echo_path {
            self.recent_convergence_during_activity = false;
        }
    }

    pub fn active(&self) -> (active: bool)
        ensures
            active == self.transparency_activated,
    {
        self.transparency_activated
    }

    pub fn update(&mut self, observation: &FilterObservation)
        requires
            old(self).has_room(),
        ensures
            old(self).counted(*observation, *final(self)),
            old(self).concluded(*observation, *final(self)),
    {
        self.count_render(observation);
        self.count_convergence(observation);
        self.count_divergence(observation);
        self.conclude();
    }

    /// Counts capture blocks, strong render and blocks since a sane filter.
    fn count_render(&mut self, observation: &FilterObservation)
        requires
            old(self).has_room(),
        ensures
            *final(self) == (TransparentModeLegacy {
                capture_block_counter: (old(self).capture_block_counter + 1) as usize,
                strong_not_saturated_render_blocks: plus_if(
                    old(self).strong_not_saturated_render_blocks,
                    observation.active_render && !observation.saturated_capture,
                ) as usize,
                sane_filter_observed: old(self).sane_filter_observed || Self::is_sane(
                    *observation,
                ),
                active_blocks_since_sane_filter: if Self::is_sane(*observation) {
                    0
                } else {
                    plus_if(
                        old(self).active_blocks_since_sane_filter,
                        observation.active_render,
                    ) as usize
                },
                ..*old(self)
            }),
    {
        self.capture_block_counter = self.capture_block_counter + 1;
        if observation.active_render && !observation.saturated_capture {
            self.strong_not_saturated_render_blocks = self.strong_not_saturated_render_blocks + 1;
        }
        if observation.any_filter_consistent && observation.filter_delay_blocks < 5 {
            self.sane_filter_observed = true;
            self.active_blocks_since_sane_filter = 0;
        } else if observation.active_render {
            self.active_blocks_since_sane_filter = self.active_blocks_since_sane_filter + 1;
        }
    }

    /// Counts blocks with and without a converged filter.
    fn count_convergence(&mut self, observation: &FilterObservation)
        requires
            old(self).num_converged_blocks < usize::MAX,
            old(self).non_converged_sequence_size < usize::MAX,
            old(self).active_non_converged_sequence_size < usize::MAX,
        ensures
            observation.any_filter_converged ==> *final(self) == (TransparentModeLegacy {
                recent_convergence_during_activity: true,
                active_non_converged_sequence_size: 0,
                non_converged_sequence_size: 0,
                num_converged_blocks: (old(self).num_converged_blocks + 1) as usize,
                ..*old(self)
            }),
            !observation.any_filter_converged ==> *final(self) == (TransparentModeLegacy {
                non_converged_sequence_size: (old(self).non_converged_sequence_size + 1) as usize,
                num_converged_blocks: if old(self).non_converged_sequence_size + 1 > 20
                    * NUM_BLOCKS_PER_SECOND {
                    0
                } else {
                    old(self).num_converged_blocks
                },
                active_non_converged_sequence_size: plus_if(
                    old(self).active_non_converged_sequence_size,
                    observation.active_render,
                ) as usize,
                recent_convergence_during_activity: old(self).recent_convergence_during_activity
                    && !(observation.active_render && old(self).active_non_converged_sequence_size
                    + 1 > 60 * NUM_BLOCKS_PER_SECOND),
                ..*old(self)
            }),
    {
        if observation.any_filter_converged {
            self.recent_convergence_during_activity = true;
            self.active_non_converged_sequence_size = 0;
            self.non_converged_sequence_size = 0;
            self.num_converged_blocks = self.num_converged_blocks + 1;
        } else {
            self.non_converged_sequence_size = self.non_converged_sequence_size + 1;
            if self.non_converged_sequence_size > 20 * NUM_BLOCKS_PER_SECOND {
                self.num_converged_blocks = 0;
            }
            if observation.active_render {
                self.active_non_converged_sequence_size = self.active_non_converged_sequence_size
                    + 1;
                if self.active_non_converged_sequence_size > 60 * NUM_BLOCKS_PER_SECOND {
                    self.recent_convergence_during_activity = false;
                }
            }
        }
    }

    /// Counts blocks in which all filters diverged. Sixty in a row void the
    /// convergence.
    fn count_divergence(&mut self, observation: &FilterObservation)
        requires
            old(self).diverged_sequence_size < usize::MAX,
        ensures
            *final(self) == (TransparentModeLegacy {
                diverged_sequence_size: if observation.all_filters_diverged {
                    (old(self).diverged_sequence_size + 1) as usize
                } else {
                    0
                },
                non_converged_sequence_size: if observation.all_filters_diverged && old(
                    self).diverged_sequence_size + 1 >= 60 {
                    BLOCKS_SINCE_CONVERGED_FILTER_INIT
                } else {
                    old(self).non_converged_sequence_size
                },
                ..*old(self)
            }),
    {
        if !observation.all_filters_diverged {
            self.diverged_sequence_size = 0;
        } else {
            self.diverged_sequence_size = self.diverged_sequence_size + 1;
            if self.diverged_sequence_size >= 60 {
                self.non_converged_sequence_size = BLOCKS_SINCE_CONVERGED_FILTER_INIT;
            }
        }
    }

    /// Draws the conclusions from the counts.
    fn conclude(&mut self)
        ensures
            ({
                let finite = old(self).num_converged_blocks > 50 || (old(
                    self).finite_erl_recently_detected && !(old(
                    self).active_non_converged_sequence_size > 60 * NUM_BLOCKS_PER_SECOND));
                let concluded = TransparentModeLegacy {
                    finite_erl_recently_detected: finite,
                    ..*old(self)
                };
                *final(self) == (TransparentModeLegacy {
                    transparency_activated: concluded.should_be_transparent(),
                    ..concluded
                })
            }),
    {
        let sane_filter_recently_seen = if !self.sane_filter_observed {
            self.capture_block_counter <= 5 * NUM_BLOCKS_PER_SECOND
        } else {
            self.active_blocks_since_sane_filter <= 30 * NUM_BLOCKS_PER_SECOND
        };
        if self.active_non_converged_sequence_size > 60 * NUM_BLOCKS_PER_SECOND {
            self.finite_erl_recently_detected = false;
        }
        if self.num_converged_blocks > 50 {
            self.finite_erl_recently_detected = true;
        }
        if self.finite_erl_recently_detected {
            self.transparency_activated = false;
        } else if sane_filter_recently_seen && self.recent_convergence_during_activity {
            self.transparency_activated = false;
        } else {
            let filter_should_have_converged = self.strong_not_saturated_render_blocks > 6
                * NUM_BLOCKS_PER_SECOND;
            self.transparency_activated = filter_should_have_converged;
        }
    }
}

/// The classifier in use, if any.
pub enum TransparentMode<T: Real> {
    Disabled,
    Hmm(TransparentModeHmm<T>),
    Legacy(TransparentModeLegacy),
}

impl<T: Real> TransparentMode<T> {
    /// Whether the mode is on.
    pub open spec fn is_active(&self) -> bool {
        match self {
            TransparentMode::Disabled => false,
            TransparentMode::Hmm(hmm) => hmm.activated(),
            TransparentMode::Legacy(legacy) => legacy.transparency_activated,
        }
    }

    pub open spec fn has_room(&self) -> bool {
        self matches TransparentMode::Legacy(legacy) ==> legacy.has_room()
    }

    /// Whether this is the classifier that a configuration calls for, before it has
    /// observed anything. There is none when the echo return loss is bounded or the
    /// mode is switched off.
    pub open spec fn is_new(
        &self,
        config: EchoCanceller3Config,
        hmm_parameters: HmmParameters<T>,
    ) -> bool {
        if config.ep_strength.bounded_erl || !config.transparent_mode.enabled {
            self is Disabled
        } else if config.transparent_mode.use_hmm {
            &&& self matches TransparentMode::Hmm(hmm)
            &&& hmm.settings() == hmm_parameters
            &&& hmm.probability() == hmm_parameters.initial_prob_transparent
            &&& !hmm.activated()
        } else {
            &&& self matches TransparentMode::Legacy(legacy)
            &&& legacy == TransparentModeLegacy::initial(
                config.echo_removal_control.linear_and_stable_echo_path,
            )
        }
    }

    pub fn new(config: &EchoCanceller3Config, hmm_parameters: HmmParameters<T>) -> (mode: Self)
        ensures
            mode.is_new(*config, hmm_parameters),
    {
        if config.ep_strength.bounded_erl || !config.transparent_mode.enabled {
            return TransparentMode::Disabled;
        }
        if config.transparent_mode.use_hmm {
            TransparentMode::Hmm(TransparentModeHmm::new(hmm_parameters))
        } else {
            TransparentMode::Legacy(TransparentModeLegacy::new(config))
        }
    }

    /// Whether `after` is `self` after a reset.
    pub open spec fn is_reset(&self, after: Self) -> bool {
        match (*self, after) {
            (TransparentMode::Disabled, TransparentMode::Disabled) => true,
            (TransparentMode::Hmm(before), TransparentMode::Hmm(hmm)) => {
                &&& !hmm.activated()
                &&& hmm.settings() == before.settings()
                &&& hmm.probability() == before.settings().initial_prob_transparent
            },
            (TransparentMode::Legacy(before), TransparentMode::Legacy(legacy)) => legacy
                == before.after_reset(),
            _ => false,
        }
    }

    pub fn reset(&mut self)
        ensures
            old(self).is_reset(*final(self)),
    {
        match self {
            TransparentMode::Disabled => {},
            TransparentMode::Hmm(hmm) => {
                hmm.reset();
            },
            TransparentMode::Legacy(legacy) => {
                legacy.reset();
            },
        }
    }

    pub fn active(&self) -> (active: bool)
        ensures
            active == self.is_active(),
    {
        match self {
            TransparentMode::Disabled => false,
            TransparentMode::Hmm(hmm) => hmm.active(),
            TransparentMode::Legacy(legacy) => legacy.active(),
        }
    }

    /// Whether `after` is `self` once a block was observed. A classifier that is
    /// switched off stays off.
    pub open spec fn observed(&self, after: Self, observation: FilterObservation) -> bool {
        match (*self, after) {
            (TransparentMode::Disabled, TransparentMode::Disabled) => true,
            (TransparentMode::Hmm(before), TransparentMode::Hmm(hmm)) => before.observed(
                hmm,
                observation,
            ),
            (TransparentMode::Legacy(before), TransparentMode::Legacy(legacy)) => {
                &&& before.counted(observation, legacy)
                &&& before.concluded(observation, legacy)
            },
            _ => false,
        }
    }

    pub fn update(&mut self, observation: &FilterObservation)
        requires
            is_total::<T>(),
            old(self).has_room(),
        ensures
            old(self).observed(*final(self), *observation),
    {
        match self {
            TransparentMode::Disabled => {},
            TransparentMode::Hmm(hmm) => {
                hmm.update(observation);
            },
            TransparentMode::Legacy(legacy) => {
                legacy.update(observation);
            },
        }
    }
}

/// A classifier that is switched off stays off and never turns the mode on.
pub proof fn law_switched_off<T: Real>(
    before: TransparentMode<T>,
    after: TransparentMode<T>,
    observation: FilterObservation,
)
    requires
        before is Disabled,
        before.observed(after, observation) || before.is_reset(after),
    ensures
        after is Disabled,
        !after.is_active(),
{
}

/// Without active render a classifier with hidden states keeps its verdict.
pub proof fn law_silence_keeps_verdict<T: Real>(
    before: TransparentMode<T>,
    after: TransparentMode<T>,
    observation: FilterObservation,
)
    requires
        before is Hmm,
        !observation.active_render,
        before.observed(after, observation),
    ensures
        after.is_active() == before.is_active(),
{
}

} // verus!
