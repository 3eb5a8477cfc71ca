//! The initial phase of the echo canceller.
use crate::api::config::EchoCanceller3Config;
use vstd::prelude::*;

verus! {

/// Length of a conservative initial phase, in blocks.
pub const CONSERVATIVE_INITIAL_BLOCKS: usize = 1250;

/// Counts strong render blocks until the initial phase is over.
pub struct InitialState {
    limit_blocks: usize,
    transition_triggered: bool,
    initial_state_active: bool,
    strong_not_saturated_render_blocks: usize,
}

impl InitialState {
    pub closed spec fn limit(&self) -> nat {
        self.limit_blocks as nat
    }

    pub closed spec fn triggered(&self) -> bool {
        self.transition_triggered
    }

    pub closed spec fn is_initial(&self) -> bool {
        self.initial_state_active
    }

    pub closed spec fn blocks(&self) -> nat {
        self.strong_not_saturated_render_blocks as nat
    }

    /// Blocks were counted before the phase ended, and the transition is
    /// reported only after it.
    pub closed spec fn inv(&self) -> bool {
        &&& !self.initial_state_active ==> self.strong_not_saturated_render_blocks
            >= self.limit_blocks
        &&& self.transition_triggered ==> !self.initial_state_active
    }

    pub fn new(config: &EchoCanceller3Config) -> (state: Self)
        ensures
            state.inv(),
            state.limit() == (if config.filter.conservative_initial_phase {
                CONSERVATIVE_INITIAL_BLOCKS
            } else {
                config.filter.initial_state_blocks
            }),
            !state.triggered(),
            state.is_initial(),
            state.blocks() == 0,
    {
        InitialState {
            limit_blocks: if config.filter.conservative_initial_phase {
                CONSERVATIVE_INITIAL_BLOCKS
            } else {
                config.filter.initial_state_blocks
            },
            transition_triggered: false,
            initial_state_active: true,
            strong_not_saturated_render_blocks: 0,
        }
    }

    pub fn reset(&mut self)
        ensures
            final(self).inv(),
            final(self).limit() == old(self).limit(),
            !final(self).triggered(),
            final(self).is_initial(),
            final(self).blocks() == 0,
    {
        self.transition_triggered = false;
        self.initial_state_active = true;
        self.strong_not_saturated_render_blocks = 0;
    }

    /// Counts a block. The phase lasts while fewer blocks than the limit were
    /// counted; once it is over it stays over until a reset, so that the
    /// transition is triggered once.
    pub fn update(&mut self, active_render: bool, saturated_capture: bool)
        requires
            old(self).inv(),
            old(self).blocks() < usize::MAX,
        ensures
            final(self).inv(),
            final(self).limit() == old(self).limit(),
            final(self).blocks() == old(self).blocks() + (if active_render && !saturated_capture {
                1int
            } else {
                0int
            }),
            final(self).is_initial() == (final(self).blocks() < final(self).limit()),
            final(self).triggered() == (old(self).is_initial() && !final(self).is_initial()),
            !old(self).is_initial() ==> !final(self).is_initial() && !final(self).triggered(),
    {
        if active_render && !saturated_capture {
            self.strong_not_saturated_render_blocks = self.strong_not_saturated_render_blocks + 1;
        }
        let prev_initial_state = self.initial_state_active;
        self.initial_state_active = self.strong_not_saturated_render_blocks < self.limit_blocks;
        self.transition_triggered = !self.initial_state_active && prev_initial_state;
    }

    pub fn initial_state_active(&self) -> (active: bool)
        ensures
            active == self.is_initial(),
    {
        self.initial_state_active
    }

    pub fn transition_triggered(&self) -> (triggered: bool)
        ensures
            triggered == self.triggered(),
    {
        self.transition_triggered
    }
}

} // verus!
