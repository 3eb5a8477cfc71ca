//! Transposed direct form I biquad filter.
use crate::audio_processing::arithmetic::{
    difference, is_functional, is_total, minus, plus, product, sum, times, zero, zero_of, Real,
};
use crate::audio_processing::ordered::{is_exact, lemma_exact};
use vstd::prelude::*;

verus! {

/// Normalized biquad filter coefficients.
#[derive(Debug, Copy, Clone)]
pub struct Config<T: Real> {
    /// b[0], b[1], b[2].
    pub b: [T; 3],
    /// a[1], a[2].
    pub a: [T; 2],
}

/// The last two inputs and the last two outputs.
#[derive(Debug, Copy, Clone)]
pub struct State<T: Real> {
    pub x1: T,
    pub x2: T,
    pub y1: T,
    pub y2: T,
}

/// The state of a filter that has not seen any sample.
pub open spec fn initial_state<T: Real>() -> State<T> {
    State { x1: zero_of(), x2: zero_of(), y1: zero_of(), y2: zero_of() }
}

/// The output for a sample.
pub open spec fn output<T: Real>(config: Config<T>, state: State<T>, x: T) -> T {
    minus(
        minus(
            plus(
                plus(times(config.b@[0], x), times(config.b@[1], state.x1)),
                times(config.b@[2], state.x2),
            ),
            times(config.a@[0], state.y1),
        ),
        times(config.a@[1], state.y2),
    )
}

/// The state after the first `n` samples of `x`.
pub open spec fn state_after<T: Real>(config: Config<T>, state: State<T>, x: Seq<T>, n: int) -> State<
    T,
>
    decreases n,
{
    if n <= 0 {
        state
    } else {
        let before = state_after(config, state, x, n - 1);
        State {
            x1: x[n - 1],
            x2: before.x1,
            y1: output(config, before, x[n - 1]),
            y2: before.y1,
        }
    }
}

/// The filtered signal.
pub open spec fn filtered<T: Real>(config: Config<T>, state: State<T>, x: Seq<T>) -> Seq<T> {
    Seq::new(x.len(), |k: int| output(config, state_after(config, state, x, k), x[k]))
}

/// Transposed direct form I implementation of a bi-quad filter.
#[derive(Debug, Copy, Clone)]
pub struct BiQuadFilter<T: Real> {
    config: Config<T>,
    state: State<T>,
}

impl<T: Real> BiQuadFilter<T> {
    pub closed spec fn coefficients(&self) -> Config<T> {
        self.config
    }

    pub closed spec fn memory(&self) -> State<T> {
        self.state
    }

    pub fn new(config: Config<T>) -> (filter: Self)
        requires
            is_total::<T>(),
        ensures
            filter.coefficients() == config,
            is_functional::<T>() ==> filter.memory() == initial_state::<T>(),
    {
        BiQuadFilter { config, state: State { x1: zero(), x2: zero(), y1: zero(), y2: zero() } }
    }

    /// Sets filter configuration and resets internal state.
    pub fn set_config(&mut self, config: Config<T>)
        requires
            is_total::<T>(),
        ensures
            final(self).coefficients() == config,
            is_functional::<T>() ==> final(self).memory() == initial_state::<T>(),
    {
        self.config = config;
        self.state = State { x1: zero(), x2: zero(), y1: zero(), y2: zero() };
    }

    /// Zeroes filter state.
    pub fn reset(&mut self)
        requires
            is_total::<T>(),
        ensures
            final(self).coefficients() == old(self).coefficients(),
            is_functional::<T>() ==> final(self).memory() == initial_state::<T>(),
    {
        self.state = State { x1: zero(), x2: zero(), y1: zero(), y2: zero() };
    }

    /// Filters `x` into `y` (same length).
    pub fn process(&mut self, x: &[T], y: &mut [T])
        requires
            is_total::<T>(),
            x@.len() == old(y)@.len(),
        ensures
            final(y)@.len() == old(y)@.len(),
            final(self).coefficients() == old(self).coefficients(),
            is_functional::<T>() ==> {
                &&& final(y)@ == filtered(old(self).coefficients(), old(self).memory(), x@)
                &&& final(self).memory() == state_after(
                    old(self).coefficients(),
                    old(self).memory(),
                    x@,
                    x@.len() as int,
                )
            },
    {
        let config = self.config;
        let ghost before = self.state;
        let mut k: usize = 0;
        while k < x.len()
            invariant
                is_total::<T>(),
                k <= x@.len() == y@.len(),
                self.config == config,
                is_functional::<T>() ==> {
                    &&& self.state == state_after(config, before, x@, k as int)
                    &&& forall|j: int|
                        0 <= j < k ==> #[trigger] y@[j] == output(
                            config,
                            state_after(config, before, x@, j),
                            x@[j],
                        )
                },
            decreases x@.len() - k,
        {
            let tmp = x[k];
            let state = self.state;
            let y_val = difference(
                difference(
                    sum(
                        sum(product(config.b[0], tmp), product(config.b[1], state.x1)),
                        product(config.b[2], state.x2),
                    ),
                    product(config.a[0], state.y1),
                ),
                product(config.a[1], state.y2),
            );
            self.state = State { x1: tmp, x2: state.x1, y1: y_val, y2: state.y1 };
            y[k] = y_val;
            k = k + 1;
        }
        proof {
            if is_functional::<T>() {
                assert(y@ =~= filtered(config, before, x@));
            }
        }
    }
}

/// The output meets the difference equation of the filter: an output and the two before
/// it, weighted by the coefficients of the feedback, add up to what an input and the two
/// before it do, weighted by the others.
pub proof fn law_difference_equation<T: Real>(
    config: Config<T>,
    state: State<T>,
    x: Seq<T>,
    n: int,
)
    requires
        is_exact::<T>(),
        2 <= n < x.len(),
    ensures
        ({
            let y = filtered(config, state, x);
            plus(
                plus(y[n], times(config.a@[1], y[n - 2])),
                times(config.a@[0], y[n - 1]),
            ) == plus(
                plus(times(config.b@[0], x[n]), times(config.b@[1], x[n - 1])),
                times(config.b@[2], x[n - 2]),
            )
        }),
{
    let y = filtered(config, state, x);
    let before = state_after(config, state, x, n);
    let second = state_after(config, state, x, n - 1);
    let third = state_after(config, state, x, n - 2);
    assert(y[n - 1] == output(config, second, x[n - 1]));
    assert(y[n - 2] == output(config, third, x[n - 2]));
    assert(second.y1 == y[n - 2]);
    let inputs = plus(
        plus(times(config.b@[0], x[n]), times(config.b@[1], x[n - 1])),
        times(config.b@[2], x[n - 2]),
    );
    let p = times(config.a@[0], y[n - 1]);
    let q = times(config.a@[1], y[n - 2]);
    lemma_exact(minus(inputs, p), q, zero_of());
    lemma_exact(inputs, p, zero_of());
}

/// A filter that has not seen any sample starts with the first coefficients alone.
pub proof fn law_first_outputs<T: Real>(config: Config<T>, x: Seq<T>)
    requires
        is_exact::<T>(),
        x.len() >= 2,
    ensures
        ({
            let y = filtered(config, initial_state(), x);
            &&& y[0] == times(config.b@[0], x[0])
            &&& plus(y[1], times(config.a@[0], y[0])) == plus(
                times(config.b@[0], x[1]),
                times(config.b@[1], x[0]),
            )
        }),
{
    let zero = zero_of::<T>();
    let state = initial_state();
    let y = filtered(config, state, x);
    lemma_exact(config.b@[1], zero, zero);
    lemma_exact(config.b@[2], zero, zero);
    lemma_exact(config.a@[0], zero, zero);
    lemma_exact(config.a@[1], zero, zero);
    let first = times(config.b@[0], x[0]);
    lemma_exact(first, zero, zero);
    assert(state_after(config, state, x, 0) == state);
    assert(y[0] == first);
    let inputs = plus(times(config.b@[0], x[1]), times(config.b@[1], x[0]));
    let p = times(config.a@[0], y[0]);
    lemma_exact(inputs, zero, zero);
    lemma_exact(inputs, p, zero);
    lemma_exact(minus(inputs, p), zero, zero);
    let next = state_after(config, state, x, 1);
    assert(next.y1 == y[0]);
    assert(next.x1 == x[0]);
}

/// Filtering a signal in two chunks leaves the state that filtering it at once
/// leaves.
pub proof fn law_chunks<T: Real>(config: Config<T>, state: State<T>, x: Seq<T>, y: Seq<T>, n: int)
    requires
        0 <= n <= y.len(),
    ensures
        state_after(config, state, x + y, x.len() + n) == state_after(
            config,
            state_after(config, state, x, x.len() as int),
            y,
            n,
        ),
    decreases n,
{
    if n > 0 {
        law_chunks(config, state, x, y, n - 1);
        assert((x + y)[x.len() + n - 1] == y[n - 1]);
    } else {
        lemma_prefix(config, state, x, y, x.len() as int);
    }
}

/// The state depends only on the samples that were seen.
proof fn lemma_prefix<T: Real>(config: Config<T>, state: State<T>, x: Seq<T>, y: Seq<T>, n: int)
    requires
        0 <= n <= x.len(),
    ensures
        state_after(config, state, x + y, n) == state_after(config, state, x, n),
    decreases n,
{
    if n > 0 {
        lemma_prefix(config, state, x, y, n - 1);
    }
}

/// Filtering a signal in two chunks gives the output of filtering it at once.
pub proof fn law_chunked_output<T: Real>(config: Config<T>, state: State<T>, x: Seq<T>, y: Seq<T>)
    ensures
        filtered(config, state, x + y) == filtered(config, state, x) + filtered(
            config,
            state_after(config, state, x, x.len() as int),
            y,
        ),
{
    assert forall|k: int| 0 <= k < (x + y).len() implies filtered(config, state, x + y)[k] == (
    filtered(config, state, x) + filtered(
        config,
        state_after(config, state, x, x.len() as int),
        y,
    ))[k] by {
        if k < x.len() {
            lemma_prefix(config, state, x, y, k);
        } else {
            law_chunks(config, state, x, y, k - x.len());
        }
    }
    assert(filtered(config, state, x + y) =~= filtered(config, state, x) + filtered(
        config,
        state_after(config, state, x, x.len() as int),
        y,
    ));
}

} // verus!
