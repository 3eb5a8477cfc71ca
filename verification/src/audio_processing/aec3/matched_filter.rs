//! Search for the lag between the render and the capture signal.
//!
//! A bank of adaptive filters, each covering a range of lags, is adapted to
//! predict the capture from the render. The filter that predicts it best tells
//! the lag by the position of its largest tap.
use crate::audio_processing::aec3::aec3_common::BLOCK_SIZE;
use crate::audio_processing::aec3::downsampled_render_buffer::DownsampledRenderBuffer;
use crate::audio_processing::arithmetic::{
    absolute, apply, at_most, difference, dot, dot_product, energy, image, is_at_most,
    is_functional, is_less, is_mapping, is_total, less, magnitude, minus, multiply_add, negative,
    opposite, over, plus, plus_product, product, quotient, same, sum, times, zero, zero_of, Real,
};
use crate::audio_processing::ordered::{
    is_exact, is_number, is_one, is_ordered, law_magnitude, lemma_adds_nothing, lemma_exact,
    lemma_order, lemma_products, lemma_sums, products_keep_order, sums_keep_order,
};
use vstd::prelude::*;

verus! {

/// Subsample rate of the accumulated error.
pub const ACCUMULATED_ERROR_SUB_SAMPLE_RATE: usize = 4;

/// Number of updates of the accumulated error before pre-echoes are reported.
pub const MIN_PRE_ECHO_UPDATES: i32 = 50;

/// Result of one round of lag estimation.
#[derive(Debug, Clone, Copy, PartialEq, Eq, Structural)]
pub struct LagEstimate {
    pub lag: usize,
    /// Lag of the earliest reflection that already explains the capture signal.
    /// Equal to `lag` when pre-echo detection is off or still warming up.
    pub pre_echo_lag: usize,
}

impl Default for LagEstimate {
    fn default() -> (estimate: Self)
        ensures
            estimate == (LagEstimate { lag: 0, pre_echo_lag: 0 }),
    {
        LagEstimate { lag: 0, pre_echo_lag: 0 }
    }
}

impl LagEstimate {
    pub fn new(lag: usize, pre_echo_lag: usize) -> (estimate: Self)
        ensures
            estimate == (LagEstimate { lag, pre_echo_lag }),
    {
        LagEstimate { lag, pre_echo_lag }
    }
}

/// Settings of the adaptation of one filter.
#[derive(Debug, Clone, Copy)]
pub struct CoreParameters<T: Real> {
    /// Render energy above which the filter is adapted.
    pub x2_sum_threshold: T,
    pub smoothing: T,
    /// Capture magnitude from which a sample counts as saturated.
    pub saturation_limit: T,
}

/// A filter while it works through the capture samples.
pub struct FilterRun<T> {
    pub h: Seq<T>,
    pub error_sum: T,
    pub updated: bool,
    pub start: int,
    /// Error of the filter truncated to every fourth tap.
    pub accumulated_error: Seq<T>,
}

/// The `len` samples of the circular buffer `x` from index `from` on.
pub open spec fn window<T>(x: Seq<T>, from: int, len: int) -> Seq<T> {
    Seq::new(len as nat, |k: int| x[(from + k) % (x.len() as int)])
}

/// Whether a capture sample is beyond the saturation limit.
pub open spec fn saturates<T: Real>(y: T, limit: T) -> bool {
    at_most(limit, y) || at_most(y, negative(limit))
}

/// The error of the filter truncated to `taps` taps.
pub open spec fn truncated_error<T: Real>(h: Seq<T>, w: Seq<T>, y: T, taps: int) -> T {
    minus(y, dot(h, w, taps))
}

/// The accumulated errors with those for capture sample `y` added.
pub open spec fn with_truncated_errors<T: Real>(
    accumulated_error: Seq<T>,
    h: Seq<T>,
    w: Seq<T>,
    y: T,
    taps: int,
) -> Seq<T> {
    Seq::new(
        accumulated_error.len(),
        |j: int|
            if 4 * j + 4 <= taps {
                plus_product(
                    accumulated_error[j],
                    truncated_error(h, w, y, 4 * j + 4),
                    truncated_error(h, w, y, 4 * j + 4),
                )
            } else {
                accumulated_error[j]
            },
    )
}

/// Each tap moved along the render by `alpha`.
pub open spec fn adapted<T: Real>(h: Seq<T>, w: Seq<T>, alpha: T) -> Seq<T> {
    Seq::new(h.len(), |k: int| plus_product(h[k], alpha, w[k]))
}

impl<T: Real> FilterRun<T> {
    /// One more capture sample: the error of the prediction adds to the sum, and
    /// where the render is strong enough and the sample does not saturate, the
    /// filter is adapted. The next sample sees the render one sample later.
    pub open spec fn after_sample(self, p: CoreParameters<T>, x: Seq<T>, y: T) -> FilterRun<T> {
        let w = window(x, self.start, self.h.len() as int);
        let x2_sum = energy(w);
        let error = truncated_error(self.h, w, y, self.h.len() as int);
        let adapt = less(p.x2_sum_threshold, x2_sum) && !saturates(y, p.saturation_limit);
        FilterRun {
            h: if adapt {
                adapted(self.h, w, over(times(p.smoothing, error), x2_sum))
            } else {
                self.h
            },
            error_sum: plus_product(self.error_sum, error, error),
            updated: self.updated || adapt,
            start: if self.start > 0 {
                self.start - 1
            } else {
                x.len() - 1
            },
            accumulated_error: with_truncated_errors(
                self.accumulated_error,
                self.h,
                w,
                y,
                self.h.len() as int,
            ),
        }
    }

    pub open spec fn after_samples(self, p: CoreParameters<T>, x: Seq<T>, y: Seq<T>) -> FilterRun<T>
        decreases y.len(),
    {
        if y.len() == 0 {
            self
        } else {
            self.after_samples(p, x, y.drop_last()).after_sample(p, x, y.last())
        }
    }
}

/// Of exact numbers, a filter that moves along the render predicts more by so much times
/// the energy of the render.
pub proof fn law_adapted_prediction<T: Real>(h: Seq<T>, w: Seq<T>, alpha: T, n: int)
    requires
        is_exact::<T>(),
        0 <= n <= h.len() == w.len(),
    ensures
        dot(adapted(h, w, alpha), w, n) == plus(dot(h, w, n), times(alpha, dot(w, w, n))),
    decreases n,
{
    if n <= 0 {
        lemma_exact(alpha, zero_of(), zero_of());
        lemma_exact(zero_of::<T>(), zero_of(), zero_of());
    } else {
        law_adapted_prediction(h, w, alpha, n - 1);
        let a = dot(h, w, n - 1);
        let b = dot(w, w, n - 1);
        let tap = h[n - 1];
        let x = w[n - 1];
        lemma_exact(tap, times(alpha, x), x);
        lemma_exact(alpha, x, x);
        lemma_exact(b, times(x, x), alpha);
        let c = times(tap, x);
        let d = times(alpha, times(x, x));
        let e = times(alpha, b);
        // (a + e) + (c + d) is (a + c) + (e + d).
        lemma_exact(a, e, plus(c, d));
        lemma_exact(e, c, d);
        lemma_exact(c, e, d);
        lemma_exact(a, c, plus(e, d));
    }
}

/// Of exact numbers, an update of the filter takes the share of the smoothing off the
/// error that it makes on the same sample.
pub proof fn law_update_reduces_error<T: Real>(
    run: FilterRun<T>,
    p: CoreParameters<T>,
    x: Seq<T>,
    y: T,
)
    requires
        is_exact::<T>(),
        less(p.x2_sum_threshold, energy(window(x, run.start, run.h.len() as int))),
        less(zero_of(), energy(window(x, run.start, run.h.len() as int))),
        !saturates(y, p.saturation_limit),
    ensures
        ({
            let w = window(x, run.start, run.h.len() as int);
            let taps = run.h.len() as int;
            let before = minus(y, dot(run.h, w, taps));
            let after = minus(y, dot(run.after_sample(p, x, y).h, w, taps));
            after == minus(before, times(p.smoothing, before))
        }),
{
    let w = window(x, run.start, run.h.len() as int);
    let taps = run.h.len() as int;
    let before = minus(y, dot(run.h, w, taps));
    let alpha = over(times(p.smoothing, before), energy(w));
    law_adapted_prediction(run.h, w, alpha, taps);
    lemma_exact(times(p.smoothing, before), energy(w), zero_of());
    lemma_exact(y, dot(run.h, w, taps), times(alpha, energy(w)));
}

/// A sample that saturates, or render that is too weak, leaves the filter as it is; the
/// next sample is met by the render one sample later in either case.
pub proof fn law_filter_is_kept<T: Real>(
    run: FilterRun<T>,
    p: CoreParameters<T>,
    x: Seq<T>,
    y: T,
)
    requires
        0 <= run.start < x.len(),
    ensures
        at_most(p.saturation_limit, y) || at_most(y, negative(p.saturation_limit)) || !less(
            p.x2_sum_threshold,
            energy(window(x, run.start, run.h.len() as int)),
        ) ==> run.after_sample(p, x, y).h == run.h && run.after_sample(p, x, y).updated
            == run.updated,
        (run.after_sample(p, x, y).start + 1) % (x.len() as int) == run.start,
{
    let next = run.after_sample(p, x, y).start;
    if run.start > 0 {
        vstd::arithmetic::div_mod::lemma_small_mod((next + 1) as nat, x.len());
    } else {
        vstd::arithmetic::div_mod::lemma_mod_self_0(x.len() as int);
    }
}

/// A capture sample adds the square of its prediction error to the sum, and that of each
/// truncation, of as many times four taps as its place says, to the errors of the
/// truncations.
pub proof fn law_errors_add_up<T: Real>(
    run: FilterRun<T>,
    p: CoreParameters<T>,
    x: Seq<T>,
    y: T,
    j: int,
)
    requires
        0 <= j < run.accumulated_error.len(),
        4 * run.accumulated_error.len() <= run.h.len(),
    ensures
        ({
            let w = window(x, run.start, run.h.len() as int);
            let error = minus(y, dot(run.h, w, run.h.len() as int));
            let truncated = minus(y, dot(run.h, w, 4 * (j + 1)));
            &&& run.after_sample(p, x, y).error_sum == plus(run.error_sum, times(error, error))
            &&& run.after_sample(p, x, y).accumulated_error[j] == plus(
                run.accumulated_error[j],
                times(truncated, truncated),
            )
        }),
{
}

/// The window that the next capture sample meets has one render sample before those of the
/// window now.
pub proof fn law_window_moves_on<T: Real>(x: Seq<T>, start: int, len: int, k: int)
    requires
        0 <= start < x.len(),
        0 <= k < len - 1,
    ensures
        window(x, if start > 0 {
            start - 1
        } else {
            x.len() - 1
        }, len)[k + 1] == window(x, start, len)[k],
        window(x, start, len)[0] == x[start],
{
    let n = x.len() as int;
    if start == 0 {
        assert(n - 1 + (k + 1) == k + n);
        vstd::arithmetic::div_mod::lemma_mod_add_multiples_vanish(k, n);
    } else {
        assert(start - 1 + (k + 1) == start + k);
    }
    vstd::arithmetic::div_mod::lemma_small_mod(start as nat, x.len());
}

/// The run of filter `h` over the capture `y`, from render index `start` on.
pub open spec fn filter_run<T: Real>(
    h: Seq<T>,
    start: int,
    p: CoreParameters<T>,
    x: Seq<T>,
    y: Seq<T>,
    accumulated_errors: nat,
) -> FilterRun<T> {
    FilterRun {
        h,
        error_sum: zero_of(),
        updated: false,
        start,
        accumulated_error: Seq::new(accumulated_errors, |j: int| zero_of()),
    }.after_samples(p, x, y)
}

/// Whether the accumulated errors are kept makes no difference to the filter.
pub proof fn law_accumulation_is_passive<T: Real>(
    h: Seq<T>,
    start: int,
    p: CoreParameters<T>,
    x: Seq<T>,
    y: Seq<T>,
    accumulated_errors: nat,
)
    ensures
        filter_run(h, start, p, x, y, accumulated_errors).h == filter_run(h, start, p, x, y, 0).h,
        filter_run(h, start, p, x, y, accumulated_errors).error_sum == filter_run(
            h,
            start,
            p,
            x,
            y,
            0,
        ).error_sum,
        filter_run(h, start, p, x, y, accumulated_errors).updated == filter_run(
            h,
            start,
            p,
            x,
            y,
            0,
        ).updated,
        filter_run(h, start, p, x, y, accumulated_errors).start == filter_run(
            h,
            start,
            p,
            x,
            y,
            0,
        ).start,
        filter_run(h, start, p, x, y, accumulated_errors).h.len() == h.len(),
        filter_run(h, start, p, x, y, accumulated_errors).accumulated_error.len()
            == accumulated_errors,
    decreases y.len(),
{
    if y.len() > 0 {
        law_accumulation_is_passive(h, start, p, x, y.drop_last(), accumulated_errors);
    }
}

proof fn lemma_wrap(from: int, k: int, n: int)
    requires
        0 <= from,
        0 <= k,
        0 < n,
    ensures
        0 <= (from + k) % n < n,
        (from + k + 1) % n == if (from + k) % n + 1 < n {
            (from + k) % n + 1
        } else {
            0
        },
{
    let a = from + k;
    let q = a / n;
    let r = a % n;
    vstd::arithmetic::div_mod::lemma_fundamental_div_mod(a, n);
    if r + 1 < n {
        vstd::arithmetic::div_mod::lemma_fundamental_div_mod_converse(a + 1, n, q, r + 1);
    } else {
        assert(n * (q + 1) == n * q + n) by (nonlinear_arith);
        vstd::arithmetic::div_mod::lemma_fundamental_div_mod_converse(a + 1, n, q + 1, 0);
    }
}

/// Outcome of the adaptation of one filter.
#[derive(Debug, Clone, Copy)]
pub struct MatchedFilterCoreResult<T: Real> {
    pub filters_updated: bool,
    pub error_sum: T,
}

/// The energy of the render and the prediction of the filter.
fn correlate<T: Real>(x: &[T], from: usize, h: &Vec<T>) -> (result: (T, T))
    requires
        is_total::<T>(),
        from < x@.len(),
    ensures
        is_functional::<T>() ==> {
            let w = window(x@, from as int, h@.len() as int);
            result.0 == energy(w) && result.1 == dot(h@, w, h@.len() as int)
        },
{
    let ghost w = window(x@, from as int, h@.len() as int);
    let mut x2_sum = zero();
    let mut s = zero();
    let mut x_index: usize = from;
    let mut k: usize = 0;
    assert((from + 0) % (x@.len() as int) == from) by {
        vstd::arithmetic::div_mod::lemma_small_mod(from as nat, x@.len());
    }
    while k < h.len()
        invariant
            is_total::<T>(),
            from < x@.len(),
            w == window(x@, from as int, h@.len() as int),
            k <= h@.len(),
            x_index < x@.len(),
            x_index == (from + k) % (x@.len() as int),
            is_functional::<T>() ==> x2_sum == dot(w, w, k as int) && s == dot(h@, w, k as int),
        decreases h@.len() - k,
    {
        proof {
            lemma_wrap(from as int, k as int, x@.len() as int);
        }
        let x_k = x[x_index];
        x2_sum = multiply_add(x2_sum, x_k, x_k);
        s = multiply_add(s, h[k], x_k);
        x_index = if x_index + 1 < x.len() {
            x_index + 1
        } else {
            0
        };
        k = k + 1;
    }
    (x2_sum, s)
}

/// The same, and the squared errors of the truncated filters added to
/// `accumulated_error`.
fn correlate_with_truncated_errors<T: Real>(
    x: &[T],
    from: usize,
    h: &Vec<T>,
    y_sample: T,
    accumulated_error: &mut Vec<T>,
) -> (result: (T, T))
    requires
        is_total::<T>(),
        from < x@.len(),
        h@.len() / 4 <= old(accumulated_error)@.len(),
    ensures
        final(accumulated_error)@.len() == old(accumulated_error)@.len(),
        is_functional::<T>() ==> {
            let w = window(x@, from as int, h@.len() as int);
            &&& result.0 == energy(w)
            &&& result.1 == dot(h@, w, h@.len() as int)
            &&& final(accumulated_error)@ == with_truncated_errors(
                old(accumulated_error)@,
                h@,
                w,
                y_sample,
                h@.len() as int,
            )
        },
{
    let ghost w = window(x@, from as int, h@.len() as int);
    let ghost before = accumulated_error@;
    let mut x2_sum = zero();
    let mut s = zero();
    let mut x_index: usize = from;
    let mut k: usize = 0;
    proof {
        vstd::arithmetic::div_mod::lemma_small_mod(from as nat, x@.len());
        assert(before =~= with_truncated_errors(before, h@, w, y_sample, 0));
    }
    while k < h.len()
        invariant
            is_total::<T>(),
            from < x@.len(),
            w == window(x@, from as int, h@.len() as int),
            k <= h@.len(),
            h@.len() / 4 <= before.len(),
            accumulated_error@.len() == before.len(),
            x_index < x@.len(),
            x_index == (from + k) % (x@.len() as int),
            is_functional::<T>() ==> {
                &&& x2_sum == dot(w, w, k as int)
                &&& s == dot(h@, w, k as int)
                &&& accumulated_error@ == with_truncated_errors(before, h@, w, y_sample, k as int)
            },
        decreases h@.len() - k,
    {
        proof {
            lemma_wrap(from as int, k as int, x@.len() as int);
        }
        let ghost partial = accumulated_error@;
        let x_k = x[x_index];
        x2_sum = multiply_add(x2_sum, x_k, x_k);
        s = multiply_add(s, h[k], x_k);
        x_index = if x_index + 1 < x.len() {
            x_index + 1
        } else {
            0
        };
        if (k + 1) % ACCUMULATED_ERROR_SUB_SAMPLE_RATE == 0 {
            let partial_error = difference(y_sample, s);
            let j: usize = k / ACCUMULATED_ERROR_SUB_SAMPLE_RATE;
            let value = multiply_add(accumulated_error[j], partial_error, partial_error);
            accumulated_error[j] = value;
        }
        k = k + 1;
        proof {
            if is_functional::<T>() {
                assert(accumulated_error@ =~= with_truncated_errors(
                    before,
                    h@,
                    w,
                    y_sample,
                    k as int,
                ));
            }
        }
    }
    (x2_sum, s)
}

/// Moves each tap along the render by `alpha`.
fn nlms_update<T: Real>(x: &[T], from: usize, h: &mut Vec<T>, alpha: T)
    requires
        is_total::<T>(),
        from < x@.len(),
    ensures
        final(h)@.len() == old(h)@.len(),
        is_functional::<T>() ==> final(h)@ == adapted(
            old(h)@,
            window(x@, from as int, old(h)@.len() as int),
            alpha,
        ),
{
    let ghost before = h@;
    let ghost w = window(x@, from as int, before.len() as int);
    let mut x_index: usize = from;
    let mut k: usize = 0;
    proof {
        vstd::arithmetic::div_mod::lemma_small_mod(from as nat, x@.len());
    }
    while k < h.len()
        invariant
            is_total::<T>(),
            from < x@.len(),
            w == window(x@, from as int, before.len() as int),
            k <= h@.len() == before.len(),
            x_index < x@.len(),
            x_index == (from + k) % (x@.len() as int),
            is_functional::<T>() ==> forall|j: int|
                0 <= j < k ==> h@[j] == plus_product(before[j], alpha, w[j]),
            forall|j: int| k <= j < before.len() ==> h@[j] == before[j],
        decreases before.len() - k,
    {
        proof {
            lemma_wrap(from as int, k as int, x@.len() as int);
        }
        let tap = multiply_add(h[k], alpha, x[x_index]);
        h[k] = tap;
        x_index = if x_index + 1 < x.len() {
            x_index + 1
        } else {
            0
        };
        k = k + 1;
    }
    proof {
        if is_functional::<T>() {
            assert(h@ =~= adapted(before, w, alpha));
        }
    }
}

/// Adapts the filter to one capture sample, given the render energy and the
/// prediction. Returns whether it was adapted.
fn adapt<T: Real>(
    parameters: &CoreParameters<T>,
    x: &[T],
    from: usize,
    h: &mut Vec<T>,
    y_sample: T,
    x2_sum: T,
    error: T,
) -> (adapts: bool)
    requires
        is_total::<T>(),
        from < x@.len(),
    ensures
        final(h)@.len() == old(h)@.len(),
        is_functional::<T>() ==> {
            &&& adapts == (less(parameters.x2_sum_threshold, x2_sum) && !saturates(
                y_sample,
                parameters.saturation_limit,
            ))
            &&& final(h)@ == if adapts {
                adapted(
                    old(h)@,
                    window(x@, from as int, old(h)@.len() as int),
                    over(times(parameters.smoothing, error), x2_sum),
                )
            } else {
                old(h)@
            }
        },
{
    let saturation = is_at_most(parameters.saturation_limit, y_sample) || is_at_most(
        y_sample,
        opposite(parameters.saturation_limit),
    );
    if is_less(parameters.x2_sum_threshold, x2_sum) && !saturation {
        let alpha = quotient(product(parameters.smoothing, error), x2_sum);
        nlms_update(x, from, h, alpha);
        true
    } else {
        false
    }
}

/// Adapts the filter `h` to the capture `y`, reading the circular render buffer
/// `x` from `x_start_index` on, one sample earlier for each capture sample.
pub fn matched_filter_core<T: Real>(
    x_start_index: usize,
    parameters: &CoreParameters<T>,
    x: &[T],
    y: &[T],
    h: &mut Vec<T>,
) -> (result: MatchedFilterCoreResult<T>)
    requires
        is_total::<T>(),
        x_start_index < x@.len(),
        old(h)@.len() > 0,
    ensures
        final(h)@.len() == old(h)@.len(),
        is_functional::<T>() ==> {
            let run = filter_run(old(h)@, x_start_index as int, *parameters, x@, y@, 0);
            &&& final(h)@ == run.h
            &&& result.error_sum == run.error_sum
            &&& result.filters_updated == run.updated
        },
{
    let ghost before = h@;
    let mut start: usize = x_start_index;
    let mut filters_updated = false;
    let mut error_sum = zero();
    let mut i: usize = 0;
    assert(y@.take(0) =~= Seq::empty());
    while i < y.len()
        invariant
            is_total::<T>(),
            i <= y@.len(),
            start < x@.len(),
            h@.len() == before.len(),
            is_functional::<T>() ==> {
                let run = filter_run(
                    before,
                    x_start_index as int,
                    *parameters,
                    x@,
                    y@.take(i as int),
                    0,
                );
                &&& h@ == run.h
                &&& error_sum == run.error_sum
                &&& filters_updated == run.updated
                &&& start == run.start
            },
        decreases y@.len() - i,
    {
        proof {
            assert(y@.take(i + 1).drop_last() =~= y@.take(i as int));
            assert(y@.take(i + 1).last() == y@[i as int]);
        }
        let y_sample = y[i];
        let (x2_sum, s) = correlate(x, start, h);
        let error = difference(y_sample, s);
        error_sum = multiply_add(error_sum, error, error);
        if adapt(parameters, x, start, h, y_sample, x2_sum, error) {
            filters_updated = true;
        }
        start = if start > 0 {
            start - 1
        } else {
            x.len() - 1
        };
        i = i + 1;
    }
    assert(y@.take(y@.len() as int) =~= y@);
    MatchedFilterCoreResult { filters_updated, error_sum }
}

/// The same, and records for every fourth tap the error of the filter truncated
/// to that many taps.
pub fn matched_filter_core_with_accumulated_error<T: Real>(
    x_start_index: usize,
    parameters: &CoreParameters<T>,
    x: &[T],
    y: &[T],
    h: &mut Vec<T>,
    accumulated_error: &mut Vec<T>,
) -> (result: MatchedFilterCoreResult<T>)
    requires
        is_total::<T>(),
        x_start_index < x@.len(),
        old(h)@.len() > 0,
        old(h)@.len() / 4 <= old(accumulated_error)@.len(),
    ensures
        final(h)@.len() == old(h)@.len(),
        final(accumulated_error)@.len() == old(accumulated_error)@.len(),
        is_functional::<T>() ==> {
            let run = filter_run(
                old(h)@,
                x_start_index as int,
                *parameters,
                x@,
                y@,
                old(accumulated_error)@.len(),
            );
            &&& final(h)@ == run.h
            &&& result.error_sum == run.error_sum
            &&& result.filters_updated == run.updated
            &&& final(accumulated_error)@ == run.accumulated_error
        },
{
    let ghost before = h@;
    let ghost errors = accumulated_error@.len();
    fill(accumulated_error, zero());
    let mut start: usize = x_start_index;
    let mut filters_updated = false;
    let mut error_sum = zero();
    let mut i: usize = 0;
    proof {
        assert(y@.take(0) =~= Seq::empty());
        if is_functional::<T>() {
            assert(accumulated_error@ =~= Seq::new(errors, |j: int| zero_of::<T>()));
        }
    }
    while i < y.len()
        invariant
            is_total::<T>(),
            i <= y@.len(),
            start < x@.len(),
            h@.len() == before.len(),
            accumulated_error@.len() == errors,
            h@.len() / 4 <= errors,
            is_functional::<T>() ==> {
                let run = filter_run(
                    before,
                    x_start_index as int,
                    *parameters,
                    x@,
                    y@.take(i as int),
                    errors,
                );
                &&& h@ == run.h
                &&& error_sum == run.error_sum
                &&& filters_updated == run.updated
                &&& start == run.start
                &&& accumulated_error@ == run.accumulated_error
            },
        decreases y@.len() - i,
    {
        proof {
            assert(y@.take(i + 1).drop_last() =~= y@.take(i as int));
            assert(y@.take(i + 1).last() == y@[i as int]);
        }
        let y_sample = y[i];
        let (x2_sum, s) = correlate_with_truncated_errors(
            x,
            start,
            h,
            y_sample,
            accumulated_error,
        );
        let error = difference(y_sample, s);
        error_sum = multiply_add(error_sum, error, error);
        if adapt(parameters, x, start, h, y_sample, x2_sum, error) {
            filters_updated = true;
        }
        start = if start > 0 {
            start - 1
        } else {
            x.len() - 1
        };
        i = i + 1;
    }
    assert(y@.take(y@.len() as int) =~= y@);
    MatchedFilterCoreResult { filters_updated, error_sum }
}

/// Sets every value.
fn fill<T: Copy>(values: &mut Vec<T>, value: T)
    ensures
        final(values)@ == Seq::new(old(values)@.len(), |i: int| value),
{
    let mut i: usize = 0;
    while i < values.len()
        invariant
            i <= values@.len() == old(values)@.len(),
            forall|k: int| 0 <= k < i ==> values@[k] == value,
        decreases values@.len() - i,
    {
        values[i] = value;
        i = i + 1;
    }
    assert(values@ =~= Seq::new(old(values)@.len(), |i: int| value));
}

/// A vector of equal values.
fn filled<T: Copy>(len: usize, value: T) -> (values: Vec<T>)
    ensures
        values@ == Seq::new(len as nat, |i: int| value),
{
    let mut values: Vec<T> = Vec::new();
    let mut i: usize = 0;
    while i < len
        invariant
            i <= len,
            values@.len() == i,
            forall|k: int| 0 <= k < i ==> values@[k] == value,
        decreases len - i,
    {
        values.push(value);
        i = i + 1;
    }
    assert(values@ =~= Seq::new(len as nat, |i: int| value));
    values
}

/// Copies `h_len` samples starting at `x_start_index` out of the circular
/// buffer `x` into `scratch`, so that the taps can be walked contiguously.
/// Returns the slice to read from.
pub fn linearise_render<'a, T: Copy>(
    x: &'a [T],
    x_start_index: usize,
    h_len: usize,
    scratch: &'a mut Vec<T>,
) -> (linear: &'a [T])
    requires
        x_start_index < x@.len(),
        h_len <= x@.len(),
        h_len <= old(scratch)@.len(),
    ensures
        linear@ == window(x@, x_start_index as int, h_len as int),
{
    proof {
        assert forall|k: int| 0 <= k < h_len implies #[trigger] window(
            x@,
            x_start_index as int,
            h_len as int,
        )[k] == x@[if x_start_index + k < x@.len() {
            x_start_index + k
        } else {
            x_start_index + k - x@.len()
        }] by {
            let n = x@.len() as int;
            let a = x_start_index + k;
            if a < n {
                vstd::arithmetic::div_mod::lemma_small_mod(a as nat, n as nat);
            } else {
                vstd::arithmetic::div_mod::lemma_fundamental_div_mod_converse(a, n, 1, a - n);
            }
        }
    }
    let x_len: usize = x.len();
    let room: usize = x_len - x_start_index;
    let chunk1: usize = if h_len < room {
        h_len
    } else {
        room
    };
    if chunk1 == h_len {
        let linear = vstd::slice::slice_subrange(x, x_start_index, x_start_index + h_len);
        assert(linear@ =~= window(x@, x_start_index as int, h_len as int));
        return linear;
    }
    let mut k: usize = 0;
    while k < h_len
        invariant
            x_start_index < x@.len(),
            h_len <= x@.len(),
            h_len <= scratch@.len(),
            x_len == x@.len(),
            room == x_len - x_start_index,
            chunk1 == room,
            k <= h_len,
            forall|j: int|
                0 <= j < k ==> scratch@[j] == x@[if x_start_index + j < x@.len() {
                    x_start_index + j
                } else {
                    x_start_index + j - x@.len()
                }],
        decreases h_len - k,
    {
        let sample = if k < chunk1 {
            x[x_start_index + k]
        } else {
            x[k - chunk1]
        };
        scratch[k] = sample;
        k = k + 1;
    }
    let linear = vstd::slice::slice_subrange(scratch.as_slice(), 0, h_len);
    assert(linear@ =~= window(x@, x_start_index as int, h_len as int));
    linear
}

/// Index of the tap with the largest magnitude; of several, the last one.
pub open spec fn peak_index<T: Real>(h: Seq<T>, taps: int) -> int
    decreases taps,
{
    if taps <= 1 {
        0
    } else {
        let best = peak_index(h, taps - 1);
        if less(magnitude(h[taps - 1]), magnitude(h[best])) {
            best
        } else {
            taps - 1
        }
    }
}

pub fn detect_peak<T: Real>(h: &Vec<T>) -> (index: usize)
    requires
        is_total::<T>(),
    ensures
        h@.len() > 0 ==> index < h@.len(),
        h@.len() == 0 ==> index == 0,
        is_functional::<T>() ==> index == peak_index(h@, h@.len() as int),
        is_functional::<T>() && is_ordered::<T>() && sums_keep_order::<T>() && (forall|k: int|
            0 <= k < h@.len() ==> is_number(#[trigger] h@[k])) ==> forall|k: int|
            #![trigger h@[k]]
            0 <= k < h@.len() ==> {
                let reached = if less(h@[index as int], zero_of()) {
                    negative(h@[index as int])
                } else {
                    h@[index as int]
                };
                at_most(h@[k], reached) && at_most(negative(h@[k]), reached)
            },
{
    let mut best: usize = 0;
    let mut i: usize = 1;
    while i < h.len()
        invariant
            is_total::<T>(),
            1 <= i,
            h@.len() > 0 ==> i <= h@.len(),
            best < i,
            h@.len() == 0 ==> best == 0,
            is_functional::<T>() ==> best == peak_index(h@, i as int),
        decreases h@.len() - i,
    {
        if !is_less(absolute(h[i]), absolute(h[best])) {
            best = i;
        }
        i = i + 1;
    }
    proof {
        if h@.len() > 0 && is_ordered::<T>() && sums_keep_order::<T>() && (forall|k: int|
            0 <= k < h@.len() ==> is_number(#[trigger] h@[k])) {
            law_peak(h@, h@.len() as int);
        }
    }
    best
}

/// No tap has a larger magnitude than the peak, be it positive or negative, and none
/// behind the peak as large a one.
pub proof fn law_peak<T: Real>(h: Seq<T>, taps: int)
    requires
        is_ordered::<T>(),
        sums_keep_order::<T>(),
        0 < taps <= h.len(),
        forall|k: int| 0 <= k < taps ==> is_number(#[trigger] h[k]),
    ensures
        0 <= peak_index(h, taps) < taps,
        ({
            let peak = h[peak_index(h, taps)];
            let reached = if less(peak, zero_of()) {
                negative(peak)
            } else {
                peak
            };
            &&& forall|k: int|
                #![trigger h[k]]
                0 <= k < taps ==> at_most(h[k], reached) && at_most(negative(h[k]), reached)
            &&& forall|k: int|
                #![trigger h[k]]
                peak_index(h, taps) < k < taps ==> less(h[k], reached) && less(
                    negative(h[k]),
                    reached,
                )
        }),
    decreases taps,
{
    if taps > 1 {
        law_peak(h, taps - 1);
        let before = h[peak_index(h, taps - 1)];
        let last = h[taps - 1];
        law_magnitude(before);
        law_magnitude(last);
        lemma_order(magnitude(last), magnitude(before), magnitude(last));
        assert forall|k: int|
            #![trigger h[k]]
            0 <= k < taps && !less(magnitude(last), magnitude(before)) implies at_most(
            h[k],
            magnitude(last),
        ) && at_most(negative(h[k]), magnitude(last)) by {
            lemma_order(h[k], magnitude(before), magnitude(last));
            lemma_order(negative(h[k]), magnitude(before), magnitude(last));
        }
        lemma_order(last, magnitude(last), magnitude(before));
        lemma_order(negative(last), magnitude(last), magnitude(before));
    } else {
        law_magnitude(h[0]);
    }
}

/// An echo path of the opposite polarity has its peak at the same tap.
pub proof fn law_peak_has_no_polarity<T: Real>(h: Seq<T>, taps: int)
    requires
        is_ordered::<T>(),
        sums_keep_order::<T>(),
        0 <= taps <= h.len(),
        forall|k: int| 0 <= k < taps ==> is_number(#[trigger] h[k]),
    ensures
        peak_index(h.map_values(|tap: T| negative(tap)), taps) == peak_index(h, taps),
    decreases taps,
{
    let opposite = h.map_values(|tap: T| negative(tap));
    if taps > 1 {
        law_peak_has_no_polarity(h, taps - 1);
        law_peak(h, taps - 1);
        let best = peak_index(h, taps - 1);
        let a = h[taps - 1];
        let b = h[best];
        law_magnitude(a);
        law_magnitude(b);
        assert(opposite[taps - 1] == negative(a));
        assert(opposite[best] == negative(b));
        lemma_order(magnitude(a), magnitude(b), magnitude(negative(b)));
        lemma_order(magnitude(negative(a)), magnitude(a), magnitude(negative(b)));
        lemma_order(magnitude(a), magnitude(negative(a)), magnitude(negative(b)));
        lemma_order(magnitude(a), magnitude(negative(b)), magnitude(b));
        lemma_order(magnitude(negative(a)), magnitude(negative(b)), magnitude(b));
    }
}

/// A sample is saturated exactly if it, or its opposite, is not below the limit.
pub proof fn law_saturation_has_no_polarity<T: Real>(y: T, limit: T)
    requires
        is_ordered::<T>(),
        sums_keep_order::<T>(),
        is_number(y),
        is_number(limit),
    ensures
        saturates(y, limit) == saturates(negative(y), limit),
        saturates(y, limit) == (!less(y, limit) || !less(negative(y), limit)),
{
    lemma_order(y, limit, y);
    lemma_sums(y, negative(limit), y, y);
    lemma_sums(limit, negative(y), y, y);
    lemma_sums(y, limit, y, y);
    lemma_sums(limit, y, y, y);
    lemma_sums(negative(y), limit, y, y);
    lemma_order(negative(y), limit, y);
    lemma_order(y, negative(limit), y);
    lemma_sums(negative(limit), y, y, y);
    lemma_sums(negative(y), negative(limit), y, y);
}

/// Going back from `k`, all errors from the result on are within the threshold, and the
/// one before the result is not.
pub proof fn law_explained_from<T: Real>(accumulated_error: Seq<T>, threshold: T, k: int)
    requires
        0 <= k <= accumulated_error.len(),
    ensures
        0 <= explained_from(accumulated_error, threshold, k) <= k,
        forall|j: int|
            explained_from(accumulated_error, threshold, k) <= j < k ==> !less(
                threshold,
                #[trigger] accumulated_error[j],
            ),
        explained_from(accumulated_error, threshold, k) > 0 ==> less(
            threshold,
            accumulated_error[explained_from(accumulated_error, threshold, k) - 1],
        ),
    decreases k,
{
    if k > 0 && !less(threshold, accumulated_error[k - 1]) {
        law_explained_from(accumulated_error, threshold, k - 1);
    }
}

/// The pre-echo is at the end of a truncation of four taps that, as all longer ones up
/// to the echo, explains the capture; no shorter one right before it does.
pub proof fn law_pre_echo_is_the_earliest<T: Real>(
    accumulated_error: Seq<T>,
    threshold: T,
    lag: int,
    alignment_shift: int,
) -> (first: int)
    requires
        0 <= alignment_shift <= lag,
        (lag - alignment_shift) / 4 <= accumulated_error.len(),
    ensures
        0 <= first <= (lag - alignment_shift) / 4,
        forall|j: int|
            first <= j < (lag - alignment_shift) / 4 ==> !less(
                threshold,
                #[trigger] accumulated_error[j],
            ),
        first > 0 ==> less(threshold, accumulated_error[first - 1]),
        pre_echo_lag(accumulated_error, threshold, lag, alignment_shift) == (if first == (lag
            - alignment_shift) / 4 {
            lag
        } else {
            alignment_shift + 4 * first + 3
        }),
{
    let last = (lag - alignment_shift) / 4;
    law_explained_from(accumulated_error, threshold, last);
    explained_from(accumulated_error, threshold, last)
}

/// A smoothed error follows a lower one at once, and a higher one only upwards; at a
/// rate of one it follows that at once too, and at a rate of zero not at all.
pub proof fn law_smoothed_error<T: Real>(
    accumulated: T,
    instantaneous: T,
    scale: T,
    rate: T,
    one: T,
)
    requires
        is_ordered::<T>(),
        sums_keep_order::<T>(),
        products_keep_order::<T>(),
        is_one(one),
        is_number(accumulated),
        at_most(zero_of(), rate),
        is_number(smoothed_error(accumulated, instantaneous, scale, rate)),
    ensures
        less(times(instantaneous, scale), accumulated) ==> smoothed_error(
            accumulated,
            instantaneous,
            scale,
            rate,
        ) == times(instantaneous, scale),
        at_most(accumulated, times(instantaneous, scale)) ==> at_most(
            accumulated,
            smoothed_error(accumulated, instantaneous, scale, rate),
        ),
        at_most(accumulated, times(instantaneous, scale)) && same(rate, zero_of()) ==> same(
            accumulated,
            smoothed_error(accumulated, instantaneous, scale, rate),
        ),
        at_most(accumulated, times(instantaneous, scale)) && rate == one ==> smoothed_error(
            accumulated,
            instantaneous,
            scale,
            rate,
        ) == plus(accumulated, minus(times(instantaneous, scale), accumulated)),
{
    let norm = times(instantaneous, scale);
    let zero = zero_of::<T>();
    let gap = minus(norm, accumulated);
    let step = times(rate, gap);
    lemma_order(norm, accumulated, norm);
    if at_most(accumulated, norm) {
        lemma_sums(accumulated, step, zero, zero);
        lemma_products(rate, gap, zero);
        lemma_sums(accumulated, norm, zero, zero);
        lemma_sums(zero, step, accumulated, zero);
        lemma_order(accumulated, plus(accumulated, zero), plus(accumulated, step));
        if same(rate, zero) {
            lemma_adds_nothing(accumulated, step);
        }
        if rate == one {
            lemma_products(gap, one, zero);
            lemma_products(one, gap, zero);
        }
    }
}

/// Where the truncations that explain the capture signal begin, going back from
/// truncation `k`: behind the last error above the threshold.
pub open spec fn explained_from<T: Real>(accumulated_error: Seq<T>, threshold: T, k: int) -> int
    decreases k,
{
    if k <= 0 || less(threshold, accumulated_error[k - 1]) {
        k
    } else {
        explained_from(accumulated_error, threshold, k - 1)
    }
}

/// The lag of the earliest truncation that still explains the capture signal,
/// within the filter whose lags begin at `alignment_shift`.
pub open spec fn pre_echo_lag<T: Real>(
    accumulated_error: Seq<T>,
    threshold: T,
    lag: int,
    alignment_shift: int,
) -> int {
    let taps = lag - alignment_shift;
    let last = if taps / 4 < accumulated_error.len() {
        taps / 4
    } else {
        accumulated_error.len() as int
    };
    let first = explained_from(accumulated_error, threshold, last);
    if first == last {
        lag
    } else {
        4 * (first + 1) - 1 + alignment_shift
    }
}

proof fn lemma_explained_from<T: Real>(accumulated_error: Seq<T>, threshold: T, k: int)
    requires
        0 <= k,
    ensures
        0 <= explained_from(accumulated_error, threshold, k) <= k,
    decreases k,
{
    if k > 0 && !less(threshold, accumulated_error[k - 1]) {
        lemma_explained_from(accumulated_error, threshold, k - 1);
    }
}

/// A pre-echo never comes after the echo, nor before the lags of its filter.
pub proof fn law_pre_echo_precedes_echo<T: Real>(
    accumulated_error: Seq<T>,
    threshold: T,
    lag: int,
    alignment_shift: int,
)
    requires
        0 <= alignment_shift <= lag,
    ensures
        alignment_shift <= pre_echo_lag(accumulated_error, threshold, lag, alignment_shift) <= lag,
{
    let taps = lag - alignment_shift;
    let last = if taps / 4 < accumulated_error.len() {
        taps / 4
    } else {
        accumulated_error.len() as int
    };
    lemma_explained_from(accumulated_error, threshold, last);
}

/// Walks back from the winning lag towards the start of the filter and returns
/// the earliest truncation that still explains the capture signal.
pub fn compute_pre_echo_lag<T: Real>(
    accumulated_error: &Vec<T>,
    pre_echo_threshold: T,
    lag: usize,
    alignment_shift_winner: usize,
) -> (result: usize)
    requires
        lag >= alignment_shift_winner,
    ensures
        alignment_shift_winner <= result <= lag,
        is_functional::<T>() ==> result == pre_echo_lag(
            accumulated_error@,
            pre_echo_threshold,
            lag as int,
            alignment_shift_winner as int,
        ),
{
    let taps: usize = lag - alignment_shift_winner;
    let quarter: usize = taps / ACCUMULATED_ERROR_SUB_SAMPLE_RATE;
    let last: usize = if quarter < accumulated_error.len() {
        quarter
    } else {
        accumulated_error.len()
    };
    let mut estimate: usize = taps;
    let mut k: usize = last;
    let mut explained = true;
    while k > 0 && explained
        invariant
            k <= last <= accumulated_error@.len(),
            4 * last <= taps,
            estimate <= taps,
            estimate == if k == last {
                taps as int
            } else {
                4 * (k + 1) - 1
            },
            is_functional::<T>() ==> explained_from(
                accumulated_error@,
                pre_echo_threshold,
                last as int,
            ) == if explained {
                explained_from(accumulated_error@, pre_echo_threshold, k as int)
            } else {
                k as int
            },
        decreases
                k + if explained {
                    1int
                } else {
                    0int
                },
    {
        if is_less(pre_echo_threshold, accumulated_error[k - 1]) {
            explained = false;
        } else {
            k = k - 1;
            estimate = (k + 1) * ACCUMULATED_ERROR_SUB_SAMPLE_RATE - 1;
        }
    }
    estimate + alignment_shift_winner
}

/// The smoothed error towards the newest observation, dropping immediately when
/// the new value is lower.
pub open spec fn smoothed_error<T: Real>(accumulated: T, instantaneous: T, scale: T, rate: T) -> T {
    let error_norm = times(instantaneous, scale);
    if less(error_norm, accumulated) {
        error_norm
    } else {
        plus_product(accumulated, rate, minus(error_norm, accumulated))
    }
}

pub fn update_accumulated_error<T: Real>(
    instantaneous_accumulated_error: &Vec<T>,
    accumulated_error: &mut Vec<T>,
    one_over_error_sum_anchor: T,
    smooth_constant_increases: T,
)
    requires
        is_total::<T>(),
    ensures
        final(accumulated_error)@.len() == old(accumulated_error)@.len(),
        is_functional::<T>() ==> final(accumulated_error)@ == Seq::new(
            old(accumulated_error)@.len(),
            |j: int|
                if j < instantaneous_accumulated_error@.len() {
                    smoothed_error(
                        old(accumulated_error)@[j],
                        instantaneous_accumulated_error@[j],
                        one_over_error_sum_anchor,
                        smooth_constant_increases,
                    )
                } else {
                    old(accumulated_error)@[j]
                },
        ),
{
    let ghost before = accumulated_error@;
    let mut j: usize = 0;
    while j < accumulated_error.len() && j < instantaneous_accumulated_error.len()
        invariant
            is_total::<T>(),
            j <= accumulated_error@.len() == before.len(),
            j <= instantaneous_accumulated_error@.len(),
            is_functional::<T>() ==> forall|k: int|
                0 <= k < j ==> accumulated_error@[k] == smoothed_error(
                    before[k],
                    instantaneous_accumulated_error@[k],
                    one_over_error_sum_anchor,
                    smooth_constant_increases,
                ),
            forall|k: int| j <= k < before.len() ==> accumulated_error@[k] == before[k],
        decreases before.len() - j,
    {
        let accumulated = accumulated_error[j];
        let error_norm = product(instantaneous_accumulated_error[j], one_over_error_sum_anchor);
        let value = if is_less(error_norm, accumulated) {
            error_norm
        } else {
            multiply_add(
                accumulated,
                smooth_constant_increases,
                difference(error_norm, accumulated),
            )
        };
        accumulated_error[j] = value;
        j = j + 1;
    }
    proof {
        if is_functional::<T>() {
            assert(accumulated_error@ =~= Seq::new(
                before.len(),
                |j: int|
                    if j < instantaneous_accumulated_error@.len() {
                        smoothed_error(
                            before[j],
                            instantaneous_accumulated_error@[j],
                            one_over_error_sum_anchor,
                            smooth_constant_increases,
                        )
                    } else {
                        before[j]
                    },
            ));
        }
    }
}

/// Settings of the bank of filters.
#[derive(Debug, Clone, Copy)]
pub struct MatchedFilterParameters<T: Real> {
    /// Level of the render above which the filters are adapted.
    pub excitation_limit: T,
    pub smoothing_fast: T,
    pub smoothing_slow: T,
    /// Fraction of the capture energy below which an error is reliable.
    pub matching_filter_threshold: T,
    pub saturation_limit: T,
    /// Capture energy above which the accumulated error is updated.
    pub energy_threshold: T,
    pub one: T,
    /// Rate at which the accumulated error rises.
    pub smooth_constant_increases: T,
    /// Accumulated error above which a truncation does not explain the capture.
    pub pre_echo_threshold: T,
}

/// The energy of so many samples at a level.
pub open spec fn threshold_energy<T: Real>(samples: T, level: T) -> T {
    times(times(samples, level), level)
}

/// The energy of samples at a level is as many times the square of the level.
pub proof fn law_threshold_energy<T: Real>(samples: T, level: T)
    requires
        is_exact::<T>(),
    ensures
        threshold_energy(samples, level) == times(samples, times(level, level)),
{
    lemma_exact(samples, level, level);
}

impl<T: Real> MatchedFilterParameters<T> {
    /// The fast smoothing is used unless the slow one is asked for.
    pub proof fn law_smoothing(self, x2_sum_threshold: T)
        ensures
            self.core_parameters(x2_sum_threshold, true).smoothing == self.smoothing_slow,
            self.core_parameters(x2_sum_threshold, false).smoothing == self.smoothing_fast,
            self.core_parameters(x2_sum_threshold, true).x2_sum_threshold == x2_sum_threshold,
            self.core_parameters(x2_sum_threshold, false).x2_sum_threshold == x2_sum_threshold,
            self.core_parameters(x2_sum_threshold, true).saturation_limit == self.saturation_limit,
            self.core_parameters(x2_sum_threshold, false).saturation_limit
                == self.saturation_limit,
    {
    }

    pub open spec fn core_parameters(
        self,
        x2_sum_threshold: T,
        use_slow_smoothing: bool,
    ) -> CoreParameters<T> {
        CoreParameters {
            x2_sum_threshold,
            smoothing: if use_slow_smoothing {
                self.smoothing_slow
            } else {
                self.smoothing_fast
            },
            saturation_limit: self.saturation_limit,
        }
    }
}

/// State of the bank of filters.
pub struct FilterBank<T> {
    pub filters: Seq<Seq<T>>,
    pub accumulated_error: Seq<Seq<T>>,
    pub instantaneous_accumulated_error: Seq<T>,
    pub reported: Option<LagEstimate>,
    pub last_best: int,
    pub pre_echo_updates: int,
}

/// The best filter among some: the error it has to beat, its index (-1 if there
/// is none) and its lag.
pub struct Winner<T> {
    pub error_sum: T,
    pub index: int,
    pub lag: int,
}

/// One update of the bank: the filters before it and the signals.
pub struct Round<T: Real> {
    pub filters: Seq<Seq<T>>,
    pub adaptation: CoreParameters<T>,
    pub threshold: T,
    pub shift: int,
    pub sub_block_size: int,
    pub x: Seq<T>,
    pub read: int,
    pub y: Seq<T>,
}

impl<T: Real> Round<T> {
    /// Render index at which filter `i` starts.
    pub open spec fn start(self, i: int) -> int {
        (self.read + i * self.shift + self.sub_block_size - 1) % (self.x.len() as int)
    }

    pub open spec fn run(self, i: int) -> FilterRun<T> {
        filter_run(self.filters[i], self.start(i), self.adaptation, self.x, self.y, 0)
    }

    pub open spec fn anchor(self) -> T {
        energy(self.y)
    }

    pub open spec fn peak(self, i: int) -> int {
        peak_index(self.run(i).h, self.filters[i].len() as int)
    }

    pub open spec fn lag(self, i: int) -> int {
        self.peak(i) + i * self.shift
    }

    /// The peak is not at the border of the filter and its error is small.
    pub open spec fn is_reliable(self, i: int) -> bool {
        &&& self.peak(i) > 2
        &&& self.peak(i) + 10 < self.filters[i].len()
        &&& less(self.run(i).error_sum, times(self.threshold, self.anchor()))
    }

    /// The winner of the first `n` filters: the first one with the smallest error
    /// among those that were adapted and are reliable. Where a filter reports the
    /// same lag as the one before it, the earlier one wins, so that there is room
    /// to search for pre-echoes ahead of the lag.
    pub open spec fn winner(self, n: int) -> Winner<T>
        decreases n,
    {
        if n <= 0 {
            Winner { error_sum: self.anchor(), index: -1, lag: 0 }
        } else {
            let best = self.winner(n - 1);
            let i = n - 1;
            if self.run(i).updated && self.is_reliable(i) && less(
                self.run(i).error_sum,
                best.error_sum,
            ) {
                Winner {
                    error_sum: self.run(i).error_sum,
                    index: if i > 0 && self.lag(i - 1) == self.lag(i) {
                        i - 1
                    } else {
                        i
                    },
                    lag: self.lag(i),
                }
            } else {
                best
            }
        }
    }

    /// Each filter starts by the shift further round the render buffer than the one before
    /// it, and the first one at the last sample of the block that is read.
    pub proof fn law_filters_are_shifted(self, i: int)
        requires
            0 < self.x.len(),
            0 <= i,
            0 <= self.read,
            0 < self.sub_block_size,
        ensures
            self.start(0) == (self.read + self.sub_block_size - 1) % (self.x.len() as int),
            self.start(i + 1) == (self.start(i) + self.shift) % (self.x.len() as int),
            self.lag(i) - self.peak(i) == i * self.shift,
    {
        let n = self.x.len() as int;
        let a = self.read + i * self.shift + self.sub_block_size - 1;
        assert((i + 1) * self.shift == i * self.shift + self.shift) by (nonlinear_arith);
        assert(0 * self.shift == 0) by (nonlinear_arith);
        vstd::arithmetic::div_mod::lemma_add_mod_noop(a, self.shift, n);
        vstd::arithmetic::div_mod::lemma_add_mod_noop(a % n, self.shift, n);
        vstd::arithmetic::div_mod::lemma_mod_twice(a, n);
    }

    /// Whether filter `i` tells a lag: it was adapted, its peak is neither at the start
    /// nor at the end, and its error is below the share of the capture's energy.
    pub open spec fn tells_lag(self, i: int) -> bool {
        &&& self.run(i).updated
        &&& 2 < self.peak(i) < self.filters[i].len() - 10
        &&& less(self.run(i).error_sum, times(self.threshold, self.anchor()))
        &&& less(self.run(i).error_sum, self.anchor())
    }

    /// The filter that wins is one that tells a lag, none that does has a smaller error,
    /// and its lag is that of its peak. There is no winner exactly if none tells one.
    pub proof fn law_winner(self, n: int) -> (winner: int)
        requires
            is_ordered::<T>(),
            0 <= n <= self.filters.len(),
        ensures
            self.winner(n).index == -1 <==> forall|i: int|
                0 <= i < n ==> !#[trigger] self.tells_lag(i),
            self.winner(n).index != -1 ==> {
                &&& 0 <= winner < n
                &&& self.tells_lag(winner)
                &&& self.winner(n).lag == self.peak(winner) + winner * self.shift
                &&& self.winner(n).error_sum == self.run(winner).error_sum
                &&& forall|i: int|
                    0 <= i < n && #[trigger] self.tells_lag(i) ==> !less(
                        self.run(i).error_sum,
                        self.run(winner).error_sum,
                    )
                &&& self.winner(n).index == winner || (winner > 0 && self.winner(n).index == winner
                    - 1 && self.peak(winner - 1) + (winner - 1) * self.shift
                    == self.winner(n).lag)
            },
            self.winner(n).index == -1 ==> self.winner(n).error_sum == self.anchor(),
            self.winner(n).index >= -1,
        decreases n,
    {
        if n <= 0 {
            -1
        } else {
            let before = self.law_winner(n - 1);
            let last = n - 1;
            let best = self.winner(n - 1);
            let error = self.run(last).error_sum;
            if self.run(last).updated && self.is_reliable(last) && less(error, best.error_sum) {
                if best.index != -1 {
                    lemma_order(error, best.error_sum, self.anchor());
                    assert(self.tells_lag(before));
                }
                assert(self.tells_lag(last));
                assert forall|i: int| 0 <= i < n && #[trigger] self.tells_lag(i) implies !less(
                    self.run(i).error_sum,
                    error,
                ) by {
                    lemma_order(self.run(i).error_sum, error, best.error_sum);
                    lemma_order(error, error, error);
                }
                last
            } else {
                if best.index == -1 {
                    assert(!self.tells_lag(last));
                }
                before
            }
        }
    }

    /// Whether the render is too weak, wherever filter `i` may stand, to adapt it.
    pub open spec fn is_weak_for(self, i: int) -> bool {
        forall|start: int|
            0 <= start < self.x.len() ==> !less(
                self.adaptation.x2_sum_threshold,
                energy(#[trigger] window(self.x, start, self.filters[i].len() as int)),
            )
    }

    /// Render that is too weak to adapt any filter gives no winner.
    pub proof fn law_weak_render_has_no_winner(self, n: int)
        requires
            self.x.len() > 0,
            forall|i: int| 0 <= i < n ==> #[trigger] self.is_weak_for(i),
        ensures
            self.winner(n).index == -1,
        decreases n,
    {
        if n > 0 {
            self.law_weak_render_has_no_winner(n - 1);
            assert(self.is_weak_for(n - 1));
            let h = self.filters[n - 1];
            let start = self.start(n - 1);
            assert(0 <= start < self.x.len()) by (nonlinear_arith)
                requires
                    self.x.len() > 0,
                    start == (self.read + (n - 1) * self.shift + self.sub_block_size - 1) % (
                    self.x.len() as int),
            ;
            lemma_not_adapted(h, start, self.adaptation, self.x, self.y);
        }
    }
}

proof fn lemma_not_adapted<T: Real>(
    h: Seq<T>,
    start: int,
    p: CoreParameters<T>,
    x: Seq<T>,
    y: Seq<T>,
)
    requires
        0 <= start < x.len(),
        forall|s: int|
            0 <= s < x.len() ==> !less(
                p.x2_sum_threshold,
                energy(#[trigger] window(x, s, h.len() as int)),
            ),
    ensures
        !filter_run(h, start, p, x, y, 0).updated,
        0 <= filter_run(h, start, p, x, y, 0).start < x.len(),
    decreases y.len(),
{
    if y.len() > 0 {
        lemma_not_adapted(h, start, p, x, y.drop_last());
        law_accumulation_is_passive(h, start, p, x, y.drop_last(), 0);
        let before = filter_run(h, start, p, x, y.drop_last(), 0);
        assert(!less(p.x2_sum_threshold, energy(window(x, before.start, h.len() as int))));
    }
}

/// Adaptive filters, each covering a range of lags.
pub struct MatchedFilter<T: Real> {
    sub_block_size: usize,
    filter_length: usize,
    filter_intra_lag_shift: usize,
    filters: Vec<Vec<T>>,
    /// Per-filter error of the filter truncated to every fourth tap. Empty unless
    /// pre-echo detection is enabled.
    accumulated_error: Vec<Vec<T>>,
    instantaneous_accumulated_error: Vec<T>,
    reported_lag_estimate: Option<LagEstimate>,
    last_detected_best_lag_filter: i32,
    number_pre_echo_updates: i32,
    parameters: MatchedFilterParameters<T>,
    x2_sum_threshold: T,
    detect_pre_echo: bool,
}

/// The values of vectors of vectors.
pub open spec fn rows<T>(vectors: Seq<Vec<T>>) -> Seq<Seq<T>> {
    Seq::new(vectors.len(), |i: int| vectors[i]@)
}

impl<T: Real> MatchedFilter<T> {
    pub closed spec fn view(&self) -> FilterBank<T> {
        FilterBank {
            filters: rows(self.filters@),
            accumulated_error: rows(self.accumulated_error@),
            instantaneous_accumulated_error: self.instantaneous_accumulated_error@,
            reported: self.reported_lag_estimate,
            last_best: self.last_detected_best_lag_filter as int,
            pre_echo_updates: self.number_pre_echo_updates as int,
        }
    }

    pub closed spec fn settings(&self) -> MatchedFilterParameters<T> {
        self.parameters
    }

    /// Render energy over a filter above which it is adapted.
    pub closed spec fn energy_threshold(&self) -> T {
        self.x2_sum_threshold
    }

    pub closed spec fn detects_pre_echo(&self) -> bool {
        self.detect_pre_echo
    }

    pub closed spec fn sub_block(&self) -> nat {
        self.sub_block_size as nat
    }

    /// Number of taps of each filter.
    pub closed spec fn length(&self) -> nat {
        self.filter_length as nat
    }

    /// Lag by which neighbouring filters are apart.
    pub closed spec fn shift(&self) -> nat {
        self.filter_intra_lag_shift as nat
    }

    pub open spec fn num_filters(&self) -> nat {
        self@.filters.len()
    }

    /// Whether the settings other than the state are the same.
    pub open spec fn same_setup(&self, other: Self) -> bool {
        &&& other.settings() == self.settings()
        &&& other.energy_threshold() == self.energy_threshold()
        &&& other.detects_pre_echo() == self.detects_pre_echo()
        &&& other.sub_block() == self.sub_block()
        &&& other.length() == self.length()
        &&& other.shift() == self.shift()
        &&& other.num_filters() == self.num_filters()
    }

    pub closed spec fn inv(&self) -> bool {
        &&& self.sub_block_size > 0
        &&& self.filter_length > 0
        &&& self.filters@.len() <= i32::MAX
        &&& self.filters@.len() * self.filter_intra_lag_shift + self.filter_length
            + self.sub_block_size <= usize::MAX
        &&& forall|i: int|
            0 <= i < self.filters@.len() ==> (#[trigger] self.filters@[i])@.len()
                == self.filter_length
        &&& self.detect_pre_echo ==> {
            &&& self.accumulated_error@.len() == self.filters@.len()
            &&& self.instantaneous_accumulated_error@.len() == self.filter_length / 4
            &&& forall|i: int|
                0 <= i < self.accumulated_error@.len() ==> (
                #[trigger] self.accumulated_error@[i])@.len() == self.filter_length / 4
        }
        &&& -1 <= self.last_detected_best_lag_filter < self.filters@.len()
        &&& 0 <= self.number_pre_echo_updates
    }

    pub fn new<N: Fn(usize) -> T>(
        sub_block_size: usize,
        window_size_sub_blocks: usize,
        num_matched_filters: usize,
        alignment_shift_sub_blocks: usize,
        parameters: MatchedFilterParameters<T>,
        detect_pre_echo: bool,
        number: &N,
    ) -> (filter: Self)
        requires
            is_total::<T>(),
            forall|n: usize| call_requires(number, (n,)),
            window_size_sub_blocks > 0,
            sub_block_size > 0,
            sub_block_size % 4 == 0,
            BLOCK_SIZE % sub_block_size == 0,
            num_matched_filters <= i32::MAX,
            num_matched_filters * (alignment_shift_sub_blocks * sub_block_size)
                + window_size_sub_blocks * sub_block_size + sub_block_size <= usize::MAX,
            alignment_shift_sub_blocks * sub_block_size <= usize::MAX,
        ensures
            filter.inv(),
            filter.settings() == parameters,
            is_functional::<T>() && is_mapping(*number) ==> filter.energy_threshold()
                == threshold_energy(
                image(*number, filter.length() as usize),
                parameters.excitation_limit,
            ),
            filter.detects_pre_echo() == detect_pre_echo,
            filter.sub_block() == sub_block_size,
            filter.length() == window_size_sub_blocks * sub_block_size,
            filter.shift() == alignment_shift_sub_blocks * sub_block_size,
            filter.num_filters() == num_matched_filters,
            filter@.reported is None,
            filter@.last_best == -1,
            filter@.pre_echo_updates == 0,
            is_functional::<T>() ==> forall|i: int|
                0 <= i < num_matched_filters ==> #[trigger] filter@.filters[i] == Seq::new(
                    filter.length(),
                    |k: int| zero_of::<T>(),
                ),
            detect_pre_echo ==> filter@.accumulated_error.len() == num_matched_filters && forall|
                i: int,
            |
                0 <= i < num_matched_filters ==> #[trigger] filter@.accumulated_error[i]
                    == Seq::new(filter.length() / 4, |k: int| parameters.one),
            !detect_pre_echo ==> filter@.accumulated_error.len() == 0,
    {
        proof {
            assert(0 <= num_matched_filters * (alignment_shift_sub_blocks * sub_block_size))
                by (nonlinear_arith);
            assert(window_size_sub_blocks * sub_block_size > 0) by (nonlinear_arith)
                requires
                    window_size_sub_blocks > 0,
                    sub_block_size > 0,
            ;
        }
        let filter_length: usize = window_size_sub_blocks * sub_block_size;
        let nothing: T = zero();
        let filters = filled_rows(num_matched_filters, filter_length, nothing);
        let accumulated_error_length: usize = filter_length / ACCUMULATED_ERROR_SUB_SAMPLE_RATE;
        let accumulated_error = if detect_pre_echo {
            filled_rows(num_matched_filters, accumulated_error_length, parameters.one)
        } else {
            Vec::new()
        };
        let instantaneous_accumulated_error = if detect_pre_echo {
            filled(accumulated_error_length, nothing)
        } else {
            Vec::new()
        };
        MatchedFilter {
            sub_block_size,
            filter_length,
            filter_intra_lag_shift: alignment_shift_sub_blocks * sub_block_size,
            filters,
            accumulated_error,
            instantaneous_accumulated_error,
            reported_lag_estimate: None,
            last_detected_best_lag_filter: -1,
            number_pre_echo_updates: 0,
            parameters,
            x2_sum_threshold: product(
                product(apply(number, filter_length), parameters.excitation_limit),
                parameters.excitation_limit,
            ),
            detect_pre_echo,
        }
    }

    /// The best lag estimate of the last block, if one was found.
    pub fn best_lag_estimate(&self) -> (estimate: Option<LagEstimate>)
        ensures
            estimate == self@.reported,
    {
        self.reported_lag_estimate
    }

    /// Clears the filters and the estimate; a full reset also forgets the
    /// accumulated errors.
    pub fn reset(&mut self, full_reset: bool)
        requires
            is_total::<T>(),
            old(self).inv(),
        ensures
            final(self).inv(),
            old(self).same_setup(*final(self)),
            final(self)@.reported is None,
            final(self)@.last_best == old(self)@.last_best,
            final(self)@.instantaneous_accumulated_error == old(
                self)@.instantaneous_accumulated_error,
            is_functional::<T>() ==> forall|i: int|
                0 <= i < final(self).num_filters() ==> #[trigger] final(self)@.filters[i]
                    == Seq::new(final(self).length(), |k: int| zero_of::<T>()),
            !full_reset ==> final(self)@.accumulated_error == old(self)@.accumulated_error && final(
                self)@.pre_echo_updates == old(self)@.pre_echo_updates,
            full_reset ==> {
                &&& final(self)@.pre_echo_updates == 0
                &&& final(self)@.accumulated_error.len() == old(self)@.accumulated_error.len()
                &&& forall|i: int|
                    0 <= i < final(self)@.accumulated_error.len() ==> (
                    #[trigger] final(self)@.accumulated_error[i]) == Seq::new(
                        old(self)@.accumulated_error[i].len(),
                        |k: int| final(self).settings().one,
                    )
            },
    {
        let nothing: T = zero();
        fill_rows(&mut self.filters, nothing);
        self.reported_lag_estimate = None;
        if full_reset {
            fill_rows(&mut self.accumulated_error, self.parameters.one);
            self.number_pre_echo_updates = 0;
        }
    }

    /// The update of this bank by the given signals.
    pub open spec fn round(
        &self,
        render_buffer: DownsampledRenderBuffer<T>,
        capture: Seq<T>,
        use_slow_smoothing: bool,
    ) -> Round<T> {
        Round {
            filters: self@.filters,
            adaptation: self.settings().core_parameters(
                self.energy_threshold(),
                use_slow_smoothing,
            ),
            threshold: self.settings().matching_filter_threshold,
            shift: self.shift() as int,
            sub_block_size: self.sub_block() as int,
            x: render_buffer.buffer@,
            read: render_buffer.read as int,
            y: capture,
        }
    }

    /// Whether `after` is this bank after `round`: every filter was run, and the
    /// winner, if any, is reported. If it also won the last time, its truncated
    /// errors are kept and, after enough updates, tell the pre-echo.
    pub open spec fn updated(&self, round: Round<T>, after: FilterBank<T>) -> bool {
        let n = self.num_filters() as int;
        let before = self@;
        let winner = round.winner(n);
        let again = self.detects_pre_echo() && before.last_best == winner.index;
        let strong = again && less(self.settings().energy_threshold, round.anchor());
        &&& after.filters.len() == n
        &&& forall|i: int| 0 <= i < n ==> #[trigger] after.filters[i] == round.run(i).h
        &&& after.instantaneous_accumulated_error == (if self.detects_pre_echo()
            && before.last_best >= 0 {
            filter_run(
                round.filters[before.last_best],
                round.start(before.last_best),
                round.adaptation,
                round.x,
                round.y,
                before.instantaneous_accumulated_error.len(),
            ).accumulated_error
        } else {
            before.instantaneous_accumulated_error
        })
        &&& if winner.index == -1 {
            &&& after.reported is None
            &&& after.last_best == before.last_best
            &&& after.accumulated_error == before.accumulated_error
            &&& after.pre_echo_updates == before.pre_echo_updates
        } else {
            &&& after.last_best == winner.index
            &&& after.accumulated_error == (if strong {
                before.accumulated_error.update(
                    winner.index,
                    Seq::new(
                        before.accumulated_error[winner.index].len(),
                        |j: int|
                            smoothed_error(
                                before.accumulated_error[winner.index][j],
                                after.instantaneous_accumulated_error[j],
                                over(self.settings().one, round.anchor()),
                                self.settings().smooth_constant_increases,
                            ),
                    ),
                )
            } else {
                before.accumulated_error
            })
            &&& after.pre_echo_updates == before.pre_echo_updates + if strong {
                1int
            } else {
                0int
            }
            &&& after.reported == Some(
                LagEstimate {
                    lag: winner.lag as usize,
                    pre_echo_lag: if again && after.pre_echo_updates >= MIN_PRE_ECHO_UPDATES {
                        pre_echo_lag(
                            after.accumulated_error[winner.index],
                            self.settings().pre_echo_threshold,
                            winner.lag,
                            winner.index * round.shift,
                        ) as usize
                    } else {
                        winner.lag as usize
                    },
                },
            )
        }
    }

    /// Runs one filter over the capture and returns its outcome.
    fn run_filter(
        &mut self,
        index: usize,
        start: usize,
        adaptation: &CoreParameters<T>,
        x: &Vec<T>,
        capture: &[T],
    ) -> (result: MatchedFilterCoreResult<T>)
        requires
            is_total::<T>(),
            old(self).inv(),
            index < old(self).num_filters(),
            start < x@.len(),
        ensures
            final(self).inv(),
            old(self).same_setup(*final(self)),
            final(self)@.accumulated_error == old(self)@.accumulated_error,
            final(self)@.reported == old(self)@.reported,
            final(self)@.last_best == old(self)@.last_best,
            final(self)@.pre_echo_updates == old(self)@.pre_echo_updates,
            forall|k: int|
                0 <= k < old(self).num_filters() && k != index ==> #[trigger] final(
                    self)@.filters[k] == old(self)@.filters[k],
            final(self)@.instantaneous_accumulated_error.len() == old(
                self)@.instantaneous_accumulated_error.len(),
            index != old(self)@.last_best || !old(self).detects_pre_echo() ==> final(
                self)@.instantaneous_accumulated_error == old(
                self)@.instantaneous_accumulated_error,
            is_functional::<T>() ==> {
                let h = old(self)@.filters[index as int];
                let run = filter_run(h, start as int, *adaptation, x@, capture@, 0);
                &&& final(self)@.filters[index as int] == run.h
                &&& result.error_sum == run.error_sum
                &&& result.filters_updated == run.updated
                &&& old(self).detects_pre_echo() && index == old(self)@.last_best ==> final(
                    self)@.instantaneous_accumulated_error == filter_run(
                    h,
                    start as int,
                    *adaptation,
                    x@,
                    capture@,
                    old(self)@.instantaneous_accumulated_error.len(),
                ).accumulated_error
            },
    {
        let ghost before = self@;
        let compute_pre_echo = self.detect_pre_echo && self.last_detected_best_lag_filter >= 0
            && index == self.last_detected_best_lag_filter as usize;
        let mut filter: Vec<T> = Vec::new();
        std::mem::swap(&mut filter, &mut self.filters[index]);
        assert(filter@ == before.filters[index as int]);
        let result = if compute_pre_echo {
            proof {
                law_accumulation_is_passive(
                    filter@,
                    start as int,
                    *adaptation,
                    x@,
                    capture@,
                    self.instantaneous_accumulated_error@.len(),
                );
            }
            matched_filter_core_with_accumulated_error(
                start,
                adaptation,
                x.as_slice(),
                capture,
                &mut filter,
                &mut self.instantaneous_accumulated_error,
            )
        } else {
            matched_filter_core(start, adaptation, x.as_slice(), capture, &mut filter)
        };
        self.filters[index] = filter;
        result
    }

    /// Adapts every filter to a block of the capture, and reports the lag of the
    /// winner.
    pub fn update(
        &mut self,
        render_buffer: &DownsampledRenderBuffer<T>,
        capture: &[T],
        use_slow_smoothing: bool,
    )
        requires
            is_total::<T>(),
            old(self).inv(),
            old(self).num_filters() > 0 ==> {
                &&& capture@.len() == old(self).sub_block()
                &&& render_buffer.buffer@.len() > 0
                &&& render_buffer.read + old(self).num_filters() * old(self).shift() + old(
                    self).length() + old(self).sub_block() <= usize::MAX
                &&& old(self)@.pre_echo_updates < i32::MAX
            },
        ensures
            final(self).inv(),
            old(self).same_setup(*final(self)),
            old(self).num_filters() == 0 ==> final(self)@ == old(self)@,
            old(self)@.pre_echo_updates <= final(self)@.pre_echo_updates <= old(
                self)@.pre_echo_updates + 1,
            old(self).num_filters() > 0 ==> (final(self)@.reported matches Some(estimate) ==> {
                &&& estimate.lag < old(self).num_filters() * old(self).shift() + old(self).length()
                &&& estimate.pre_echo_lag <= estimate.lag
                &&& !old(self).detects_pre_echo() ==> estimate.pre_echo_lag == estimate.lag
            }),
            is_functional::<T>() && old(self).num_filters() > 0 ==> old(self).updated(
                old(self).round(*render_buffer, capture@, use_slow_smoothing),
                final(self)@,
            ),
    {
        if self.filters.len() == 0 {
            return;
        }
        let ghost before = *self;
        let ghost round = self.round(*render_buffer, capture@, use_slow_smoothing);
        let ghost n = self.filters@.len() as int;
        let ghost shift = self.filter_intra_lag_shift as int;
        let adaptation = CoreParameters {
            x2_sum_threshold: self.x2_sum_threshold,
            smoothing: if use_slow_smoothing {
                self.parameters.smoothing_slow
            } else {
                self.parameters.smoothing_fast
            },
            saturation_limit: self.parameters.saturation_limit,
        };
        let error_sum_anchor = dot_product(capture, capture);
        let error_limit = product(self.parameters.matching_filter_threshold, error_sum_anchor);
        let buffer_size: usize = render_buffer.buffer.len();
        let mut alignment_shift: usize = 0;
        let mut winner_error_sum = error_sum_anchor;
        let mut winner_index: i32 = -1;
        let mut winner_lag: usize = 0;
        let mut previous_lag: usize = 0;
        self.reported_lag_estimate = None;
        let mut index: usize = 0;
        while index < self.filters.len()
            invariant
                is_total::<T>(),
                self.inv(),
                before.inv(),
                before.same_setup(*self),
                n == self.filters@.len(),
                shift == self.filter_intra_lag_shift,
                round == before.round(*render_buffer, capture@, use_slow_smoothing),
                adaptation == round.adaptation,
                buffer_size == render_buffer.buffer@.len(),
                buffer_size > 0,
                render_buffer.read + n * shift + self.filter_length + self.sub_block_size
                    <= usize::MAX,
                is_functional::<T>() ==> error_sum_anchor == round.anchor() && error_limit == times(
                    round.threshold,
                    round.anchor(),
                ),
                index <= n,
                alignment_shift == index * shift,
                self@.reported is None,
                self@.last_best == before@.last_best,
                self@.pre_echo_updates == before@.pre_echo_updates,
                self@.accumulated_error == before@.accumulated_error,
                forall|k: int| index <= k < n ==> #[trigger] self@.filters[k] == before@.filters[k],
                self@.instantaneous_accumulated_error.len()
                    == before@.instantaneous_accumulated_error.len(),
                !(before.detects_pre_echo() && 0 <= before@.last_best < index)
                    ==> self@.instantaneous_accumulated_error
                    == before@.instantaneous_accumulated_error,
                -1 <= winner_index < index,
                winner_index >= 0 ==> winner_index * shift <= winner_lag,
                winner_index >= 0 ==> winner_lag < index * shift + self.filter_length,
                index > 0 ==> (index - 1) * shift <= previous_lag,
                is_functional::<T>() ==> {
                    &&& forall|k: int|
                        0 <= k < index ==> #[trigger] self@.filters[k] == round.run(k).h
                    &&& before.detects_pre_echo() && 0 <= before@.last_best < index
                        ==> self@.instantaneous_accumulated_error == filter_run(
                        round.filters[before@.last_best],
                        round.start(before@.last_best),
                        round.adaptation,
                        round.x,
                        round.y,
                        before@.instantaneous_accumulated_error.len(),
                    ).accumulated_error
                    &&& index > 0 ==> previous_lag == round.lag(index - 1)
                    &&& winner_error_sum == round.winner(index as int).error_sum
                    &&& winner_index == round.winner(index as int).index
                    &&& winner_lag == round.winner(index as int).lag
                },
            decreases n - index,
        {
            proof {
                assert((index + 1) * shift == index * shift + shift) by (nonlinear_arith);
                assert(index > 0 ==> (index - 1) * shift + shift == index * shift) by (
                nonlinear_arith);
                assert((index + 1) * shift <= n * shift) by (nonlinear_arith)
                    requires
                        index + 1 <= n,
                        0 <= shift,
                ;
            }
            let start: usize = (render_buffer.read + alignment_shift + self.sub_block_size - 1)
                % buffer_size;
            assert(start == round.start(index as int));
            let ghost earlier = *self;
            let result = self.run_filter(index, start, &adaptation, &render_buffer.buffer, capture);
            proof {
                assert(earlier@.filters[index as int] == before@.filters[index as int]);
                assert(before@.filters[index as int].len() == self.filter_length);
                assert(self@.filters[index as int].len() == self.filter_length);
                if is_functional::<T>() {
                    assert(self@.filters[index as int] == round.run(index as int).h);
                    assert forall|k: int| 0 <= k < index + 1 implies #[trigger] self@.filters[k]
                        == round.run(k).h by {
                        if k < index {
                            assert(earlier@.filters[k] == round.run(k).h);
                        }
                    }
                }
                assert forall|k: int| index + 1 <= k < n implies #[trigger] self@.filters[k]
                    == before@.filters[k] by {
                    assert(earlier@.filters[k] == before@.filters[k]);
                }
            }
            let peak: usize = detect_peak(&self.filters[index]);
            let reliable = peak > 2 && peak < self.filter_length && self.filter_length - peak > 10
                && is_less(result.error_sum, error_limit);
            let lag: usize = peak + alignment_shift;
            if result.filters_updated && reliable && is_less(result.error_sum, winner_error_sum) {
                winner_error_sum = result.error_sum;
                winner_lag = lag;
                // When two filters report the same lag (the overlap region),
                // take the earlier one so there is room to search for
                // pre-echoes ahead of it.
                winner_index =
                if index > 0 && previous_lag == lag {
                    index as i32 - 1
                } else {
                    index as i32
                };
            }
            previous_lag = lag;
            alignment_shift = alignment_shift + self.filter_intra_lag_shift;
            index = index + 1;
        }
        if winner_index != -1 {
            self.report(winner_index, winner_lag, error_sum_anchor);
        }
        proof {
            if is_functional::<T>() {
                assert(round.winner(n).index == winner_index);
                assert(self@.filters.len() == n);
            }
        }
    }

    /// Reports the winner, and a pre-echo where it won the last time as well.
    fn report(&mut self, winner_index: i32, winner_lag: usize, error_sum_anchor: T)
        requires
            is_total::<T>(),
            old(self).inv(),
            0 <= winner_index < old(self).num_filters(),
            winner_index * old(self).shift() <= winner_lag,
            old(self)@.pre_echo_updates < i32::MAX,
        ensures
            final(self).inv(),
            old(self).same_setup(*final(self)),
            final(self)@.filters == old(self)@.filters,
            final(self)@.instantaneous_accumulated_error == old(
                self)@.instantaneous_accumulated_error,
            final(self)@.last_best == winner_index,
            old(self)@.pre_echo_updates <= final(self)@.pre_echo_updates <= old(
                self)@.pre_echo_updates + 1,
            final(self)@.reported matches Some(estimate) && estimate.lag == winner_lag
                && estimate.pre_echo_lag <= winner_lag && (!old(self).detects_pre_echo()
                ==> estimate.pre_echo_lag == winner_lag),
            is_functional::<T>() ==> {
                let again = old(self).detects_pre_echo() && old(self)@.last_best == winner_index;
                let strong = again && less(old(self).settings().energy_threshold, error_sum_anchor);
                &&& final(self)@.accumulated_error == (if strong {
                    old(self)@.accumulated_error.update(
                        winner_index as int,
                        Seq::new(
                            old(self)@.accumulated_error[winner_index as int].len(),
                            |j: int|
                                smoothed_error(
                                    old(self)@.accumulated_error[winner_index as int][j],
                                    old(self)@.instantaneous_accumulated_error[j],
                                    over(old(self).settings().one, error_sum_anchor),
                                    old(self).settings().smooth_constant_increases,
                                ),
                        ),
                    )
                } else {
                    old(self)@.accumulated_error
                })
                &&& final(self)@.pre_echo_updates == old(self)@.pre_echo_updates + if strong {
                    1int
                } else {
                    0int
                }
                &&& final(self)@.reported == Some(
                    LagEstimate {
                        lag: winner_lag,
                        pre_echo_lag: if again && final(self)@.pre_echo_updates
                            >= MIN_PRE_ECHO_UPDATES {
                            pre_echo_lag(
                                final(self)@.accumulated_error[winner_index as int],
                                old(self).settings().pre_echo_threshold,
                                winner_lag as int,
                                winner_index * old(self).shift(),
                            ) as usize
                        } else {
                            winner_lag
                        },
                    },
                )
            },
    {
        let ghost before = self@;
        let winner: usize = winner_index as usize;
        let mut estimate = LagEstimate::new(winner_lag, winner_lag);
        proof {
            assert(0 <= winner_index * self.filter_intra_lag_shift) by (nonlinear_arith)
                requires
                    0 <= winner_index,
            ;
        }
        if self.detect_pre_echo && self.last_detected_best_lag_filter == winner_index {
            if is_less(self.parameters.energy_threshold, error_sum_anchor) {
                let scale = quotient(self.parameters.one, error_sum_anchor);
                let mut errors: Vec<T> = Vec::new();
                std::mem::swap(&mut errors, &mut self.accumulated_error[winner]);
                assert(errors@ == before.accumulated_error[winner as int]);
                update_accumulated_error(
                    &self.instantaneous_accumulated_error,
                    &mut errors,
                    scale,
                    self.parameters.smooth_constant_increases,
                );
                self.accumulated_error[winner] = errors;
                self.number_pre_echo_updates = self.number_pre_echo_updates + 1;
                proof {
                    if is_functional::<T>() {
                        let smoothed = Seq::new(
                            before.accumulated_error[winner as int].len(),
                            |j: int|
                                smoothed_error(
                                    before.accumulated_error[winner as int][j],
                                    before.instantaneous_accumulated_error[j],
                                    over(self.parameters.one, error_sum_anchor),
                                    self.parameters.smooth_constant_increases,
                                ),
                        );
                        assert(errors@ =~= smoothed);
                        assert(self@.accumulated_error =~= before.accumulated_error.update(
                            winner as int,
                            smoothed,
                        ));
                    }
                }
            }
            if self.number_pre_echo_updates >= MIN_PRE_ECHO_UPDATES {
                let lag: usize = compute_pre_echo_lag(
                    &self.accumulated_error[winner],
                    self.parameters.pre_echo_threshold,
                    winner_lag,
                    winner * self.filter_intra_lag_shift,
                );
                estimate = LagEstimate::new(winner_lag, lag);
            }
        }
        self.reported_lag_estimate = Some(estimate);
        self.last_detected_best_lag_filter = winner_index;
    }

    /// The largest lag that the filters cover.
    pub fn max_filter_lag(&self) -> (lag: usize)
        requires
            self.inv(),
        ensures
            lag == (if self.num_filters() == 0 {
                0
            } else {
                self.num_filters() * self.shift() + self.length()
            }),
    {
        if self.filters.len() == 0 {
            0
        } else {
            self.filters.len() * self.filter_intra_lag_shift + self.filter_length
        }
    }

    /// The lags that each filter covers, in milliseconds from `shift` samples on.
    pub fn filter_ranges_ms(&self, shift: u32, downsampling_factor: u32) -> (ranges: Vec<(i64, i64)>)
        requires
            self.inv(),
            downsampling_factor > 0,
            (self.num_filters() * self.shift() + self.length()) * downsampling_factor <= i64::MAX,
        ensures
            ranges@.len() == self.num_filters(),
            forall|i: int|
                0 <= i < ranges@.len() ==> #[trigger] ranges@[i] == (
                    milliseconds(i * self.shift() * downsampling_factor - shift),
                    milliseconds(
                        (i * self.shift() + self.length()) * downsampling_factor - shift,
                    ),
                ),
    {
        let mut ranges: Vec<(i64, i64)> = Vec::new();
        let factor: usize = downsampling_factor as usize;
        let mut alignment_shift: usize = 0;
        let mut i: usize = 0;
        let ghost n = self.filters@.len() as int;
        let ghost step = self.filter_intra_lag_shift as int;
        while i < self.filters.len()
            invariant
                self.inv(),
                n == self.filters@.len(),
                step == self.filter_intra_lag_shift,
                i <= n,
                alignment_shift == i * step,
                factor == downsampling_factor,
                factor > 0,
                (n * step + self.filter_length) * factor <= i64::MAX,
                ranges@.len() == i,
                forall|k: int|
                    0 <= k < i ==> #[trigger] ranges@[k] == (
                        milliseconds(k * step * factor - shift),
                        milliseconds((k * step + self.filter_length) * factor - shift),
                    ),
            decreases n - i,
        {
            proof {
                assert((i + 1) * step == i * step + step) by (nonlinear_arith);
                assert((i + 1) * step <= n * step) by (nonlinear_arith)
                    requires
                        i + 1 <= n,
                        0 <= step,
                ;
                assert(0 <= i * step) by (nonlinear_arith)
                    requires
                        0 <= step,
                ;
                let length = self.filter_length as int;
                assert(0 <= (i * step) * factor <= (i * step + length) * factor <= (n * step
                    + length) * factor) by (nonlinear_arith)
                    requires
                        0 <= i * step <= n * step,
                        0 <= length,
                        0 <= factor,
                ;
                assert(n * step + length <= (n * step + length) * factor) by (nonlinear_arith)
                    requires
                        0 <= n * step + length,
                        factor >= 1,
                ;
            }
            let start: i64 = alignment_shift as i64 * factor as i64;
            let end: i64 = (alignment_shift + self.filter_length) as i64 * factor as i64;
            ranges.push(
                (samples_to_ms(start - shift as i64), samples_to_ms(end - shift as i64)),
            );
            alignment_shift = alignment_shift + self.filter_intra_lag_shift;
            i = i + 1;
        }
        ranges
    }
}

/// A millisecond has sixteen samples at 16 kHz; what is left of a number of samples has the
/// sign of that number.
pub proof fn law_milliseconds(samples: int)
    requires
        -0x1000_0000_0000 <= samples <= 0x1000_0000_0000,
    ensures
        samples >= 0 ==> 0 <= samples - 16 * milliseconds(samples) < 16,
        samples <= 0 ==> -16 < samples - 16 * milliseconds(samples) <= 0,
{
}

/// A number of samples at 16 kHz in whole milliseconds, rounded towards zero.
pub open spec fn milliseconds(samples: int) -> i64 {
    (if samples >= 0 {
        samples / 16
    } else {
        -((-samples) / 16)
    }) as i64
}

fn samples_to_ms(samples: i64) -> (ms: i64)
    requires
        samples > i64::MIN,
    ensures
        ms == milliseconds(samples as int),
{
    if samples >= 0 {
        samples / 16
    } else {
        -((-samples) / 16)
    }
}

/// Vectors of equal values.
fn filled_rows<T: Copy>(num_rows: usize, len: usize, value: T) -> (result: Vec<Vec<T>>)
    ensures
        result@.len() == num_rows,
        forall|i: int|
            0 <= i < num_rows ==> (#[trigger] result@[i])@ == Seq::new(len as nat, |k: int| value),
{
    let mut result: Vec<Vec<T>> = Vec::new();
    let mut i: usize = 0;
    while i < num_rows
        invariant
            i <= num_rows,
            result@.len() == i,
            forall|j: int|
                0 <= j < i ==> (#[trigger] result@[j])@ == Seq::new(len as nat, |k: int| value),
        decreases num_rows - i,
    {
        result.push(filled(len, value));
        i = i + 1;
    }
    result
}

/// Sets every value of every vector.
fn fill_rows<T: Copy>(vectors: &mut Vec<Vec<T>>, value: T)
    ensures
        final(vectors)@.len() == old(vectors)@.len(),
        forall|i: int|
            0 <= i < old(vectors)@.len() ==> (#[trigger] final(vectors)@[i])@ == Seq::new(
                old(vectors)@[i]@.len(),
                |k: int| value,
            ),
{
    let ghost before = vectors@;
    let mut i: usize = 0;
    while i < vectors.len()
        invariant
            i <= vectors@.len() == before.len(),
            forall|j: int|
                0 <= j < i ==> (#[trigger] vectors@[j])@ == Seq::new(
                    before[j]@.len(),
                    |k: int| value,
                ),
            forall|j: int| i <= j < before.len() ==> vectors@[j] == before[j],
        decreases before.len() - i,
    {
        let len: usize = vectors[i].len();
        let row = filled(len, value);
        vectors[i] = row;
        i = i + 1;
    }
}

} // verus!
