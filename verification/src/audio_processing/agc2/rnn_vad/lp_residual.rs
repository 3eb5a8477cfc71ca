//! Linear prediction of the pitch buffer.
use crate::audio_processing::arithmetic::{
    absolute, at_most, difference, dot, is_at_most, is_functional, is_less, is_total, less,
    magnitude, minus, multiply_add, negative, opposite, over, plus, plus_product, product,
    quotient, sum, times, zero, zero_of, Real,
};
use vstd::array::array_fill_for_copy_types;
use vstd::prelude::*;

verus! {

/// Linear predictive coding (LPC) inverse filter length.
pub const NUM_LPC_COEFFICIENTS: usize = 5;

/// Order of the prediction before post-processing.
pub const NUM_INITIAL_LPC_COEFFICIENTS: usize = 4;

/// The numbers that the prediction works with.
#[derive(Debug, Copy, Clone)]
pub struct LpcParameters<T: Real> {
    /// Factor on the energy that stands for a noise floor.
    pub noise_floor: T,
    /// Share by which the correlation at each lag from one on is reduced.
    pub lag_reduction: [T; NUM_INITIAL_LPC_COEFFICIENTS],
    /// Least magnitude of the prediction error.
    pub min_error: T,
    /// Share of the energy below which the prediction is good enough.
    pub error_share: T,
    /// Factor on each coefficient.
    pub decay: [T; NUM_INITIAL_LPC_COEFFICIENTS],
    /// Coefficient of the final first-order filter.
    pub tilt: T,
}

/// Correlation of a frame with itself at a lag.
pub open spec fn correlation_at<T: Real>(x: Seq<T>, lag: int) -> T {
    dot(x, x.skip(lag), x.len() - lag)
}

pub open spec fn correlations<T: Real>(x: Seq<T>) -> Seq<T> {
    Seq::new(NUM_LPC_COEFFICIENTS as nat, |lag: int| correlation_at(x, lag))
}

pub fn compute_auto_correlation<T: Real>(x: &[T], auto_corr: &mut [T; NUM_LPC_COEFFICIENTS])
    requires
        is_total::<T>(),
        NUM_LPC_COEFFICIENTS < x@.len(),
    ensures
        is_functional::<T>() ==> final(auto_corr)@ == correlations(x@),
{
    let len: usize = x.len();
    let mut lag: usize = 0;
    while lag < NUM_LPC_COEFFICIENTS
        invariant
            is_total::<T>(),
            len == x@.len(),
            NUM_LPC_COEFFICIENTS < x@.len(),
            lag <= NUM_LPC_COEFFICIENTS,
            is_functional::<T>() ==> forall|k: int|
                0 <= k < lag ==> #[trigger] auto_corr@[k] == correlation_at(x@, k),
        decreases NUM_LPC_COEFFICIENTS - lag,
    {
        let mut acc: T = zero();
        let mut i: usize = 0;
        while i < len - lag
            invariant
                is_total::<T>(),
                len == x@.len(),
                lag < NUM_LPC_COEFFICIENTS < x@.len(),
                i <= len - lag,
                is_functional::<T>() ==> acc == dot(x@, x@.skip(lag as int), i as int),
            decreases len - lag - i,
        {
            assert(x@.skip(lag as int)[i as int] == x@[i + lag]);
            acc = multiply_add(acc, x[i], x[i + lag]);
            i = i + 1;
        }
        auto_corr[lag] = acc;
        lag = lag + 1;
    }
    proof {
        if is_functional::<T>() {
            assert(auto_corr@ =~= correlations(x@));
        }
    }
}

/// The correlations as with a noise floor and a lag window.
pub open spec fn denoised<T: Real>(p: LpcParameters<T>, auto_corr: Seq<T>) -> Seq<T> {
    Seq::new(
        NUM_LPC_COEFFICIENTS as nat,
        |k: int|
            if k == 0 {
                times(auto_corr[0], p.noise_floor)
            } else {
                minus(auto_corr[k], times(auto_corr[k], p.lag_reduction@[k - 1]))
            },
    )
}

pub fn denoise_auto_correlation<T: Real>(
    p: &LpcParameters<T>,
    auto_corr: &mut [T; NUM_LPC_COEFFICIENTS],
)
    requires
        is_total::<T>(),
    ensures
        is_functional::<T>() ==> final(auto_corr)@ == denoised(*p, old(auto_corr)@),
{
    let ghost before = auto_corr@;
    let energy = product(auto_corr[0], p.noise_floor);
    auto_corr[0] = energy;
    let mut k: usize = 1;
    while k < NUM_LPC_COEFFICIENTS
        invariant
            is_total::<T>(),
            1 <= k <= NUM_LPC_COEFFICIENTS,
            before.len() == NUM_LPC_COEFFICIENTS,
            forall|j: int| k <= j < NUM_LPC_COEFFICIENTS ==> auto_corr@[j] == before[j],
            is_functional::<T>() ==> forall|j: int|
                0 <= j < k ==> #[trigger] auto_corr@[j] == denoised(*p, before)[j],
        decreases NUM_LPC_COEFFICIENTS - k,
    {
        let value = difference(auto_corr[k], product(auto_corr[k], p.lag_reduction[k - 1]));
        auto_corr[k] = value;
        k = k + 1;
    }
    proof {
        if is_functional::<T>() {
            assert(auto_corr@ =~= denoised(*p, before));
        }
    }
}

/// A prediction of some order: its coefficients and error, and whether the error
/// is small enough to stop.
pub struct Prediction<T> {
    pub coeffs: Seq<T>,
    pub error: T,
    pub done: bool,
}

/// The correlation that a prediction of order `i` leaves, over the first `j` of
/// its coefficients.
pub open spec fn unpredicted<T: Real>(coeffs: Seq<T>, auto_corr: Seq<T>, i: int, j: int) -> T
    decreases j,
{
    if j <= 0 {
        zero_of()
    } else {
        plus_product(unpredicted(coeffs, auto_corr, i, j - 1), coeffs[j - 1], auto_corr[i - (j - 1)])
    }
}

/// The error kept away from zero. A zero of either sign counts as positive, which no
/// frame meets: one without energy has no prediction.
pub open spec fn bounded_error<T: Real>(error: T, min_error: T) -> T {
    if less(magnitude(error), min_error) {
        if less(error, zero_of()) {
            negative(min_error)
        } else {
            min_error
        }
    } else {
        error
    }
}

/// The coefficients of order `i + 1` for a reflection coefficient.
pub open spec fn reflected<T: Real>(coeffs: Seq<T>, i: int, reflection: T) -> Seq<T> {
    Seq::new(
        coeffs.len(),
        |j: int|
            if j < i {
                plus_product(coeffs[j], reflection, coeffs[i - 1 - j])
            } else if j == i {
                reflection
            } else {
                coeffs[j]
            },
    )
}

/// The prediction of order `order`, built up order by order until the error is
/// small.
pub open spec fn prediction<T: Real>(
    p: LpcParameters<T>,
    auto_corr: Seq<T>,
    order: int,
) -> Prediction<T>
    decreases order,
{
    if order <= 0 {
        Prediction {
            coeffs: Seq::new(NUM_INITIAL_LPC_COEFFICIENTS as nat, |j: int| zero_of::<T>()),
            error: auto_corr[0],
            done: false,
        }
    } else {
        let i = order - 1;
        let before = prediction(p, auto_corr, i);
        let error = bounded_error(before.error, p.min_error);
        let reflection = over(
            plus(unpredicted(before.coeffs, auto_corr, i, i), auto_corr[i + 1]),
            negative(error),
        );
        let rest = minus(error, times(times(reflection, reflection), error));
        if before.done {
            before
        } else {
            Prediction {
                coeffs: reflected(before.coeffs, i, reflection),
                error: rest,
                done: less(rest, times(p.error_share, auto_corr[0])),
            }
        }
    }
}

/// Combines the first `i` coefficients with their mirror images and appends the
/// reflection coefficient.
fn reflect<T: Real>(
    lpc_coeffs: &mut [T; NUM_INITIAL_LPC_COEFFICIENTS],
    i: usize,
    reflection_coeff: T,
)
    requires
        is_total::<T>(),
        i < NUM_INITIAL_LPC_COEFFICIENTS,
    ensures
        is_functional::<T>() ==> final(lpc_coeffs)@ == reflected(
            old(lpc_coeffs)@,
            i as int,
            reflection_coeff,
        ),
{
    let before: [T; NUM_INITIAL_LPC_COEFFICIENTS] = *lpc_coeffs;
    lpc_coeffs[i] = reflection_coeff;
    let mut j: usize = 0;
    while j < i
        invariant
            is_total::<T>(),
            i < NUM_INITIAL_LPC_COEFFICIENTS,
            j <= i,
            forall|k: int|
                i < k < NUM_INITIAL_LPC_COEFFICIENTS ==> lpc_coeffs@[k] == before@[k],
            lpc_coeffs@[i as int] == reflection_coeff,
            is_functional::<T>() ==> forall|k: int|
                0 <= k < j ==> #[trigger] lpc_coeffs@[k] == plus_product(
                    before@[k],
                    reflection_coeff,
                    before@[i - 1 - k],
                ),
        decreases i - j,
    {
        let value = multiply_add(before[j], reflection_coeff, before[i - 1 - j]);
        lpc_coeffs[j] = value;
        j = j + 1;
    }
    proof {
        if is_functional::<T>() {
            assert(lpc_coeffs@ =~= reflected(before@, i as int, reflection_coeff));
        }
    }
}

/// The prediction coefficients for the correlations of a frame. The first correlation, its
/// energy, is not zero: a zero of either sign would be taken for a small positive error.
pub fn compute_initial_inverse_filter_coefficients<T: Real>(
    p: &LpcParameters<T>,
    auto_corr: &[T; NUM_LPC_COEFFICIENTS],
) -> (lpc_coeffs: [T; NUM_INITIAL_LPC_COEFFICIENTS])
    requires
        is_total::<T>(),
    ensures
        is_functional::<T>() ==> lpc_coeffs@ == prediction(
            *p,
            auto_corr@,
            NUM_INITIAL_LPC_COEFFICIENTS as int,
        ).coeffs,
{
    let nothing: T = zero();
    let mut lpc_coeffs: [T; NUM_INITIAL_LPC_COEFFICIENTS] = array_fill_for_copy_types(nothing);
    let mut error = auto_corr[0];
    let mut done = false;
    let mut i: usize = 0;
    proof {
        if is_functional::<T>() {
            assert(lpc_coeffs@ =~= prediction(*p, auto_corr@, 0).coeffs);
        }
    }
    while i < NUM_INITIAL_LPC_COEFFICIENTS
        invariant
            is_total::<T>(),
            i <= NUM_INITIAL_LPC_COEFFICIENTS,
            is_functional::<T>() ==> {
                let before = prediction(*p, auto_corr@, i as int);
                &&& lpc_coeffs@ == before.coeffs
                &&& !done ==> error == before.error
                &&& done == before.done
            },
        decreases NUM_INITIAL_LPC_COEFFICIENTS - i,
    {
        if !done {
            let mut reflection_coeff: T = zero();
            let mut j: usize = 0;
            while j < i
                invariant
                    is_total::<T>(),
                    j <= i < NUM_INITIAL_LPC_COEFFICIENTS,
                    is_functional::<T>() ==> reflection_coeff == unpredicted(
                        lpc_coeffs@,
                        auto_corr@,
                        i as int,
                        j as int,
                    ),
                decreases i - j,
            {
                reflection_coeff = multiply_add(reflection_coeff, lpc_coeffs[j], auto_corr[i - j]);
                j = j + 1;
            }
            reflection_coeff = sum(reflection_coeff, auto_corr[i + 1]);
            // Avoid division by numbers close to zero.
            if is_less(absolute(error), p.min_error) {
                error =
                if is_less(error, zero()) {
                    opposite(p.min_error)
                } else {
                    p.min_error
                };
            }
            reflection_coeff = quotient(reflection_coeff, opposite(error));
            // Update LPC coefficients and total error.
            reflect(&mut lpc_coeffs, i, reflection_coeff);
            error = difference(error, product(product(reflection_coeff, reflection_coeff), error));
            done = is_less(error, product(p.error_share, auto_corr[0]));
        }
        i = i + 1;
    }
    lpc_coeffs
}

/// The coefficients after decay and the final first-order filter.
pub open spec fn post_processed<T: Real>(p: LpcParameters<T>, coeffs: Seq<T>) -> Seq<T> {
    let decayed = Seq::new(
        NUM_INITIAL_LPC_COEFFICIENTS as nat,
        |k: int| times(coeffs[k], p.decay@[k]),
    );
    seq![
        plus(decayed[0], p.tilt),
        plus_product(decayed[1], p.tilt, decayed[0]),
        plus_product(decayed[2], p.tilt, decayed[1]),
        plus_product(decayed[3], p.tilt, decayed[2]),
        times(p.tilt, decayed[3]),
    ]
}

/// The LPC coefficients of a frame: all zero for a frame without energy.
pub open spec fn lpc_coefficients<T: Real>(p: LpcParameters<T>, x: Seq<T>) -> Seq<T> {
    let energy = correlation_at(x, 0);
    if at_most(energy, zero_of()) && at_most(zero_of(), energy) {
        Seq::new(NUM_LPC_COEFFICIENTS as nat, |k: int| zero_of::<T>())
    } else {
        post_processed(
            p,
            prediction(
                p,
                denoised(p, correlations(x)),
                NUM_INITIAL_LPC_COEFFICIENTS as int,
            ).coeffs,
        )
    }
}

/// Given frame `x`, computes a post-processed version of LPC coefficients
/// tailored for pitch estimation.
pub fn compute_and_post_process_lpc_coefficients<T: Real>(
    p: &LpcParameters<T>,
    x: &[T],
    lpc_coeffs: &mut [T; NUM_LPC_COEFFICIENTS],
)
    requires
        is_total::<T>(),
        NUM_LPC_COEFFICIENTS < x@.len(),
    ensures
        is_functional::<T>() ==> final(lpc_coeffs)@ == lpc_coefficients(*p, x@),
{
    let nothing: T = zero();
    let mut auto_corr: [T; NUM_LPC_COEFFICIENTS] = array_fill_for_copy_types(nothing);
    compute_auto_correlation(x, &mut auto_corr);
    if is_at_most(auto_corr[0], nothing) && is_at_most(nothing, auto_corr[0]) {
        *lpc_coeffs = array_fill_for_copy_types(nothing);
        proof {
            if is_functional::<T>() {
                assert(lpc_coeffs@ =~= lpc_coefficients(*p, x@));
            }
        }
        return;
    }
    denoise_auto_correlation(p, &mut auto_corr);
    let pre = compute_initial_inverse_filter_coefficients(p, &auto_corr);
    // LPC coefficients post-processing.
    let c0 = product(pre[0], p.decay[0]);
    let c1 = product(pre[1], p.decay[1]);
    let c2 = product(pre[2], p.decay[2]);
    let c3 = product(pre[3], p.decay[3]);
    lpc_coeffs[0] = sum(c0, p.tilt);
    lpc_coeffs[1] = multiply_add(c1, p.tilt, c0);
    lpc_coeffs[2] = multiply_add(c2, p.tilt, c1);
    lpc_coeffs[3] = multiply_add(c3, p.tilt, c2);
    lpc_coeffs[4] = product(p.tilt, c3);
    proof {
        if is_functional::<T>() {
            assert(lpc_coeffs@ =~= lpc_coefficients(*p, x@));
        }
    }
}

/// Sample `i` plus the prediction from the `k` samples before it.
pub open spec fn residual<T: Real>(lpc_coeffs: Seq<T>, x: Seq<T>, i: int, k: int) -> T
    decreases k,
{
    if k <= 0 {
        x[i]
    } else {
        plus_product(residual(lpc_coeffs, x, i, k - 1), x[i - k], lpc_coeffs[k - 1])
    }
}

/// The number of samples that sample `i` is predicted from.
pub open spec fn taps_at(i: int) -> int {
    if i < NUM_LPC_COEFFICIENTS {
        i
    } else {
        NUM_LPC_COEFFICIENTS as int
    }
}

pub open spec fn residuals<T: Real>(lpc_coeffs: Seq<T>, x: Seq<T>) -> Seq<T> {
    Seq::new(x.len(), |i: int| residual(lpc_coeffs, x, i, taps_at(i)))
}

/// Computes the LP residual for input frame `x` and LPC coefficients
/// `lpc_coeffs`.
pub fn compute_lp_residual<T: Real>(
    lpc_coeffs: &[T; NUM_LPC_COEFFICIENTS],
    x: &[T],
    y: &mut [T],
)
    requires
        is_total::<T>(),
        x@.len() > NUM_LPC_COEFFICIENTS,
        x@.len() == old(y)@.len(),
    ensures
        final(y)@.len() == old(y)@.len(),
        is_functional::<T>() ==> final(y)@ == residuals(lpc_coeffs@, x@),
{
    let mut i: usize = 0;
    while i < x.len()
        invariant
            is_total::<T>(),
            i <= x@.len(),
            y@.len() == x@.len(),
            is_functional::<T>() ==> forall|j: int|
                0 <= j < i ==> #[trigger] y@[j] == residual(lpc_coeffs@, x@, j, taps_at(j)),
        decreases x@.len() - i,
    {
        let taps: usize = if i < NUM_LPC_COEFFICIENTS {
            i
        } else {
            NUM_LPC_COEFFICIENTS
        };
        let mut acc = x[i];
        let mut k: usize = 0;
        while k < taps
            invariant
                is_total::<T>(),
                k <= taps <= i < x@.len(),
                taps <= NUM_LPC_COEFFICIENTS,
                is_functional::<T>() ==> acc == residual(lpc_coeffs@, x@, i as int, k as int),
            decreases taps - k,
        {
            acc = multiply_add(acc, x[i - 1 - k], lpc_coeffs[k]);
            k = k + 1;
        }
        y[i] = acc;
        i = i + 1;
    }
    proof {
        if is_functional::<T>() {
            assert(y@ =~= residuals(lpc_coeffs@, x@));
        }
    }
}

/// The first sample is its own residual, and samples after one make no
/// difference to its residual.
pub proof fn law_residual_is_causal<T: Real>(
    lpc_coeffs: Seq<T>,
    x: Seq<T>,
    other: Seq<T>,
    i: int,
    k: int,
)
    requires
        0 <= k <= i < x.len(),
        i < other.len(),
        forall|j: int| 0 <= j <= i ==> x[j] == other[j],
    ensures
        residual(lpc_coeffs, x, i, k) == residual(lpc_coeffs, other, i, k),
        residual(lpc_coeffs, x, 0, 0) == x[0],
    decreases k,
{
    if k > 0 {
        law_residual_is_causal(lpc_coeffs, x, other, i, k - 1);
    }
}

} // verus!
