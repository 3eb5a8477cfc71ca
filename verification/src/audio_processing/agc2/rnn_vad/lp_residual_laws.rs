//! What holds of the linear prediction.
use crate::audio_processing::agc2::rnn_vad::lp_residual::{
    bounded_error, correlation_at, correlations, denoised, lpc_coefficients, post_processed,
    prediction, reflected, residual, residuals, unpredicted, LpcParameters,
    NUM_INITIAL_LPC_COEFFICIENTS, NUM_LPC_COEFFICIENTS,
};
use crate::audio_processing::arithmetic::{
    at_most, dot, energy, less, magnitude, minus, negative, over, plus, same, times, zero_of, Real,
};
use crate::audio_processing::ordered::{
    is_exact, is_number, is_ordered, law_magnitude, lemma_dot_is_linear, lemma_dot_reversed,
    lemma_exact, lemma_order, lemma_products, lemma_same_dot, lemma_sums, products_keep_order,
    sums_keep_order,
};
use vstd::prelude::*;

verus! {

/// The correlation at a lag is that of the frame with what follows from the lag on, sample
/// by sample; without a lag it is the energy.
pub proof fn law_correlation<T: Real>(x: Seq<T>, lag: int, later: Seq<T>)
    requires
        0 <= lag <= x.len(),
        later.len() == x.len() - lag,
        forall|i: int| 0 <= i < later.len() ==> #[trigger] later[i] == x[lag + i],
    ensures
        correlation_at(x, lag) == dot(x, later, x.len() - lag),
        correlation_at(x, 0) == energy(x),
{
    assert(later =~= x.skip(lag));
    assert(x.skip(0) =~= x);
}

/// A noise floor scales the energy, and each other correlation loses its share.
pub proof fn law_denoised<T: Real>(p: LpcParameters<T>, auto_corr: Seq<T>, one: T, k: int)
    requires
        is_exact::<T>(),
        forall|a: T| #[trigger] times(a, one) == a,
        1 <= k < NUM_LPC_COEFFICIENTS,
    ensures
        denoised(p, auto_corr).len() == 5,
        denoised(p, auto_corr)[0] == times(auto_corr[0], p.noise_floor),
        denoised(p, auto_corr)[k] == times(auto_corr[k], minus(one, p.lag_reduction@[k - 1])),
        plus(denoised(p, auto_corr)[k], times(auto_corr[k], p.lag_reduction@[k - 1]))
            == auto_corr[k],
{
    let (c, r) = (auto_corr[k], p.lag_reduction@[k - 1]);
    let lost = times(c, r);
    lemma_exact(c, lost, zero_of());
    lemma_exact(one, r, c);
    lemma_exact(one, negative(r), c);
    lemma_exact(c, one, zero_of());
    lemma_exact(c, minus(one, r), zero_of());
    assert(times(c, one) == c);
    // c * -r == -(c * r), as the two add up to nothing.
    lemma_exact(r, negative(r), c);
    lemma_exact(negative(r), c, zero_of());
    lemma_exact(r, c, zero_of());
    let other = times(negative(r), c);
    lemma_exact(c, zero_of(), zero_of());
    assert(plus(times(r, c), other) == zero_of::<T>());
    lemma_exact(negative(lost), lost, other);
    lemma_exact(lost, negative(lost), zero_of());
    lemma_exact(negative(lost), zero_of(), zero_of());
    lemma_exact(other, zero_of(), zero_of());
    assert(other == negative(lost));
}

/// The error keeps its sign and is never nearer to zero than its least magnitude; one that
/// is not is kept.
pub proof fn law_bounded_error<T: Real>(error: T, min_error: T)
    requires
        is_ordered::<T>(),
        sums_keep_order::<T>(),
        is_number(error),
        less(zero_of(), min_error),
    ensures
        at_most(min_error, magnitude(bounded_error(error, min_error))),
        at_most(min_error, error) || at_most(error, negative(min_error)) ==> bounded_error(
            error,
            min_error,
        ) == error,
        less(zero_of(), error) && less(error, min_error) ==> bounded_error(error, min_error)
            == min_error,
        less(error, zero_of()) && less(negative(min_error), error) ==> bounded_error(
            error,
            min_error,
        ) == negative(min_error),
{
    let zero = zero_of::<T>();
    law_magnitude(error);
    lemma_order(zero, min_error, zero);
    law_magnitude(min_error);
    lemma_sums(min_error, min_error, zero, zero);
    law_magnitude(negative(min_error));
    lemma_sums(negative(min_error), error, zero, zero);
    lemma_sums(error, negative(min_error), zero, zero);
    lemma_order(min_error, magnitude(min_error), zero);
    lemma_order(min_error, magnitude(min_error), magnitude(negative(min_error)));
    lemma_order(min_error, error, magnitude(error));
    lemma_order(min_error, negative(error), magnitude(error));
    lemma_order(magnitude(error), min_error, zero);
    lemma_order(min_error, magnitude(error), zero);
    lemma_order(zero, error, min_error);
    lemma_order(error, zero, min_error);
    lemma_order(error, min_error, zero);
    lemma_order(negative(min_error), error, zero);
    if less(negative(min_error), error) {
        let m = negative(error);
        lemma_order(m, min_error, zero);
        lemma_order(min_error, m, zero);
        if at_most(min_error, m) {
            lemma_sums(min_error, m, zero, zero);
            lemma_order(error, negative(min_error), zero);
        }
    }
    lemma_order(magnitude(error), error, min_error);
}

/// The correlations by distance from a lag.
pub open spec fn by_distance<T: Real>(auto_corr: Seq<T>, k: int, n: int) -> Seq<T> {
    Seq::new(
        n as nat,
        |j: int|
            auto_corr[if j < k {
                k - 1 - j
            } else {
                j + 1 - k
            }],
    )
}

/// What the coefficients leave of the correlation at a lag.
pub open spec fn left_at<T: Real>(auto_corr: Seq<T>, coeffs: Seq<T>, k: int, n: int) -> T {
    plus(auto_corr[k], dot(coeffs, by_distance(auto_corr, k, n), n))
}

/// The unpredicted correlation takes each coefficient with the correlation that is as far
/// back.
pub proof fn law_unpredicted<T: Real>(coeffs: Seq<T>, auto_corr: Seq<T>, i: int, j: int)
    requires
        0 <= j <= i < auto_corr.len(),
    ensures
        unpredicted(coeffs, auto_corr, i, j) == dot(coeffs, by_distance(auto_corr, i + 1, j), j),
    decreases j,
{
    if j > 0 {
        law_unpredicted(coeffs, auto_corr, i, j - 1);
        lemma_same_dot(
            coeffs,
            by_distance(auto_corr, i + 1, j - 1),
            coeffs,
            by_distance(auto_corr, i + 1, j),
            j - 1,
        );
    }
}

/// The prediction solves the normal equations: the coefficients of an order leave nothing
/// of the correlations at the lags up to that order, and the error is what they leave of
/// the energy.
pub proof fn law_normal_equations<T: Real>(p: LpcParameters<T>, auto_corr: Seq<T>, order: int)
    requires
        is_ordered::<T>(),
        sums_keep_order::<T>(),
        products_keep_order::<T>(),
        is_exact::<T>(),
        auto_corr.len() == NUM_LPC_COEFFICIENTS,
        0 <= order <= NUM_INITIAL_LPC_COEFFICIENTS,
        forall|k: int|
            0 <= k < order ==> {
                &&& !(#[trigger] prediction(p, auto_corr, k)).done
                &&& less(zero_of(), prediction(p, auto_corr, k).error)
                &&& at_most(p.min_error, prediction(p, auto_corr, k).error)
            },
    ensures
        ({
            let found = prediction(p, auto_corr, order);
            &&& found.coeffs.len() == 4
            &&& found.error == left_at(auto_corr, found.coeffs, 0, order)
            &&& forall|k: int|
                1 <= k <= order ==> #[trigger] left_at(auto_corr, found.coeffs, k, order)
                    == zero_of::<T>()
        }),
    decreases order,
{
    let zero = zero_of::<T>();
    if order == 0 {
        let none = prediction(p, auto_corr, 0).coeffs;
        assert(dot(none, by_distance(auto_corr, 0, 0), 0) == zero);
        lemma_exact(auto_corr[0], zero, zero);
    } else {
        let i = order - 1;
        law_normal_equations(p, auto_corr, i);
        let before = prediction(p, auto_corr, i);
        let error = before.error;
        assert(bounded_error(error, p.min_error) == error) by {
            lemma_order(zero, error, zero);
            lemma_order(p.min_error, error, zero);
        }
        let number = plus(unpredicted(before.coeffs, auto_corr, i, i), auto_corr[i + 1]);
        let reflection = over(number, negative(error));
        let after = prediction(p, auto_corr, order);
        law_unpredicted(before.coeffs, auto_corr, i, i);
        lemma_exact(
            auto_corr[i + 1],
            dot(before.coeffs, by_distance(auto_corr, i + 1, i), i),
            zero,
        );
        assert(number == left_at(auto_corr, before.coeffs, i + 1, i));
        assert forall|k: int| 0 <= k <= order implies #[trigger] left_at(
            auto_corr,
            after.coeffs,
            k,
            order,
        ) == plus(
            left_at(auto_corr, before.coeffs, k, i),
            times(reflection, left_at(auto_corr, before.coeffs, order - k, i)),
        ) by {
            lemma_reflected(auto_corr, before.coeffs, i, reflection, k);
        }
        // The reflection takes the number away from the lag and the rest from the error.
        lemma_order(zero, error, zero);
        lemma_sums(zero, error, zero, zero);
        assert(less(negative(error), zero)) by {
            assert(is_number(negative(error)) && is_number(zero));
            lemma_order(negative(error), zero, zero);
            lemma_order(zero, negative(error), zero);
            if at_most(zero, negative(error)) {
                lemma_sums(zero, negative(error), zero, zero);
                lemma_exact(error, zero, zero);
                lemma_order(error, zero, error);
            }
        }
        lemma_exact(number, negative(error), zero);
        lemma_products(error, reflection, zero);
        lemma_exact(reflection, negative(error), zero);
        lemma_exact(reflection, error, zero);
        let taken = times(reflection, error);
        assert(number == negative(taken)) by {
            assert(is_number(times(error, reflection)));
        }
        lemma_exact(taken, negative(taken), zero);
        lemma_exact(negative(taken), taken, zero);
        lemma_exact(zero, zero, zero);
        lemma_exact(reflection, zero, zero);
        lemma_products(taken, reflection, zero);
        lemma_exact(reflection, taken, zero);
        lemma_exact(reflection, negative(taken), zero);
        lemma_exact(reflection, reflection, error);
        assert(is_number(times(taken, reflection)));
        lemma_exact(error, times(times(reflection, reflection), error), zero);
        assert forall|k: int| 1 <= k <= order implies #[trigger] left_at(
            auto_corr,
            after.coeffs,
            k,
            order,
        ) == zero by {
            if k == order {
                assert(left_at(auto_corr, before.coeffs, 0, i) == error);
            } else {
                assert(left_at(auto_corr, before.coeffs, k, i) == zero);
                assert(left_at(auto_corr, before.coeffs, order - k, i) == zero);
            }
        }
        assert(left_at(auto_corr, after.coeffs, 0, order) == plus(
            error,
            times(reflection, number),
        ));
    }
}

/// What reflected coefficients leave at a lag is what the ones before left there and, by
/// the reflection, what they left at the mirrored lag.
proof fn lemma_reflected<T: Real>(
    auto_corr: Seq<T>,
    coeffs: Seq<T>,
    i: int,
    reflection: T,
    k: int,
)
    requires
        is_exact::<T>(),
        auto_corr.len() == NUM_LPC_COEFFICIENTS,
        0 <= i < coeffs.len() == NUM_INITIAL_LPC_COEFFICIENTS,
        0 <= k <= i + 1,
    ensures
        left_at(auto_corr, reflected(coeffs, i, reflection), k, i + 1) == plus(
            left_at(auto_corr, coeffs, k, i),
            times(reflection, left_at(auto_corr, coeffs, i + 1 - k, i)),
        ),
{
    let mixed = reflected(coeffs, i, reflection);
    let mirrored = Seq::new(i as nat, |j: int| coeffs[i - 1 - j]);
    let here = by_distance(auto_corr, k, i);
    let there = by_distance(auto_corr, i + 1 - k, i);
    let longer = by_distance(auto_corr, k, i + 1);
    lemma_same_dot(mixed, longer, mixed, here, i);
    lemma_dot_is_linear(mixed, coeffs, mirrored, reflection, here, i);
    assert forall|j: int| 0 <= j < i implies #[trigger] here[j] == there[i - 1 - j] by {}
    lemma_dot_reversed(coeffs, there, mirrored, here, i);
    let (a, b) = (dot(coeffs, here, i), dot(coeffs, there, i));
    let (x, y) = (auto_corr[k], auto_corr[i + 1 - k]);
    assert(longer[i] == y);
    assert(mixed[i] == reflection);
    assert(dot(mixed, longer, i + 1) == plus(
        plus(a, times(reflection, b)),
        times(reflection, y),
    ));
    lemma_exact(b, y, reflection);
    lemma_exact(y, b, reflection);
    lemma_exact(a, times(reflection, b), times(reflection, y));
    lemma_exact(x, a, times(reflection, plus(y, b)));
    lemma_exact(times(reflection, b), times(reflection, y), a);
}

/// A prediction that is good enough is kept by every higher order, and one of an order is
/// good enough once its error is below the share of the energy.
pub proof fn law_good_prediction_is_kept<T: Real>(
    p: LpcParameters<T>,
    auto_corr: Seq<T>,
    order: int,
)
    requires
        0 <= order,
    ensures
        prediction(p, auto_corr, order).done ==> prediction(p, auto_corr, order + 1) == prediction(
            p,
            auto_corr,
            order,
        ),
        !prediction(p, auto_corr, order).done ==> prediction(p, auto_corr, order + 1).done == less(
            prediction(p, auto_corr, order + 1).error,
            times(p.error_share, auto_corr[0]),
        ),
{
}

/// The final filter is the one before, with its coefficients decayed, and a first-order
/// filter in turn: each coefficient gets the one before it by the tilt, where the one
/// before the first is one and the one after the last nothing.
pub proof fn law_post_processed<T: Real>(p: LpcParameters<T>, coeffs: Seq<T>, one: T, k: int)
    requires
        is_exact::<T>(),
        forall|a: T| #[trigger] times(a, one) == a,
        0 <= k < NUM_LPC_COEFFICIENTS,
    ensures
        post_processed(p, coeffs).len() == 5,
        post_processed(p, coeffs)[k] == plus(
            if k < 4 {
                times(coeffs[k], p.decay@[k])
            } else {
                zero_of()
            },
            times(
                p.tilt,
                if k == 0 {
                    one
                } else {
                    times(coeffs[k - 1], p.decay@[k - 1])
                },
            ),
        ),
{
    let last = times(p.tilt, times(coeffs[3], p.decay@[3]));
    lemma_exact(last, zero_of(), zero_of());
    assert(times(p.tilt, one) == p.tilt);
    assert(k == 0 || k == 1 || k == 2 || k == 3 || k == 4);
}

/// A frame without energy has no prediction. The coefficients of any other one are those
/// of the highest order for its denoised correlations, after the final filter.
pub proof fn law_lpc_coefficients<T: Real>(p: LpcParameters<T>, x: Seq<T>, k: int)
    requires
        0 <= k < NUM_LPC_COEFFICIENTS,
    ensures
        lpc_coefficients(p, x).len() == 5,
        same(correlation_at(x, 0), zero_of()) ==> lpc_coefficients(p, x)[k] == zero_of::<T>(),
        !same(correlation_at(x, 0), zero_of()) ==> lpc_coefficients(p, x) == post_processed(
            p,
            prediction(
                p,
                denoised(p, Seq::new(5, |lag: int| correlation_at(x, lag))),
                4,
            ).coeffs,
        ),
{
    assert(correlations(x) =~= Seq::new(5, |lag: int| correlation_at(x, lag)));
}

/// The residual of a sample is the sample and what the samples before it, the nearest one
/// first, add by the coefficients. As many of these count as there are coefficients, or
/// samples if there are fewer.
pub proof fn law_residual<T: Real>(lpc_coeffs: Seq<T>, x: Seq<T>, i: int, k: int)
    requires
        is_exact::<T>(),
        0 <= k <= i < x.len(),
    ensures
        residual(lpc_coeffs, x, i, k) == plus(
            x[i],
            dot(Seq::new(k as nat, |j: int| x[i - 1 - j]), lpc_coeffs, k),
        ),
        residuals(lpc_coeffs, x).len() == x.len(),
        residuals(lpc_coeffs, x)[i] == residual(
            lpc_coeffs,
            x,
            i,
            if i < 5 {
                i
            } else {
                5
            },
        ),
    decreases k,
{
    let past = Seq::new(k as nat, |j: int| x[i - 1 - j]);
    if k == 0 {
        assert(dot(past, lpc_coeffs, 0) == zero_of::<T>());
        lemma_exact(x[i], zero_of(), zero_of());
    } else {
        law_residual(lpc_coeffs, x, i, k - 1);
        let shorter = Seq::new((k - 1) as nat, |j: int| x[i - 1 - j]);
        lemma_same_dot(shorter, lpc_coeffs, past, lpc_coeffs, k - 1);
        lemma_exact(
            x[i],
            dot(past, lpc_coeffs, k - 1),
            times(x[i - k], lpc_coeffs[k - 1]),
        );
    }
}

} // verus!
