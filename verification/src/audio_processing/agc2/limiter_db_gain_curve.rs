//! Limiter gain curve in dB domain.
use crate::audio_processing::arithmetic::{
    apply, at_most, difference, image, is_at_most, is_functional, is_less, is_mapping, is_total,
    less, minus, negative, opposite, over, plus, product, quotient, sum, times, zero, zero_of,
    Real,
};
use crate::audio_processing::ordered::{
    is_exact, is_number, is_one, is_ordered, lemma_divides_out, lemma_exact, lemma_order,
    lemma_products, lemma_same_factor, products_keep_order, sums_keep_order,
};
use vstd::prelude::*;

verus! {

/// The numbers that a gain curve is made from.
#[derive(Debug, Clone, Copy)]
pub struct LimiterCurveParameters<T: Real> {
    pub max_input_level_db: T,
    pub knee_smoothness_db: T,
    pub compression_ratio: T,
    pub max_abs_sample: T,
    pub one: T,
    pub two: T,
    pub ten: T,
    pub twenty: T,
    /// The level of silence.
    pub silence_dbfs: T,
    /// How far below the start of the limiter, as a share of the largest sample, the
    /// derivative of the gain can be taken.
    pub derivative_tolerance: T,
}

/// The functions that a gain curve works with.
pub struct LimiterCurveFunctions<P, L> {
    /// Raises the first number to the power of the second.
    pub power: P,
    pub log10: L,
}

/// The linear level for a level in dBFS.
pub open spec fn linear_of<T: Real>(
    p: LimiterCurveParameters<T>,
    power: spec_fn((T, T)) -> T,
    dbfs: T,
) -> T {
    times(power((p.ten, over(dbfs, p.twenty))), p.max_abs_sample)
}

/// The level in dBFS for a linear level.
pub open spec fn dbfs_of<T: Real>(
    p: LimiterCurveParameters<T>,
    log10: spec_fn(T) -> T,
    linear: T,
) -> T {
    if at_most(linear, zero_of()) {
        p.silence_dbfs
    } else {
        times(p.twenty, log10(over(linear, p.max_abs_sample)))
    }
}

/// Where the knee starts.
pub open spec fn knee_start<T: Real>(p: LimiterCurveParameters<T>) -> T {
    minus(
        over(negative(p.knee_smoothness_db), p.two),
        over(p.max_input_level_db, minus(p.compression_ratio, p.one)),
    )
}

/// Where the limiter starts.
pub open spec fn limiter_start<T: Real>(p: LimiterCurveParameters<T>) -> T {
    plus(knee_start(p), p.knee_smoothness_db)
}

/// Whether the numbers give a curve: the ratio compresses, and the limiter starts
/// below the maximum level.
pub open spec fn is_valid<T: Real>(p: LimiterCurveParameters<T>) -> bool {
    &&& less(zero_of(), p.knee_smoothness_db)
    &&& less(p.one, p.compression_ratio)
    &&& less(
        over(
            times(minus(p.compression_ratio, p.one), p.knee_smoothness_db),
            times(p.two, p.compression_ratio),
        ),
        p.max_input_level_db,
    )
    &&& at_most(limiter_start(p), p.max_input_level_db)
}

/// Leading coefficient of the knee.
pub open spec fn knee_a<T: Real>(p: LimiterCurveParameters<T>) -> T {
    over(
        minus(p.one, p.compression_ratio),
        times(times(p.two, p.knee_smoothness_db), p.compression_ratio),
    )
}

/// Linear coefficient of the knee.
pub open spec fn knee_b<T: Real>(p: LimiterCurveParameters<T>) -> T {
    minus(p.one, times(times(p.two, knee_a(p)), knee_start(p)))
}

/// Constant of the knee.
pub open spec fn knee_c<T: Real>(p: LimiterCurveParameters<T>) -> T {
    times(times(knee_a(p), knee_start(p)), knee_start(p))
}

/// The output level for an input level: equal below the knee, by a polynomial in
/// the knee, compressed beyond it.
pub open spec fn output_level<T: Real>(p: LimiterCurveParameters<T>, input_level_dbfs: T) -> T {
    if less(input_level_dbfs, knee_start(p)) {
        input_level_dbfs
    } else if less(input_level_dbfs, limiter_start(p)) {
        plus(
            plus(
                times(times(knee_a(p), input_level_dbfs), input_level_dbfs),
                times(knee_b(p), input_level_dbfs),
            ),
            knee_c(p),
        )
    } else {
        over(minus(input_level_dbfs, p.max_input_level_db), p.compression_ratio)
    }
}

/// The gain at a linear level.
pub open spec fn gain_of<T: Real>(
    p: LimiterCurveParameters<T>,
    power: spec_fn((T, T)) -> T,
    log10: spec_fn(T) -> T,
    input_level_linear: T,
) -> T {
    if less(input_level_linear, linear_of(p, power, knee_start(p))) {
        p.one
    } else {
        over(
            linear_of(p, power, output_level(p, dbfs_of(p, log10, input_level_linear))),
            input_level_linear,
        )
    }
}

/// The level at which the limiter puts out full scale, over the full scale.
pub open spec fn compressed_scale<T: Real>(
    p: LimiterCurveParameters<T>,
    power: spec_fn((T, T)) -> T,
) -> T {
    power((p.ten, over(negative(p.max_input_level_db), times(p.twenty, p.compression_ratio))))
}

/// Factor of the derivative of the gain.
pub open spec fn derivative_factor<T: Real>(
    p: LimiterCurveParameters<T>,
    power: spec_fn((T, T)) -> T,
) -> T {
    over(
        over(
            times(compressed_scale(p, power), minus(p.one, p.compression_ratio)),
            p.compression_ratio,
        ),
        p.max_abs_sample,
    )
}

/// Exponent of the derivative of the gain.
pub open spec fn derivative_exponent<T: Real>(p: LimiterCurveParameters<T>) -> T {
    over(minus(p.one, times(p.two, p.compression_ratio)), p.compression_ratio)
}

/// Exponent of the integral of the gain.
pub open spec fn integral_exponent<T: Real>(p: LimiterCurveParameters<T>) -> T {
    over(p.one, p.compression_ratio)
}

/// Factor of the integral of the gain.
pub open spec fn integral_factor<T: Real>(
    p: LimiterCurveParameters<T>,
    power: spec_fn((T, T)) -> T,
) -> T {
    over(
        over(compressed_scale(p, power), integral_exponent(p)),
        power((p.max_abs_sample, minus(integral_exponent(p), p.one))),
    )
}

/// The integral of the gain up to a level beyond the knee.
pub open spec fn integral_to<T: Real>(
    p: LimiterCurveParameters<T>,
    power: spec_fn((T, T)) -> T,
    x: T,
) -> T {
    times(integral_factor(p, power), power((x, integral_exponent(p))))
}

/// The level in dBFS of a linear level is that from which the linear level comes, if the
/// logarithm is the inverse of the power.
pub proof fn law_dbfs_is_inverse<T: Real>(
    p: LimiterCurveParameters<T>,
    power: spec_fn((T, T)) -> T,
    log10: spec_fn(T) -> T,
    linear: T,
)
    requires
        is_ordered::<T>(),
        products_keep_order::<T>(),
        is_exact::<T>(),
        is_one(p.one),
        less(zero_of(), p.twenty),
        less(zero_of(), p.max_abs_sample),
        less(zero_of(), linear),
        forall|a: T| less(zero_of(), a) ==> power((p.ten, #[trigger] log10(a))) == a,
    ensures
        linear_of(p, power, dbfs_of(p, log10, linear)) == linear,
{
    let zero = zero_of::<T>();
    let share = over(linear, p.max_abs_sample);
    lemma_order(zero, linear, zero);
    lemma_order(linear, zero, zero);
    lemma_exact(linear, p.max_abs_sample, zero);
    lemma_divides_out(p.one, log10(share), p.twenty);
    assert(less(zero, share)) by {
        lemma_order(zero, p.max_abs_sample, zero);
        lemma_products(linear, p.max_abs_sample, zero);
        assert(is_number(share) && is_number(zero));
        lemma_order(zero, share, zero);
        lemma_order(share, zero, zero);
        if at_most(share, zero) {
            lemma_products(share, p.max_abs_sample, zero);
            lemma_order(times(share, p.max_abs_sample), zero, zero);
        }
    }
}

/// In the middle of the knee the compressed level is the level itself, and the knee
/// reaches as far below as above it.
pub proof fn law_knee_is_centred<T: Real>(p: LimiterCurveParameters<T>)
    requires
        is_ordered::<T>(),
        sums_keep_order::<T>(),
        is_exact::<T>(),
        is_one(p.one),
        p.two == plus(p.one, p.one),
        less(zero_of(), p.two),
        less(zero_of(), minus(p.compression_ratio, p.one)),
    ensures
        ({
            let middle = plus(knee_start(p), over(p.knee_smoothness_db, p.two));
            &&& times(middle, p.compression_ratio) == minus(middle, p.max_input_level_db)
            &&& minus(limiter_start(p), knee_start(p)) == p.knee_smoothness_db
        }),
{
    let zero = zero_of::<T>();
    let slope = minus(p.compression_ratio, p.one);
    let half = over(p.knee_smoothness_db, p.two);
    let part = over(p.max_input_level_db, slope);
    let lower = over(negative(p.knee_smoothness_db), p.two);
    let middle = plus(knee_start(p), half);
    // The two halves of the knee cancel.
    lemma_exact(p.knee_smoothness_db, p.two, zero);
    lemma_exact(negative(p.knee_smoothness_db), p.two, zero);
    lemma_exact(lower, half, p.two);
    lemma_exact(half, p.two, zero);
    lemma_exact(lower, p.two, zero);
    lemma_exact(p.knee_smoothness_db, negative(p.knee_smoothness_db), zero);
    assert(times(plus(lower, half), p.two) == zero);
    lemma_exact(p.two, zero, zero);
    lemma_same_factor(p.one, plus(lower, half), zero, p.two);
    lemma_exact(lower, negative(part), half);
    lemma_exact(negative(part), half, lower);
    lemma_exact(lower, half, negative(part));
    lemma_exact(half, negative(part), lower);
    lemma_exact(lower, part, zero);
    lemma_exact(zero, negative(part), zero);
    lemma_exact(negative(part), zero, zero);
    assert(middle == negative(part));
    // The middle times the ratio less one is what the maximum takes away.
    lemma_exact(p.max_input_level_db, slope, zero);
    lemma_exact(part, slope, zero);
    lemma_exact(part, negative(part), slope);
    lemma_exact(negative(part), part, slope);
    lemma_exact(slope, zero, zero);
    let a = times(negative(part), slope);
    let b = times(part, slope);
    assert(plus(b, a) == zero);
    assert(b == p.max_input_level_db);
    lemma_exact(negative(b), b, a);
    lemma_exact(b, a, negative(b));
    lemma_exact(b, negative(b), zero);
    lemma_exact(negative(b), zero, zero);
    lemma_exact(zero, a, zero);
    lemma_exact(a, zero, zero);
    assert(a == negative(b));
    lemma_exact(p.compression_ratio, p.one, negative(part));
    lemma_exact(slope, p.one, negative(part));
    assert(is_number(negative(part)));
    assert(times(negative(part), p.one) == negative(part));
    lemma_exact(p.one, negative(part), zero);
    lemma_exact(negative(part), p.compression_ratio, zero);
    lemma_exact(negative(part), slope, zero);
    lemma_exact(negative(b), negative(part), zero);
    lemma_exact(middle, b, zero);
    lemma_exact(p.knee_smoothness_db, knee_start(p), zero);
    lemma_exact(knee_start(p), p.knee_smoothness_db, zero);
    lemma_exact(p.knee_smoothness_db, knee_start(p), negative(knee_start(p)));
    lemma_exact(knee_start(p), negative(knee_start(p)), zero);
    lemma_exact(p.knee_smoothness_db, zero, zero);
    lemma_exact(limiter_start(p), knee_start(p), zero);
}

/// Levels below the knee are kept. In the knee a level falls behind by the square of how
/// far it is in the knee, so that the curve is smooth where it starts. Beyond the knee a
/// level is as many times as far below full scale as the ratio says, and the largest
/// input level is put out at full scale.
pub proof fn law_output_level<T: Real>(p: LimiterCurveParameters<T>, input_level_dbfs: T)
    requires
        is_ordered::<T>(),
        sums_keep_order::<T>(),
        products_keep_order::<T>(),
        is_exact::<T>(),
        is_one(p.one),
        p.two == plus(p.one, p.one),
        less(zero_of(), p.compression_ratio),
        less(zero_of(), times(times(p.two, p.knee_smoothness_db), p.compression_ratio)),
        at_most(knee_start(p), limiter_start(p)),
    ensures
        less(input_level_dbfs, knee_start(p)) ==> output_level(p, input_level_dbfs)
            == input_level_dbfs,
        at_most(limiter_start(p), input_level_dbfs) ==> times(
            output_level(p, input_level_dbfs),
            p.compression_ratio,
        ) == minus(input_level_dbfs, p.max_input_level_db),
        at_most(limiter_start(p), p.max_input_level_db) ==> output_level(p, p.max_input_level_db)
            == zero_of::<T>(),
        at_most(knee_start(p), input_level_dbfs) && less(input_level_dbfs, limiter_start(p)) ==> ({
            let inside = minus(input_level_dbfs, knee_start(p));
            output_level(p, input_level_dbfs) == plus(
                input_level_dbfs,
                times(knee_a(p), times(inside, inside)),
            )
        }),
        times(knee_a(p), times(times(p.two, p.knee_smoothness_db), p.compression_ratio)) == minus(
            p.one,
            p.compression_ratio,
        ),
{
    let zero = zero_of::<T>();
    let (x, s) = (input_level_dbfs, knee_start(p));
    let max = p.max_input_level_db;
    assert(is_number(x) && is_number(max) && is_number(s));
    lemma_order(x, s, limiter_start(p));
    lemma_order(s, x, s);
    lemma_order(limiter_start(p), x, s);
    lemma_order(x, limiter_start(p), s);
    lemma_order(s, limiter_start(p), x);
    lemma_order(s, limiter_start(p), max);
    lemma_order(limiter_start(p), max, s);
    lemma_order(max, limiter_start(p), s);
    lemma_order(max, s, limiter_start(p));
    lemma_order(s, max, s);
    lemma_exact(minus(x, max), p.compression_ratio, zero);
    lemma_exact(max, zero, zero);
    lemma_exact(max, max, zero);
    lemma_divides_out(p.one, zero, p.compression_ratio);
    lemma_exact(
        minus(p.one, p.compression_ratio),
        times(times(p.two, p.knee_smoothness_db), p.compression_ratio),
        zero,
    );
    lemma_knee(p.one, knee_a(p), s, x);
}

proof fn lemma_knee<T: Real>(one: T, a: T, s: T, x: T)
    requires
        is_ordered::<T>(),
        products_keep_order::<T>(),
        is_exact::<T>(),
        is_one(one),
    ensures
        plus(
            plus(
                times(times(a, x), x),
                times(minus(one, times(times(plus(one, one), a), s)), x),
            ),
            times(times(a, s), s),
        ) == plus(x, times(a, times(minus(x, s), minus(x, s)))),
{
    let zero = zero_of::<T>();
    let p = times(times(a, x), x);
    let q = times(times(a, s), x);
    let r = times(times(a, s), s);
    let nq = negative(q);
    assert(is_number(x) && is_number(a) && is_number(q));
    // The linear term.
    let two = plus(one, one);
    lemma_exact(one, one, a);
    assert(times(a, one) == a);
    lemma_exact(one, a, zero);
    lemma_exact(a, a, s);
    lemma_exact(times(a, s), times(a, s), x);
    let w = times(times(two, a), s);
    assert(times(w, x) == plus(q, q));
    lemma_exact(one, w, x);
    lemma_exact(one, negative(w), x);
    lemma_exact(w, x, zero);
    lemma_products(w, x, zero);
    assert(times(x, one) == x);
    lemma_exact(one, x, zero);
    lemma_exact(q, q, zero);
    assert(times(minus(one, w), x) == plus(x, plus(nq, nq)));
    // The square.
    let d = minus(x, s);
    lemma_exact(x, s, d);
    lemma_exact(x, negative(s), d);
    lemma_exact(x, negative(s), x);
    lemma_exact(x, negative(s), s);
    lemma_exact(d, x, zero);
    lemma_exact(d, negative(s), zero);
    lemma_products(s, x, zero);
    lemma_products(s, d, zero);
    lemma_exact(s, x, zero);
    lemma_exact(s, d, zero);
    lemma_exact(x, x, zero);
    let xx = times(x, x);
    let sx = times(s, x);
    let ss = times(s, s);
    lemma_exact(x, negative(s), x);
    lemma_products(negative(s), s, zero);
    lemma_products(s, s, zero);
    assert(times(x, d) == plus(xx, negative(sx)));
    assert(times(s, d) == plus(sx, negative(ss))) by {
        lemma_exact(x, negative(s), s);
        lemma_exact(s, d, zero);
    }
    lemma_exact(sx, negative(ss), zero);
    lemma_exact(ss, zero, zero);
    assert(times(negative(s), d) == plus(negative(sx), ss));
    assert(times(d, d) == plus(plus(xx, negative(sx)), plus(negative(sx), ss)));
    // Its weight.
    lemma_exact(plus(xx, negative(sx)), plus(negative(sx), ss), a);
    lemma_exact(xx, negative(sx), a);
    lemma_exact(negative(sx), ss, a);
    lemma_exact(a, x, x);
    lemma_exact(a, s, x);
    lemma_exact(a, s, s);
    lemma_exact(sx, a, zero);
    lemma_products(sx, a, zero);
    lemma_exact(negative(sx), a, zero);
    lemma_exact(xx, a, zero);
    lemma_exact(ss, a, zero);
    assert(times(a, xx) == p);
    assert(times(a, ss) == r);
    assert(times(a, sx) == q);
    let square = times(a, times(d, d));
    lemma_exact(a, times(d, d), zero);
    assert(square == plus(plus(p, nq), plus(nq, r)));
    // The same summands in another order.
    lemma_exact(p, nq, plus(nq, r));
    let m = plus(nq, nq);
    lemma_exact(nq, nq, r);
    lemma_exact(p, x, m);
    lemma_exact(x, p, m);
    lemma_exact(x, plus(p, m), r);
    lemma_exact(p, m, r);
}

/// Below the start of the knee the gain is one; beyond it the gain takes the level to the
/// output level of the curve.
pub proof fn law_gain<T: Real>(
    p: LimiterCurveParameters<T>,
    power: spec_fn((T, T)) -> T,
    log10: spec_fn(T) -> T,
    input_level_linear: T,
)
    requires
        is_ordered::<T>(),
        is_exact::<T>(),
        less(zero_of(), input_level_linear),
    ensures
        less(input_level_linear, linear_of(p, power, knee_start(p))) ==> gain_of(
            p,
            power,
            log10,
            input_level_linear,
        ) == p.one,
        at_most(linear_of(p, power, knee_start(p)), input_level_linear) ==> times(
            gain_of(p, power, log10, input_level_linear),
            input_level_linear,
        ) == linear_of(p, power, output_level(p, dbfs_of(p, log10, input_level_linear))),
{
    let knee = linear_of(p, power, knee_start(p));
    assert(is_number(knee) && is_number(input_level_linear));
    lemma_order(input_level_linear, knee, input_level_linear);
    lemma_exact(
        linear_of(p, power, output_level(p, dbfs_of(p, log10, input_level_linear))),
        input_level_linear,
        zero_of(),
    );
}

/// The gain beyond the knee goes with the level to the power of what the inverse of the
/// ratio is above one. The integral has an exponent of one more, and its factor takes
/// that exponent out; the derivative one of one less, and its factor brings it in.
pub proof fn law_derivative_and_integral<T: Real>(
    p: LimiterCurveParameters<T>,
    power: spec_fn((T, T)) -> T,
)
    requires
        is_ordered::<T>(),
        is_exact::<T>(),
        is_one(p.one),
        p.two == plus(p.one, p.one),
        less(zero_of(), p.compression_ratio),
        less(zero_of(), p.max_abs_sample),
        less(zero_of(), integral_exponent(p)),
        less(zero_of(), power((p.max_abs_sample, minus(integral_exponent(p), p.one)))),
        less(zero_of(), times(p.twenty, p.compression_ratio)),
    ensures
        times(integral_exponent(p), p.compression_ratio) == p.one,
        times(derivative_exponent(p), p.compression_ratio) == minus(
            p.one,
            times(p.two, p.compression_ratio),
        ),
        times(
            times(derivative_factor(p, power), p.max_abs_sample),
            p.compression_ratio,
        ) == times(compressed_scale(p, power), minus(p.one, p.compression_ratio)),
        times(
            times(
                integral_factor(p, power),
                power((p.max_abs_sample, minus(integral_exponent(p), p.one))),
            ),
            integral_exponent(p),
        ) == compressed_scale(p, power),
        exists|exponent: T|
            compressed_scale(p, power) == power((p.ten, exponent)) && #[trigger] times(
                exponent,
                times(p.twenty, p.compression_ratio),
            ) == negative(p.max_input_level_db),
{
    let zero = zero_of::<T>();
    let r = p.compression_ratio;
    let scale = compressed_scale(p, power);
    lemma_exact(p.one, r, zero);
    lemma_exact(minus(p.one, times(p.two, r)), r, zero);
    lemma_exact(times(scale, minus(p.one, r)), r, zero);
    lemma_exact(over(times(scale, minus(p.one, r)), r), p.max_abs_sample, zero);
    lemma_exact(scale, integral_exponent(p), zero);
    lemma_exact(
        over(scale, integral_exponent(p)),
        power((p.max_abs_sample, minus(integral_exponent(p), p.one))),
        zero,
    );
    let exponent = over(negative(p.max_input_level_db), times(p.twenty, r));
    lemma_exact(negative(p.max_input_level_db), times(p.twenty, r), zero);
    assert(times(exponent, times(p.twenty, r)) == negative(p.max_input_level_db));
}

/// The integral rises with the level.
pub proof fn law_integral_rises<T: Real>(
    p: LimiterCurveParameters<T>,
    power: spec_fn((T, T)) -> T,
    x0: T,
    x1: T,
)
    requires
        is_ordered::<T>(),
        products_keep_order::<T>(),
        is_exact::<T>(),
        at_most(zero_of(), integral_factor(p, power)),
        at_most(x0, x1),
        forall|a: T, b: T|
            at_most(a, b) ==> #[trigger] at_most(
                power((a, over(p.one, p.compression_ratio))),
                power((b, over(p.one, p.compression_ratio))),
            ),
    ensures
        at_most(integral_to(p, power, x0), integral_to(p, power, x1)),
{
    let exponent = over(p.one, p.compression_ratio);
    assert(at_most(power((x0, exponent)), power((x1, exponent))));
    lemma_products(power((x0, exponent)), power((x1, exponent)), integral_factor(p, power));
}

#[derive(Debug, Clone, Copy)]
pub struct LimiterDbGainCurve<T: Real> {
    parameters: LimiterCurveParameters<T>,
    max_input_level_linear: T,
    knee_start_dbfs: T,
    knee_start_linear: T,
    limiter_start_dbfs: T,
    limiter_start_linear: T,
    knee_region_polynomial: [T; 3],
    gain_curve_limiter_d1: T,
    gain_curve_limiter_d2: T,
    gain_curve_limiter_i1: T,
    gain_curve_limiter_i2: T,
}

impl<T: Real> LimiterDbGainCurve<T> {
    pub closed spec fn settings(&self) -> LimiterCurveParameters<T> {
        self.parameters
    }

    /// The linear level at which the limiter starts.
    pub closed spec fn limiter_start_level(&self) -> T {
        self.limiter_start_linear
    }

    /// Whether the curve was made with the given power function.
    pub closed spec fn is_made_with(&self, power: spec_fn((T, T)) -> T) -> bool {
        let p = self.parameters;
        &&& self.max_input_level_linear == linear_of(p, power, p.max_input_level_db)
        &&& self.knee_start_dbfs == knee_start(p)
        &&& self.knee_start_linear == linear_of(p, power, knee_start(p))
        &&& self.limiter_start_dbfs == limiter_start(p)
        &&& self.limiter_start_linear == linear_of(p, power, limiter_start(p))
        &&& self.knee_region_polynomial@[0] == knee_a(p)
        &&& self.knee_region_polynomial@[1] == knee_b(p)
        &&& self.knee_region_polynomial@[2] == knee_c(p)
        &&& self.gain_curve_limiter_d1 == derivative_factor(p, power)
        &&& self.gain_curve_limiter_d2 == derivative_exponent(p)
        &&& self.gain_curve_limiter_i1 == integral_exponent(p)
        &&& self.gain_curve_limiter_i2 == integral_factor(p, power)
    }

    pub fn new<P: Fn((T, T)) -> T, L: Fn(T) -> T>(
        p: LimiterCurveParameters<T>,
        f: &LimiterCurveFunctions<P, L>,
    ) -> (curve: Self)
        requires
            is_total::<T>(),
            is_functional::<T>() ==> is_valid(p),
            forall|a: (T, T)| call_requires(f.power, (a,)),
        ensures
            curve.settings() == p,
            is_functional::<T>() && is_mapping(f.power) ==> curve.is_made_with(
                |a: (T, T)| image(f.power, a),
            ),
    {
        let knee_start_dbfs = difference(
            quotient(opposite(p.knee_smoothness_db), p.two),
            quotient(p.max_input_level_db, difference(p.compression_ratio, p.one)),
        );
        let limiter_start_dbfs = sum(knee_start_dbfs, p.knee_smoothness_db);
        let a = quotient(
            difference(p.one, p.compression_ratio),
            product(product(p.two, p.knee_smoothness_db), p.compression_ratio),
        );
        let b = difference(p.one, product(product(p.two, a), knee_start_dbfs));
        let c = product(product(a, knee_start_dbfs), knee_start_dbfs);
        let scale = apply(
            &f.power,
            (
                p.ten,
                quotient(opposite(p.max_input_level_db), product(p.twenty, p.compression_ratio)),
            ),
        );
        let i1 = quotient(p.one, p.compression_ratio);
        LimiterDbGainCurve {
            parameters: p,
            max_input_level_linear: dbfs_to_float_s16(&p, f, p.max_input_level_db),
            knee_start_dbfs,
            knee_start_linear: dbfs_to_float_s16(&p, f, knee_start_dbfs),
            limiter_start_dbfs,
            limiter_start_linear: dbfs_to_float_s16(&p, f, limiter_start_dbfs),
            knee_region_polynomial: [a, b, c],
            gain_curve_limiter_d1: quotient(
                quotient(
                    product(scale, difference(p.one, p.compression_ratio)),
                    p.compression_ratio,
                ),
                p.max_abs_sample,
            ),
            gain_curve_limiter_d2: quotient(
                difference(p.one, product(p.two, p.compression_ratio)),
                p.compression_ratio,
            ),
            gain_curve_limiter_i1: i1,
            gain_curve_limiter_i2: quotient(
                quotient(scale, i1),
                apply(&f.power, (p.max_abs_sample, difference(i1, p.one))),
            ),
        }
    }

    pub fn max_input_level_db(&self) -> (level: T)
        ensures
            level == self.settings().max_input_level_db,
    {
        self.parameters.max_input_level_db
    }

    pub fn max_input_level_linear(&self) -> (level: T)
        ensures
            forall|power: spec_fn((T, T)) -> T| #[trigger]
                self.is_made_with(power) ==> level == linear_of(
                    self.settings(),
                    power,
                    self.settings().max_input_level_db,
                ),
    {
        self.max_input_level_linear
    }

    pub fn knee_start_linear(&self) -> (level: T)
        ensures
            forall|power: spec_fn((T, T)) -> T| #[trigger]
                self.is_made_with(power) ==> level == linear_of(
                    self.settings(),
                    power,
                    knee_start(self.settings()),
                ),
    {
        self.knee_start_linear
    }

    pub fn limiter_start_linear(&self) -> (level: T)
        ensures
            level == self.limiter_start_level(),
            forall|power: spec_fn((T, T)) -> T| #[trigger]
                self.is_made_with(power) ==> level == linear_of(
                    self.settings(),
                    power,
                    limiter_start(self.settings()),
                ),
    {
        self.limiter_start_linear
    }

    pub fn get_output_level_dbfs(&self, input_level_dbfs: T) -> (level: T)
        requires
            is_total::<T>(),
        ensures
            is_functional::<T>() ==> forall|power: spec_fn((T, T)) -> T| #[trigger]
                self.is_made_with(power) ==> level == output_level(
                    self.settings(),
                    input_level_dbfs,
                ),
    {
        if is_less(input_level_dbfs, self.knee_start_dbfs) {
            input_level_dbfs
        } else if is_less(input_level_dbfs, self.limiter_start_dbfs) {
            sum(
                sum(
                    product(
                        product(self.knee_region_polynomial[0], input_level_dbfs),
                        input_level_dbfs,
                    ),
                    product(self.knee_region_polynomial[1], input_level_dbfs),
                ),
                self.knee_region_polynomial[2],
            )
        } else {
            quotient(
                difference(input_level_dbfs, self.parameters.max_input_level_db),
                self.parameters.compression_ratio,
            )
        }
    }

    pub fn get_gain_linear<P: Fn((T, T)) -> T, L: Fn(T) -> T>(
        &self,
        f: &LimiterCurveFunctions<P, L>,
        input_level_linear: T,
    ) -> (gain: T)
        requires
            is_total::<T>(),
            forall|a: (T, T)| call_requires(f.power, (a,)),
            forall|a: T| call_requires(f.log10, (a,)),
        ensures
            is_functional::<T>() && is_mapping(f.power) && is_mapping(f.log10)
                && self.is_made_with(|a: (T, T)| image(f.power, a)) ==> gain == gain_of(
                self.settings(),
                |a: (T, T)| image(f.power, a),
                |a: T| image(f.log10, a),
                input_level_linear,
            ),
    {
        if is_less(input_level_linear, self.knee_start_linear) {
            return self.parameters.one;
        }
        let input_level_dbfs = float_s16_to_dbfs(&self.parameters, f, input_level_linear);
        let output_level_dbfs = self.get_output_level_dbfs(input_level_dbfs);
        quotient(dbfs_to_float_s16(&self.parameters, f, output_level_dbfs), input_level_linear)
    }

    /// The derivative of the gain at a level beyond the knee.
    pub fn get_gain_first_derivative_linear<P: Fn((T, T)) -> T, L: Fn(T) -> T>(
        &self,
        f: &LimiterCurveFunctions<P, L>,
        x: T,
    ) -> (derivative: T)
        requires
            is_total::<T>(),
            is_functional::<T>() ==> at_most(
                minus(
                    self.limiter_start_level(),
                    times(self.settings().derivative_tolerance, self.settings().max_abs_sample),
                ),
                x,
            ),
            forall|a: (T, T)| call_requires(f.power, (a,)),
        ensures
            is_functional::<T>() && is_mapping(f.power) && self.is_made_with(
                |a: (T, T)| image(f.power, a),
            ) ==> derivative == times(
                derivative_factor(self.settings(), |a: (T, T)| image(f.power, a)),
                image(
                    f.power,
                    (
                        over(x, self.settings().max_abs_sample),
                        derivative_exponent(self.settings()),
                    ),
                ),
            ),
    {
        product(
            self.gain_curve_limiter_d1,
            apply(
                &f.power,
                (quotient(x, self.parameters.max_abs_sample), self.gain_curve_limiter_d2),
            ),
        )
    }

    /// The integral of the gain between two levels beyond the knee.
    pub fn get_gain_integral_linear<P: Fn((T, T)) -> T, L: Fn(T) -> T>(
        &self,
        f: &LimiterCurveFunctions<P, L>,
        x0: T,
        x1: T,
    ) -> (integral: T)
        requires
            is_total::<T>(),
            is_functional::<T>() ==> at_most(x0, x1) && at_most(self.limiter_start_level(), x0),
            forall|a: (T, T)| call_requires(f.power, (a,)),
        ensures
            is_functional::<T>() && is_mapping(f.power) && self.is_made_with(
                |a: (T, T)| image(f.power, a),
            ) ==> integral == minus(
                integral_to(self.settings(), |a: (T, T)| image(f.power, a), x1),
                integral_to(self.settings(), |a: (T, T)| image(f.power, a), x0),
            ),
    {
        difference(
            product(self.gain_curve_limiter_i2, apply(&f.power, (x1, self.gain_curve_limiter_i1))),
            product(self.gain_curve_limiter_i2, apply(&f.power, (x0, self.gain_curve_limiter_i1))),
        )
    }
}

fn dbfs_to_float_s16<T: Real, P: Fn((T, T)) -> T, L: Fn(T) -> T>(
    p: &LimiterCurveParameters<T>,
    f: &LimiterCurveFunctions<P, L>,
    dbfs: T,
) -> (linear: T)
    requires
        is_total::<T>(),
        forall|a: (T, T)| call_requires(f.power, (a,)),
    ensures
        is_functional::<T>() && is_mapping(f.power) ==> linear == linear_of(
            *p,
            |a: (T, T)| image(f.power, a),
            dbfs,
        ),
{
    product(apply(&f.power, (p.ten, quotient(dbfs, p.twenty))), p.max_abs_sample)
}

fn float_s16_to_dbfs<T: Real, P: Fn((T, T)) -> T, L: Fn(T) -> T>(
    p: &LimiterCurveParameters<T>,
    f: &LimiterCurveFunctions<P, L>,
    linear: T,
) -> (dbfs: T)
    requires
        is_total::<T>(),
        forall|a: T| call_requires(f.log10, (a,)),
    ensures
        is_functional::<T>() && is_mapping(f.log10) ==> dbfs == dbfs_of(
            *p,
            |a: T| image(f.log10, a),
            linear,
        ),
{
    if is_at_most(linear, zero()) {
        p.silence_dbfs
    } else {
        product(p.twenty, apply(&f.log10, quotient(linear, p.max_abs_sample)))
    }
}

} // verus!
