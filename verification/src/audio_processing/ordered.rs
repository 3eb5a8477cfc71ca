//! What follows for signals where the numbers are in order.
//!
//! The conditions on the order hold of floating-point numbers, whose operations round to
//! the nearest number and so keep the order, as well as of exact ones. Exactness holds of
//! the latter only: what follows from it holds up to rounding otherwise. A value that
//! compares to nothing, not even to itself, is not a number.
use crate::audio_processing::arithmetic::{
    at_most, clamped, dot, energy, larger, largest_magnitude, less, magnitude, minus, negative,
    over, plus, same, smaller, times, zero_of, Real,
};
use vstd::prelude::*;

verus! {

pub open spec fn is_number<T: Real>(a: T) -> bool {
    at_most(a, a)
}

/// Whether the numbers of a type are in order: any two compare, and only numbers do.
#[verifier::opaque]
pub open spec fn is_ordered<T: Real>() -> bool {
    &&& is_number(zero_of::<T>())
    &&& forall|a: T, b: T| #[trigger] less(a, b) ==> at_most(a, b)
    &&& forall|a: T, b: T| #[trigger] at_most(a, b) ==> is_number(a) && is_number(b)
    &&& forall|a: T, b: T|
        is_number(a) && is_number(b) ==> #[trigger] at_most(a, b) == !less(b, a)
    &&& forall|a: T, b: T, c: T|
        #[trigger] at_most(a, b) && #[trigger] at_most(b, c) ==> at_most(a, c)
}

/// Whether sums and differences keep the order of their operands. Operands that are no
/// numbers give none.
#[verifier::opaque]
pub open spec fn sums_keep_order<T: Real>() -> bool {
    &&& forall|a: T| #[trigger] is_number(negative(a)) == is_number(a)
    &&& forall|a: T| is_number(a) ==> #[trigger] negative(negative(a)) == a
    &&& forall|a: T, b: T| at_most(a, b) ==> #[trigger] at_most(negative(b), negative(a))
    &&& same(negative(zero_of::<T>()), zero_of::<T>())
    &&& forall|a: T, b: T|
        #[trigger] is_number(plus(a, b)) ==> {
            &&& is_number(a)
            &&& is_number(b)
            &&& plus(a, b) == plus(b, a)
        }
    &&& forall|a: T, b: T, c: T|
        at_most(a, b) && #[trigger] is_number(plus(a, c)) && #[trigger] is_number(plus(b, c))
            ==> at_most(plus(a, c), plus(b, c))
    &&& forall|a: T| is_number(a) ==> #[trigger] same(plus(a, zero_of()), a)
    &&& forall|a: T, b: T| #[trigger] is_number(minus(a, b)) ==> minus(a, b) == plus(a, negative(b))
    &&& forall|a: T, b: T| is_number(plus(a, negative(b))) ==> #[trigger] is_number(minus(a, b))
    &&& forall|a: T| is_number(a) ==> #[trigger] same(minus(a, zero_of()), a)
    &&& forall|a: T, b: T|
        at_most(b, a) && #[trigger] is_number(minus(a, b)) ==> at_most(zero_of(), minus(a, b))
    &&& forall|a: T, b: T|
        at_most(a, b) && #[trigger] is_number(minus(a, b)) ==> at_most(minus(a, b), zero_of())
}

/// Whether products and quotients by positive numbers keep the order of their operands.
/// Operands that are no numbers give none.
#[verifier::opaque]
pub open spec fn products_keep_order<T: Real>() -> bool {
    &&& forall|a: T, b: T|
        #[trigger] is_number(times(a, b)) ==> {
            &&& is_number(a)
            &&& is_number(b)
            &&& times(a, b) == times(b, a)
            &&& times(negative(a), b) == negative(times(a, b))
        }
    &&& forall|a: T, b: T, c: T|
        at_most(a, b) && at_most(zero_of(), c) && #[trigger] is_number(times(a, c))
            && #[trigger] is_number(times(b, c)) ==> at_most(times(a, c), times(b, c))
    &&& forall|a: T, b: T|
        at_most(zero_of(), a) && at_most(zero_of(), b) && #[trigger] is_number(times(a, b))
            ==> at_most(zero_of(), times(a, b))
    &&& forall|a: T, b: T|
        same(a, zero_of()) && #[trigger] is_number(times(a, b)) ==> same(times(a, b), zero_of())
    &&& forall|a: T, b: T|
        #[trigger] is_number(over(a, b)) ==> is_number(a) && is_number(b)
    &&& forall|a: T, b: T, c: T|
        at_most(a, b) && less(zero_of(), c) && #[trigger] is_number(over(a, c))
            && #[trigger] is_number(over(b, c)) ==> at_most(over(a, c), over(b, c))
    &&& forall|a: T, b: T, c: T|
        at_most(zero_of(), a) && less(zero_of(), b) && at_most(b, c) && #[trigger] is_number(
            over(a, b),
        ) && #[trigger] is_number(over(a, c)) ==> at_most(over(a, c), over(a, b))
    &&& forall|a: T, b: T|
        at_most(zero_of(), a) && less(zero_of(), b) && #[trigger] is_number(over(a, b)) ==> at_most(
            zero_of(),
            over(a, b),
        )
    &&& forall|a: T, b: T|
        same(a, zero_of()) && less(zero_of(), b) && #[trigger] is_number(over(a, b)) ==> same(
            over(a, b),
            zero_of(),
        )
}

/// Whether a number is the one that changes nothing as a factor or divisor.
pub open spec fn is_one<T: Real>(one: T) -> bool {
    &&& less(zero_of(), one)
    &&& forall|a: T| is_number(a) ==> #[trigger] times(a, one) == a
    &&& forall|a: T| is_number(a) ==> #[trigger] over(a, one) == a
    &&& forall|a: T| less(zero_of(), a) && #[trigger] is_number(over(a, a)) ==> over(a, a) == one
}

/// Whether a function gives no smaller a number for a larger one.
pub open spec fn is_rising<T: Real>(f: spec_fn(T) -> T) -> bool {
    forall|a: T, b: T| at_most(a, b) ==> #[trigger] at_most(f(a), f(b))
}

/// Whether the operations on three numbers are exact.
pub open spec fn is_exact_for<T: Real>(a: T, b: T, c: T) -> bool {
    &&& plus(a, b) == plus(b, a)
    &&& plus(plus(a, b), c) == plus(a, plus(b, c))
    &&& plus(a, zero_of()) == a
    &&& minus(a, b) == plus(a, negative(b))
    &&& plus(a, negative(a)) == zero_of::<T>()
    &&& negative(plus(a, b)) == plus(negative(a), negative(b))
    &&& negative(negative(a)) == a
    &&& times(a, b) == times(b, a)
    &&& times(times(a, b), c) == times(a, times(b, c))
    &&& times(plus(a, b), c) == plus(times(a, c), times(b, c))
    &&& times(zero_of(), a) == zero_of::<T>()
    &&& less(zero_of(), b) || less(b, zero_of()) ==> times(over(a, b), b) == a
}

/// Whether the operations are exact and never fail to give a number, as those of
/// rational numbers are and those that round are not.
pub open spec fn is_exact<T: Real>() -> bool {
    &&& forall|a: T| #[trigger] is_number(a)
    &&& forall|a: T, b: T, c: T| #[trigger] is_exact_for(a, b, c)
}

pub proof fn lemma_exact<T: Real>(a: T, b: T, c: T)
    requires
        is_exact::<T>(),
    ensures
        is_exact_for(a, b, c),
        minus(a, plus(b, c)) == minus(minus(a, b), c),
        minus(a, minus(a, b)) == b,
        plus(minus(a, b), b) == a,
        plus(a, minus(b, a)) == b,
        times(c, plus(a, b)) == plus(times(c, a), times(c, b)),
        times(a, zero_of()) == zero_of::<T>(),
        minus(a, zero_of()) == a,
        negative(zero_of::<T>()) == zero_of::<T>(),
{
    let zero = zero_of::<T>();
    assert(is_exact_for(negative(zero), zero, zero));
    assert(is_exact_for(zero, negative(zero), zero));
    assert(is_exact_for(a, b, c));
    assert(is_exact_for(b, c, a));
    assert(is_exact_for(a, plus(b, c), zero));
    assert(is_exact_for(minus(a, b), c, zero));
    assert(is_exact_for(a, negative(b), negative(c)));
    assert(is_exact_for(a, negative(b), b));
    assert(is_exact_for(negative(b), b, a));
    assert(is_exact_for(b, negative(a), a));
    assert(is_exact_for(negative(a), a, b));
    assert(is_exact_for(b, a, c));
    assert(is_exact_for(a, minus(b, a), zero));
    assert(is_exact_for(a, minus(a, b), zero));
    assert(is_exact_for(a, negative(a), b));
    assert(is_exact_for(zero, b, a));
    assert(is_exact_for(c, plus(a, b), zero));
    assert(is_exact_for(c, a, b));
    assert(is_exact_for(c, b, a));
    assert(is_exact_for(a, zero, b));
}

/// A straight line from one number to another starts at the one, ends at the other and
/// stays between them.
pub proof fn lemma_ramp<T: Real>(start: T, end: T, j: T, n: T)
    requires
        is_ordered::<T>(),
        sums_keep_order::<T>(),
        products_keep_order::<T>(),
        is_exact::<T>(),
        less(zero_of(), n),
        at_most(zero_of(), j),
        at_most(j, n),
    ensures
        ({
            let value = plus(start, times(over(minus(end, start), n), j));
            &&& at_most(start, end) ==> at_most(start, value) && at_most(value, end)
            &&& at_most(end, start) ==> at_most(end, value) && at_most(value, start)
            &&& j == zero_of::<T>() ==> value == start
            &&& j == n ==> value == end
            &&& start == end ==> value == start
        }),
{
    let zero = zero_of::<T>();
    let d = minus(end, start);
    let slope = over(d, n);
    let value = plus(start, times(slope, j));
    lemma_order(zero, n, zero);
    lemma_exact(d, n, zero);
    lemma_exact(start, end, zero);
    lemma_exact(start, zero, zero);
    lemma_exact(slope, j, zero);
    lemma_exact(slope, zero, zero);
    lemma_exact(end, start, zero);
    lemma_sums(start, end, zero, zero);
    lemma_sums(end, start, zero, zero);
    if at_most(start, end) {
        lemma_products(d, n, zero);
        lemma_products(zero, j, slope);
        lemma_products(j, n, slope);
        lemma_sums(zero, times(slope, j), start, start);
        lemma_sums(times(slope, j), times(slope, n), start, start);
    }
    if at_most(end, start) {
        let steep = negative(slope);
        lemma_products(d, zero, n);
        lemma_products(zero, n, zero);
        lemma_order(slope, over(zero, n), zero);
        lemma_sums(slope, zero, zero, zero);
        lemma_order(zero, negative(zero), steep);
        lemma_products(zero, j, steep);
        lemma_products(j, n, steep);
        lemma_products(slope, j, zero);
        lemma_products(slope, n, zero);
        lemma_products(slope, zero, zero);
        lemma_exact(steep, zero, zero);
        lemma_sums(zero, negative(times(slope, j)), zero, zero);
        lemma_sums(negative(times(slope, j)), negative(times(slope, n)), zero, zero);
        lemma_sums(times(slope, j), zero, zero, zero);
        lemma_sums(times(slope, n), zero, zero, zero);
        lemma_order(times(slope, j), negative(zero), zero);
        lemma_sums(times(slope, j), zero, start, start);
        lemma_sums(times(slope, n), times(slope, j), start, start);
    }
    if start == end {
        lemma_order(start, end, zero);
        assert(at_most(start, end));
        lemma_exact(start, start, zero);
        assert(d == zero);
        lemma_products(zero, n, zero);
        // A zero over anything is zero again: it is its own multiple.
        lemma_ramp_of_nothing(n, j);
    }
}

proof fn lemma_ramp_of_nothing<T: Real>(n: T, j: T)
    requires
        is_ordered::<T>(),
        products_keep_order::<T>(),
        is_exact::<T>(),
        less(zero_of(), n),
    ensures
        times(over(zero_of(), n), j) == zero_of::<T>(),
{
    let zero = zero_of::<T>();
    let q = over(zero, n);
    // q == (q / n) * n and q * n == 0, so n * q == 0.
    lemma_exact(zero, n, zero);
    lemma_exact(q, n, zero);
    lemma_exact(j, n, q);
    lemma_exact(over(j, n), n, q);
    lemma_exact(n, q, zero);
    lemma_exact(over(j, n), zero, zero);
    lemma_exact(q, j, zero);
}

/// A mixture of two numbers lies between them.
pub proof fn lemma_mix<T: Real>(one: T, c: T, level: T, value: T)
    requires
        is_ordered::<T>(),
        sums_keep_order::<T>(),
        products_keep_order::<T>(),
        is_exact::<T>(),
        is_one(one),
        at_most(zero_of(), c),
        at_most(c, one),
    ensures
        ({
            let mixed = plus(times(value, minus(one, c)), times(level, c));
            &&& mixed == plus(value, times(minus(level, value), c))
            &&& at_most(level, value) ==> at_most(level, mixed) && at_most(mixed, value)
            &&& at_most(value, level) ==> at_most(value, mixed) && at_most(mixed, level)
            &&& level == value ==> mixed == value
        }),
{
    let zero = zero_of::<T>();
    let d = minus(level, value);
    let mixed = plus(times(value, minus(one, c)), times(level, c));
    // value * (1 - c) == value - value * c
    assert(is_number(value));
    assert(is_number(d));
    assert(times(value, one) == value);
    assert(times(d, one) == d);
    lemma_exact(one, c, value);
    lemma_exact(one, negative(c), value);
    lemma_exact(value, negative(c), zero);
    lemma_exact(negative(c), c, value);
    lemma_exact(c, negative(c), value);
    lemma_products(c, value, zero);
    lemma_exact(value, c, zero);
    lemma_exact(value, one, zero);
    let vc = times(value, c);
    lemma_exact(value, negative(vc), times(level, c));
    lemma_exact(negative(vc), times(level, c), zero);
    // (level - value) * c == level * c - value * c
    lemma_exact(level, value, c);
    lemma_exact(level, negative(value), c);
    lemma_products(value, c, zero);
    lemma_exact(times(level, c), negative(vc), zero);
    lemma_exact(value, minus(one, c), zero);
    assert(times(value, minus(one, c)) == plus(value, negative(vc)));
    assert(times(d, c) == plus(times(level, c), negative(vc)));
    assert(mixed == plus(value, times(d, c)));
    lemma_sums(level, value, zero, zero);
    lemma_sums(value, level, zero, zero);
    lemma_exact(value, level, zero);
    lemma_exact(value, zero, zero);
    lemma_exact(d, zero, zero);
    if at_most(value, level) {
        lemma_products(zero, c, d);
        lemma_products(c, one, d);
        lemma_sums(zero, times(d, c), value, value);
        lemma_sums(times(d, c), d, value, value);
    }
    if at_most(level, value) {
        lemma_products(d, zero, c);
        lemma_exact(zero, c, zero);
        lemma_exact(c, zero, zero);
        lemma_sums(times(d, c), zero, value, value);
        let up = negative(d);
        lemma_sums(d, zero, zero, zero);
        lemma_order(zero, negative(zero), up);
        lemma_products(c, one, up);
        lemma_products(d, c, zero);
        lemma_products(d, one, zero);
        lemma_sums(negative(times(d, c)), negative(d), zero, zero);
        lemma_sums(times(d, c), d, zero, zero);
        lemma_sums(d, times(d, c), value, value);
    }
    if level == value {
        lemma_order(value, level, zero);
        lemma_exact(value, value, zero);
        lemma_exact(zero, c, zero);
        assert(d == zero);
    }
}

/// Only one factor gives a product with a positive number.
pub proof fn lemma_same_factor<T: Real>(one: T, a: T, b: T, x: T)
    requires
        is_ordered::<T>(),
        is_exact::<T>(),
        is_one(one),
        less(zero_of(), x),
        times(a, x) == times(b, x),
    ensures
        a == b,
{
    let inverse = over(one, x);
    lemma_exact(one, x, inverse);
    lemma_exact(inverse, x, one);
    lemma_exact(a, x, inverse);
    lemma_exact(b, x, inverse);
    lemma_exact(x, inverse, one);
    assert(is_number(a) && is_number(b));
    assert(times(a, one) == a);
    assert(times(b, one) == b);
}

/// What is multiplied by a positive number and divided by it again is what it was.
pub proof fn lemma_divides_out<T: Real>(one: T, a: T, x: T)
    requires
        is_ordered::<T>(),
        is_exact::<T>(),
        is_one(one),
        less(zero_of(), x),
    ensures
        over(times(a, x), x) == a,
        over(times(x, a), x) == a,
        over(zero_of(), x) == zero_of::<T>(),
{
    lemma_exact(times(a, x), x, zero_of());
    lemma_exact(a, x, zero_of());
    lemma_same_factor(one, over(times(a, x), x), a, x);
    lemma_exact(zero_of(), x, zero_of());
    lemma_exact(x, zero_of(), zero_of());
    lemma_same_factor(one, over(zero_of(), x), zero_of(), x);
}

/// A positive factor changes no comparison, and positive numbers have a positive product.
pub proof fn lemma_scaled_order<T: Real>(one: T, a: T, b: T, m: T)
    requires
        is_ordered::<T>(),
        products_keep_order::<T>(),
        is_exact::<T>(),
        is_one(one),
        less(zero_of(), m),
    ensures
        less(a, b) == less(times(a, m), times(b, m)),
        at_most(a, b) == at_most(times(a, m), times(b, m)),
        less(zero_of(), a) ==> less(zero_of(), times(a, m)),
{
    let zero = zero_of::<T>();
    lemma_order(zero, m, zero);
    lemma_scaled_at_most(one, a, b, m);
    lemma_scaled_at_most(one, b, a, m);
    lemma_scaled_at_most(one, a, zero, m);
    lemma_exact(m, zero, zero);
    assert(is_number(a) && is_number(b));
    assert(is_number(times(a, m)) && is_number(times(b, m)));
    lemma_order(a, b, zero);
    lemma_order(times(a, m), times(b, m), zero);
    lemma_order(zero, a, zero);
    lemma_order(zero, times(a, m), zero);
}

proof fn lemma_scaled_at_most<T: Real>(one: T, a: T, b: T, m: T)
    requires
        is_ordered::<T>(),
        products_keep_order::<T>(),
        is_exact::<T>(),
        is_one(one),
        less(zero_of(), m),
    ensures
        at_most(a, b) == at_most(times(a, m), times(b, m)),
{
    let zero = zero_of::<T>();
    lemma_order(zero, m, zero);
    lemma_products(a, b, m);
    lemma_divides_out(one, a, m);
    lemma_divides_out(one, b, m);
    lemma_products(times(a, m), times(b, m), m);
    assert(is_number(times(a, m)) && is_number(times(b, m)));
    assert(is_number(over(times(a, m), m)) && is_number(over(times(b, m), m)));
}

/// No square is negative.
pub proof fn lemma_square<T: Real>(a: T)
    requires
        is_ordered::<T>(),
        sums_keep_order::<T>(),
        products_keep_order::<T>(),
        is_exact::<T>(),
    ensures
        at_most(zero_of(), times(a, a)),
{
    let zero = zero_of::<T>();
    let b = negative(a);
    assert(is_number(a) && is_number(zero));
    lemma_order(a, zero, a);
    lemma_products(a, a, zero);
    if less(a, zero) {
        lemma_sums(a, zero, zero, zero);
        lemma_exact(a, b, zero);
        lemma_products(b, b, zero);
        lemma_products(a, b, zero);
        lemma_exact(times(a, a), zero, zero);
        assert(times(b, b) == times(a, a));
    }
}

/// The energy of a signal grows by the square of a sample that is put at its end or at
/// its start.
pub proof fn lemma_energy_of_more<T: Real>(a: Seq<T>, sample: T)
    requires
        is_exact::<T>(),
    ensures
        energy(a.push(sample)) == plus(energy(a), times(sample, sample)),
        energy(seq![sample] + a) == plus(times(sample, sample), energy(a)),
    decreases a.len(),
{
    let n = a.len() as int;
    lemma_same_dot(a.push(sample), a.push(sample), a, a, n);
    let front = seq![sample] + a;
    if n == 0 {
        assert(front[0] == sample);
        assert(dot(front, front, 0) == zero_of::<T>());
        assert(energy(front) == plus(dot(front, front, 0), times(front[0], front[0])));
        lemma_exact(times(sample, sample), zero_of(), zero_of());
    } else {
        let b = a.drop_last();
        let last = a.last();
        lemma_energy_of_more(b, sample);
        lemma_same_dot(a, a, b, b, n - 1);
        lemma_same_dot(front, front, seq![sample] + b, seq![sample] + b, n);
        lemma_exact(times(sample, sample), energy(b), times(last, last));
        assert(front[n] == last);
        assert(dot(front, front, n) == energy(seq![sample] + b));
    }
}

/// A sum of products depends on its pairs only.
pub proof fn lemma_same_dot<T: Real>(a: Seq<T>, b: Seq<T>, c: Seq<T>, d: Seq<T>, n: int)
    requires
        forall|i: int| 0 <= i < n ==> #[trigger] a[i] == c[i],
        forall|i: int| 0 <= i < n ==> #[trigger] b[i] == d[i],
    ensures
        dot(a, b, n) == dot(c, d, n),
    decreases n,
{
    if n > 0 {
        lemma_same_dot(a, b, c, d, n - 1);
        assert(a[n - 1] == c[n - 1]);
        assert(b[n - 1] == d[n - 1]);
    }
}

/// The order of the middle summands of two sums does not matter.
pub proof fn lemma_four_summands<T: Real>(a: T, b: T, c: T, d: T)
    requires
        is_exact::<T>(),
    ensures
        plus(plus(a, b), plus(c, d)) == plus(plus(a, c), plus(b, d)),
{
    lemma_exact(a, b, plus(c, d));
    lemma_exact(b, c, d);
    lemma_exact(c, b, d);
    lemma_exact(a, c, plus(b, d));
}

/// A sum of products is linear in its first factors.
pub proof fn lemma_dot_is_linear<T: Real>(
    mixed: Seq<T>,
    a: Seq<T>,
    b: Seq<T>,
    factor: T,
    d: Seq<T>,
    n: int,
)
    requires
        is_exact::<T>(),
        forall|j: int| 0 <= j < n ==> #[trigger] mixed[j] == plus(a[j], times(factor, b[j])),
    ensures
        dot(mixed, d, n) == plus(dot(a, d, n), times(factor, dot(b, d, n))),
    decreases n,
{
    let zero = zero_of::<T>();
    if n <= 0 {
        lemma_exact(factor, zero, zero);
        lemma_exact(zero, zero, zero);
    } else {
        let j = n - 1;
        lemma_dot_is_linear(mixed, a, b, factor, d, j);
        assert(mixed[j] == plus(a[j], times(factor, b[j])));
        lemma_exact(a[j], times(factor, b[j]), d[j]);
        lemma_exact(factor, b[j], d[j]);
        let (x, y) = (dot(a, d, j), dot(b, d, j));
        lemma_four_summands(x, times(factor, y), times(a[j], d[j]), times(factor, times(b[j], d[j])));
        lemma_exact(y, times(b[j], d[j]), factor);
    }
}

/// A sum of products is the first product and the sum of the others.
pub proof fn lemma_dot_from_first<T: Real>(a: Seq<T>, b: Seq<T>, n: int)
    requires
        is_exact::<T>(),
        0 < n,
    ensures
        dot(a, b, n) == plus(
            times(a[0], b[0]),
            dot(Seq::new(n as nat, |i: int| a[i + 1]), Seq::new(n as nat, |i: int| b[i + 1]), n - 1),
        ),
    decreases n,
{
    let zero = zero_of::<T>();
    let rest_a = Seq::new(n as nat, |i: int| a[i + 1]);
    let rest_b = Seq::new(n as nat, |i: int| b[i + 1]);
    let first = times(a[0], b[0]);
    if n == 1 {
        assert(dot(a, b, 0) == zero);
        assert(dot(rest_a, rest_b, 0) == zero);
        assert(dot(a, b, 1) == plus(dot(a, b, 0), first));
        lemma_exact(first, zero, zero);
    } else {
        lemma_dot_from_first(a, b, n - 1);
        lemma_same_dot(
            Seq::new((n - 1) as nat, |i: int| a[i + 1]),
            Seq::new((n - 1) as nat, |i: int| b[i + 1]),
            rest_a,
            rest_b,
            n - 2,
        );
        lemma_exact(first, dot(rest_a, rest_b, n - 2), times(a[n - 1], b[n - 1]));
        assert(rest_a[n - 2] == a[n - 1] && rest_b[n - 2] == b[n - 1]);
    }
}

/// A sum of products is the same from the last pair to the first.
pub proof fn lemma_dot_reversed<T: Real>(a: Seq<T>, b: Seq<T>, c: Seq<T>, d: Seq<T>, n: int)
    requires
        is_exact::<T>(),
        forall|i: int| 0 <= i < n ==> #[trigger] c[i] == a[n - 1 - i],
        forall|i: int| 0 <= i < n ==> #[trigger] d[i] == b[n - 1 - i],
    ensures
        dot(c, d, n) == dot(a, b, n),
    decreases n,
{
    if n > 0 {
        let rest_a = Seq::new(n as nat, |i: int| a[i + 1]);
        let rest_b = Seq::new(n as nat, |i: int| b[i + 1]);
        assert forall|i: int| 0 <= i < n - 1 implies #[trigger] c[i] == rest_a[n - 2 - i] by {}
        assert forall|i: int| 0 <= i < n - 1 implies #[trigger] d[i] == rest_b[n - 2 - i] by {}
        lemma_dot_reversed(rest_a, rest_b, c, d, n - 1);
        lemma_dot_from_first(a, b, n);
        assert(c[n - 1] == a[0] && d[n - 1] == b[0]);
        lemma_exact(times(a[0], b[0]), dot(rest_a, rest_b, n - 1), zero_of());
    }
}

/// Whether a function gives the number for each integer up to a largest one.
pub open spec fn is_counting<T: Real>(one: T, number: spec_fn(int) -> T, max: int) -> bool {
    &&& number(0) == zero_of::<T>()
    &&& forall|n: int| 0 < n <= max ==> #[trigger] number(n) == plus(number(n - 1), one)
}

/// The numbers of integers are in their order.
pub proof fn lemma_counting<T: Real>(one: T, number: spec_fn(int) -> T, max: int, m: int, n: int)
    requires
        is_ordered::<T>(),
        sums_keep_order::<T>(),
        is_exact::<T>(),
        is_one(one),
        is_counting(one, number, max),
        0 <= m <= n <= max,
    ensures
        at_most(number(m), number(n)),
        m < n ==> less(number(m), number(n)),
        0 < n ==> less(zero_of(), number(n)),
    decreases n,
{
    let zero = zero_of::<T>();
    assert(is_number(number(m)));
    lemma_order(number(m), number(m), zero);
    if 0 < n {
        let before = number(n - 1);
        assert(number(n) == plus(before, one));
        lemma_order(zero, one, zero);
        lemma_sums(zero, one, before, before);
        lemma_exact(before, zero, zero);
        lemma_exact(before, one, zero);
        assert(is_number(before) && is_number(number(n)));
        assert(less(before, number(n))) by {
            lemma_order(before, number(n), zero);
            lemma_order(number(n), before, zero);
            if at_most(number(n), before) {
                // One would not be positive.
                lemma_sums(number(n), before, before, before);
                lemma_exact(one, before, zero);
                lemma_exact(number(n), before, zero);
                lemma_exact(before, before, zero);
                lemma_exact(one, before, negative(before));
                lemma_exact(one, zero, zero);
                lemma_order(one, zero, one);
                assert(minus(number(n), before) == one);
                assert(minus(before, before) == zero);
            }
        }
        lemma_counting(one, number, max, 0, n - 1);
        lemma_order(zero, before, number(n));
        if m < n {
            lemma_counting(one, number, max, m, n - 1);
            lemma_order(number(m), before, number(n));
            lemma_order(number(m), number(n), zero);
        }
    }
}

pub proof fn lemma_order<T: Real>(a: T, b: T, c: T)
    requires
        is_ordered::<T>(),
    ensures
        is_number(zero_of::<T>()),
        at_most(a, b) ==> is_number(a) && is_number(b),
        less(a, b) ==> at_most(a, b) && is_number(a) && is_number(b) && !less(b, a),
        is_number(a) && is_number(b) ==> at_most(a, b) == !less(b, a) && at_most(b, a) == !less(
            a,
            b,
        ),
        at_most(a, b) && at_most(b, c) ==> at_most(a, c),
        less(a, b) && at_most(b, c) ==> less(a, c),
        at_most(a, b) && less(b, c) ==> less(a, c),
        same(a, b) && same(b, c) ==> same(a, c),
        same(a, b) ==> same(b, a),
{
    reveal(is_ordered);
    if less(a, b) && at_most(b, c) {
        assert(at_most(a, c));
        if !less(a, c) {
            assert(at_most(c, a));
            assert(at_most(b, a));
        }
    }
    if at_most(a, b) && less(b, c) {
        assert(at_most(b, c));
        assert(at_most(a, c));
        if !less(a, c) {
            assert(at_most(c, a));
            assert(at_most(c, b));
        }
    }
}

/// What the order of sums gives for four numbers.
pub proof fn lemma_sums<T: Real>(a: T, b: T, c: T, d: T)
    requires
        is_ordered::<T>(),
        sums_keep_order::<T>(),
    ensures
        at_most(a, b) && at_most(c, d) && is_number(plus(a, c)) && is_number(plus(b, c))
            && is_number(plus(b, d)) ==> at_most(plus(a, c), plus(b, d)),
        at_most(a, b) && is_number(plus(a, c)) && is_number(plus(b, c)) ==> at_most(
            plus(a, c),
            plus(b, c),
        ),
        at_most(a, b) && is_number(plus(c, a)) && is_number(plus(c, b)) ==> at_most(
            plus(c, a),
            plus(c, b),
        ),
        at_most(a, b) && is_number(minus(a, c)) && is_number(minus(b, c)) ==> at_most(
            minus(a, c),
            minus(b, c),
        ),
        at_most(a, b) && is_number(minus(c, a)) && is_number(minus(c, b)) ==> at_most(
            minus(c, b),
            minus(c, a),
        ),
        is_number(plus(a, b)) ==> is_number(a) && is_number(b) && plus(a, b) == plus(b, a),
        is_number(minus(a, b)) ==> is_number(a) && is_number(b),
        at_most(a, b) ==> at_most(negative(b), negative(a)),
        is_number(a) ==> is_number(negative(a)) && negative(negative(a)) == a,
        is_number(a) ==> same(plus(a, zero_of()), a) && same(plus(zero_of(), a), a),
        is_number(a) ==> same(minus(a, zero_of()), a),
        at_most(a, b) && is_number(minus(b, a)) ==> at_most(zero_of(), minus(b, a)),
        at_most(a, b) && is_number(minus(a, b)) ==> at_most(minus(a, b), zero_of()),
        same(a, b) && is_number(minus(a, b)) ==> same(minus(a, b), zero_of()),
        same(negative(zero_of::<T>()), zero_of()),
{
    reveal(is_ordered);
    reveal(sums_keep_order);
    if is_number(plus(c, a)) {
        assert(is_number(plus(a, c)));
    }
    if is_number(plus(c, b)) {
        assert(is_number(plus(b, c)));
    }
    if at_most(c, d) && is_number(plus(b, c)) && is_number(plus(b, d)) {
        assert(is_number(plus(c, b)));
        assert(is_number(plus(d, b)));
    }
    if is_number(minus(a, c)) {
        assert(is_number(plus(a, negative(c))));
    }
    if is_number(minus(b, c)) {
        assert(is_number(plus(b, negative(c))));
    }
    if is_number(minus(a, b)) {
        assert(is_number(plus(a, negative(b))));
        assert(is_number(negative(b)));
    }
    if is_number(minus(c, a)) {
        assert(is_number(plus(c, negative(a))));
        assert(is_number(plus(negative(a), c)));
    }
    if is_number(minus(c, b)) {
        assert(is_number(plus(c, negative(b))));
        assert(is_number(plus(negative(b), c)));
    }
    if is_number(a) {
        let zero = zero_of::<T>();
        assert(same(plus(a, zero), a));
        assert(is_number(plus(a, zero)));
        assert(is_number(negative(a)));
        assert(same(minus(a, zero), a));
    }
}

/// What compares as zero changes nothing as a summand.
pub proof fn lemma_adds_nothing<T: Real>(a: T, nothing: T)
    requires
        is_ordered::<T>(),
        sums_keep_order::<T>(),
        same(nothing, zero_of()),
        is_number(plus(a, nothing)),
    ensures
        same(plus(a, nothing), a),
        same(plus(nothing, a), a),
{
    let zero = zero_of::<T>();
    lemma_sums(a, nothing, zero, zero);
    lemma_sums(nothing, zero, a, zero);
    lemma_sums(zero, nothing, a, zero);
    lemma_order(a, plus(a, zero), plus(a, nothing));
    lemma_order(plus(a, nothing), plus(a, zero), a);
    lemma_order(plus(a, zero), a, a);
}

pub proof fn lemma_products<T: Real>(a: T, b: T, c: T)
    requires
        is_ordered::<T>(),
        products_keep_order::<T>(),
    ensures
        is_number(times(a, b)) ==> is_number(a) && is_number(b) && times(a, b) == times(b, a)
            && times(negative(a), b) == negative(times(a, b)),
        at_most(a, b) && at_most(zero_of(), c) && is_number(times(a, c)) && is_number(times(b, c))
            ==> at_most(times(a, c), times(b, c)),
        at_most(a, b) && at_most(zero_of(), c) && is_number(times(c, a)) && is_number(times(c, b))
            ==> at_most(times(c, a), times(c, b)),
        (same(a, zero_of()) || same(b, zero_of())) && is_number(times(a, b)) ==> same(
            times(a, b),
            zero_of(),
        ),
        at_most(zero_of(), a) && at_most(zero_of(), b) && is_number(times(a, b)) ==> at_most(
            zero_of(),
            times(a, b),
        ),
        is_number(over(a, b)) ==> is_number(a) && is_number(b),
        at_most(a, b) && less(zero_of(), c) && is_number(over(a, c)) && is_number(over(b, c))
            ==> at_most(over(a, c), over(b, c)),
        at_most(zero_of(), a) && less(zero_of(), b) && at_most(b, c) && is_number(over(a, b))
            && is_number(over(a, c)) ==> at_most(over(a, c), over(a, b)),
        at_most(zero_of(), a) && less(zero_of(), b) && is_number(over(a, b)) ==> at_most(
            zero_of(),
            over(a, b),
        ),
        same(a, zero_of()) && less(zero_of(), b) && is_number(over(a, b)) ==> same(
            over(a, b),
            zero_of(),
        ),
{
    reveal(is_ordered);
    reveal(products_keep_order);
    if is_number(times(c, a)) {
        assert(is_number(times(a, c)));
    }
    if is_number(times(c, b)) {
        assert(is_number(times(b, c)));
    }
    if is_number(times(a, b)) {
        assert(is_number(times(b, a)));
    }
}

/// The magnitude is the number or its opposite, and no less than either; an opposite
/// has the same magnitude.
pub proof fn law_magnitude<T: Real>(a: T)
    requires
        is_ordered::<T>(),
        sums_keep_order::<T>(),
        is_number(a),
    ensures
        magnitude(a) == a || magnitude(a) == negative(a),
        at_most(zero_of(), magnitude(a)),
        at_most(a, magnitude(a)),
        at_most(negative(a), magnitude(a)),
        same(magnitude(negative(a)), magnitude(a)),
{
    let zero = zero_of::<T>();
    let opposite = negative(a);
    lemma_order(a, zero, a);
    lemma_order(zero, a, zero);
    lemma_sums(a, zero, a, a);
    lemma_sums(zero, a, a, a);
    lemma_sums(opposite, a, a, a);
    lemma_order(opposite, negative(zero), zero);
    lemma_order(opposite, zero, a);
    lemma_order(zero, negative(zero), opposite);
    lemma_order(a, zero, opposite);
    lemma_order(zero, opposite, zero);
    lemma_order(a, opposite, a);
    lemma_order(negative(zero), zero, opposite);
    lemma_sums(zero, opposite, a, a);
    lemma_order(a, negative(zero), zero);
    lemma_order(opposite, zero, a);
    lemma_order(a, zero, opposite);
    lemma_order(zero, opposite, a);
    lemma_order(zero, a, opposite);
    lemma_order(opposite, opposite, opposite);
}

/// The larger of two numbers is one of them, and no less than either.
pub proof fn law_larger<T: Real>(a: T, b: T)
    requires
        is_ordered::<T>(),
        is_number(a),
        is_number(b),
    ensures
        larger(a, b) == a || larger(a, b) == b,
        at_most(a, larger(a, b)),
        at_most(b, larger(a, b)),
{
    lemma_order(a, b, a);
}

/// The smaller of two numbers is one of them, and no more than either.
pub proof fn law_smaller<T: Real>(a: T, b: T)
    requires
        is_ordered::<T>(),
        is_number(a),
        is_number(b),
    ensures
        smaller(a, b) == a || smaller(a, b) == b,
        at_most(smaller(a, b), a),
        at_most(smaller(a, b), b),
{
    lemma_order(a, b, a);
}

/// A number is kept in a range: one within it stays, and one beyond it goes to the
/// limit that it is beyond.
pub proof fn law_clamped<T: Real>(a: T, low: T, high: T)
    requires
        is_ordered::<T>(),
        is_number(a),
        at_most(low, high),
    ensures
        at_most(low, clamped(a, low, high)),
        at_most(clamped(a, low, high), high),
        at_most(low, a) && at_most(a, high) ==> clamped(a, low, high) == a,
        less(a, low) ==> clamped(a, low, high) == low,
        less(high, a) ==> clamped(a, low, high) == high,
{
    lemma_order(a, low, high);
    lemma_order(low, high, a);
    lemma_order(a, high, low);
    lemma_order(high, a, low);
}

/// The sum of products is not changed by who comes first in the pairs.
pub proof fn law_dot_is_symmetric<T: Real>(a: Seq<T>, b: Seq<T>, n: int)
    requires
        is_ordered::<T>(),
        sums_keep_order::<T>(),
        products_keep_order::<T>(),
        is_number(dot(a, b, n)),
    ensures
        dot(b, a, n) == dot(a, b, n),
    decreases n,
{
    if n > 0 {
        lemma_sums(dot(a, b, n - 1), times(a[n - 1], b[n - 1]), zero_of(), zero_of());
        lemma_products(a[n - 1], b[n - 1], zero_of());
        law_dot_is_symmetric(a, b, n - 1);
    }
}

/// Every pair counts in a sum of products: where all other products are zero, it is the
/// product of the one pair.
pub proof fn law_dot_counts_every_pair<T: Real>(a: Seq<T>, b: Seq<T>, n: int, k: int)
    requires
        is_ordered::<T>(),
        sums_keep_order::<T>(),
        0 <= k < n,
        is_number(times(a[k], b[k])),
        forall|i: int| 0 <= i < n && i != k ==> same(#[trigger] times(a[i], b[i]), zero_of()),
        is_number(dot(a, b, n)),
    ensures
        same(dot(a, b, n), times(a[k], b[k])),
    decreases n,
{
    let product = times(a[n - 1], b[n - 1]);
    let before = dot(a, b, n - 1);
    lemma_sums(before, product, zero_of(), zero_of());
    if k == n - 1 {
        lemma_dot_of_zeros(a, b, n - 1);
        lemma_adds_nothing(product, before);
    } else {
        law_dot_counts_every_pair(a, b, n - 1, k);
        lemma_adds_nothing(before, product);
        lemma_order(dot(a, b, n), before, times(a[k], b[k]));
    }
}

pub proof fn lemma_dot_of_zeros<T: Real>(a: Seq<T>, b: Seq<T>, n: int)
    requires
        is_ordered::<T>(),
        sums_keep_order::<T>(),
        forall|i: int| 0 <= i < n ==> same(#[trigger] times(a[i], b[i]), zero_of()),
        is_number(dot(a, b, n)),
    ensures
        same(dot(a, b, n), zero_of()),
    decreases n,
{
    let zero = zero_of::<T>();
    lemma_order(zero, zero, zero);
    if n > 0 {
        let product = times(a[n - 1], b[n - 1]);
        let before = dot(a, b, n - 1);
        lemma_sums(before, product, zero, zero);
        lemma_dot_of_zeros(a, b, n - 1);
        lemma_adds_nothing(before, product);
        lemma_order(dot(a, b, n), before, zero);
    }
}

/// The energy is no less than the square of any sample, and grows with every sample.
pub proof fn law_energy_counts_every_sample<T: Real>(a: Seq<T>, n: int, k: int)
    requires
        is_ordered::<T>(),
        sums_keep_order::<T>(),
        0 <= n <= a.len(),
        forall|i: int| 0 <= i < a.len() ==> at_most(zero_of(), #[trigger] times(a[i], a[i])),
        is_number(dot(a, a, n)),
    ensures
        at_most(zero_of(), dot(a, a, n)),
        0 <= k < n ==> at_most(times(a[k], a[k]), dot(a, a, n)),
        0 <= k < n ==> at_most(dot(a, a, k), dot(a, a, n)),
    decreases n,
{
    let zero = zero_of::<T>();
    lemma_order(zero, zero, zero);
    if n > 0 {
        let square = times(a[n - 1], a[n - 1]);
        let before = dot(a, a, n - 1);
        let now = dot(a, a, n);
        assert(at_most(zero, square));
        lemma_sums(before, square, zero, zero);
        law_energy_counts_every_sample(a, n - 1, k);
        lemma_sums(before, zero, zero, zero);
        lemma_sums(square, zero, zero, zero);
        // Adding a square lowers nothing.
        lemma_sums(zero, square, before, zero);
        lemma_order(before, plus(before, zero), now);
        lemma_order(zero, before, now);
        // Nor does adding what was there before.
        lemma_sums(zero, before, square, zero);
        lemma_order(square, plus(zero, square), now);
        if 0 <= k < n - 1 {
            lemma_order(times(a[k], a[k]), before, now);
            lemma_order(dot(a, a, k), before, now);
        }
    }
}

/// The energy of a signal is that of all of it: no sample has more.
pub proof fn law_energy<T: Real>(a: Seq<T>, k: int)
    requires
        is_ordered::<T>(),
        sums_keep_order::<T>(),
        0 <= k < a.len(),
        forall|i: int| 0 <= i < a.len() ==> at_most(zero_of(), #[trigger] times(a[i], a[i])),
        is_number(energy(a)),
    ensures
        at_most(times(a[k], a[k]), energy(a)),
        at_most(zero_of(), energy(a)),
        energy(a) == dot(a, a, a.len() as int),
{
    law_energy_counts_every_sample(a, a.len() as int, k);
}

/// The largest magnitude is no less than that of any of the values, whatever their
/// sign, nor than the least it can be, and it is one of these.
pub proof fn law_largest_magnitude<T: Real>(least: T, values: Seq<T>, n: int)
    requires
        is_ordered::<T>(),
        sums_keep_order::<T>(),
        is_number(least),
        0 <= n <= values.len(),
        forall|i: int| 0 <= i < values.len() ==> is_number(#[trigger] values[i]),
    ensures
        at_most(least, largest_magnitude(least, values, n)),
        forall|i: int|
            #![trigger values[i]]
            0 <= i < n ==> at_most(values[i], largest_magnitude(least, values, n)) && at_most(
                negative(values[i]),
                largest_magnitude(least, values, n),
            ),
        largest_magnitude(least, values, n) == least || exists|i: int|
            0 <= i < n && (largest_magnitude(least, values, n) == #[trigger] values[i]
                || largest_magnitude(least, values, n) == negative(values[i])),
    decreases n,
{
    let now = largest_magnitude(least, values, n);
    if n > 0 {
        let before = largest_magnitude(least, values, n - 1);
        let value = values[n - 1];
        law_largest_magnitude(least, values, n - 1);
        law_magnitude(value);
        lemma_order(least, before, least);
        lemma_order(zero_of(), magnitude(value), least);
        law_larger(before, magnitude(value));
        lemma_order(least, before, now);
        lemma_order(value, magnitude(value), now);
        lemma_order(negative(value), magnitude(value), now);
        assert forall|i: int|
            #![trigger values[i]]
            0 <= i < n implies at_most(values[i], now) && at_most(negative(values[i]), now) by {
            if i < n - 1 {
                lemma_order(values[i], before, now);
                lemma_order(negative(values[i]), before, now);
            }
        }
        if now == before && before != least {
            let i = choose|i: int|
                0 <= i < n - 1 && (before == #[trigger] values[i] || before == negative(
                    values[i],
                ));
            assert(values[i] == values[i]);
        }
    }
}

} // verus!
