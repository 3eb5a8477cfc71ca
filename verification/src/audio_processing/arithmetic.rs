//! The arithmetic of signals, for any type of number.
//!
//! Signal processing is written for a type `T` that has the arithmetic operators
//! and an order, such as the floating-point types. What is stated of a result is
//! which operations it comes from, on which operands and in which order; what a
//! single operation yields is up to the type.
use core::cmp::Ordering;
use core::ops::{Add, Div, Mul, Neg, Sub};
use vstd::prelude::*;
use vstd::std_specs::cmp::PartialOrdSpec;
use vstd::std_specs::ops::{AddSpec, DivSpec, MulSpec, NegSpec, SubSpec};

verus! {

/// A number that signals can be made of. The default value is its zero.
pub trait Real: Copy + Default + PartialOrd + Add<Output = Self> + Sub<Output = Self> + Mul<
    Output = Self,
> + Div<Output = Self> + Neg<Output = Self> {

}

impl<
    T: Copy + Default + PartialOrd + Add<Output = T> + Sub<Output = T> + Mul<Output = T> + Div<
        Output = T,
    > + Neg<Output = T>,
> Real for T {

}

/// Operations as functions of their operands.
#[verifier::reject_recursive_types(T)]
pub struct Operations<T> {
    pub zero: T,
    pub plus: spec_fn(T, T) -> T,
    pub minus: spec_fn(T, T) -> T,
    pub times: spec_fn(T, T) -> T,
    pub over: spec_fn(T, T) -> T,
    pub negative: spec_fn(T) -> T,
    pub less: spec_fn(T, T) -> bool,
    pub at_most: spec_fn(T, T) -> bool,
}

/// Whether every operation accepts every operand.
pub open spec fn is_total<T: Real>() -> bool {
    &&& call_requires(T::default, ())
    &&& forall|a: T, b: T| #[trigger] call_requires(<T as Add>::add, (a, b))
    &&& forall|a: T, b: T| #[trigger] call_requires(<T as Sub>::sub, (a, b))
    &&& forall|a: T, b: T| #[trigger] call_requires(<T as Mul>::mul, (a, b))
    &&& forall|a: T, b: T| #[trigger] call_requires(<T as Div>::div, (a, b))
    &&& forall|a: T| #[trigger] call_requires(<T as Neg>::neg, (a,))
}

/// Whether `operations` is what the operators of the type yield.
pub open spec fn computes<T: Real>(operations: Operations<T>) -> bool {
    &&& forall|r: T| #[trigger] call_ensures(T::default, (), r) ==> r == operations.zero
    &&& forall|a: T, b: T, r: T| #[trigger]
        call_ensures(<T as Add>::add, (a, b), r) ==> r == (operations.plus)(a, b)
    &&& forall|a: T, b: T, r: T| #[trigger]
        call_ensures(<T as Sub>::sub, (a, b), r) ==> r == (operations.minus)(a, b)
    &&& forall|a: T, b: T, r: T| #[trigger]
        call_ensures(<T as Mul>::mul, (a, b), r) ==> r == (operations.times)(a, b)
    &&& forall|a: T, b: T, r: T| #[trigger]
        call_ensures(<T as Div>::div, (a, b), r) ==> r == (operations.over)(a, b)
    &&& forall|a: T, r: T| #[trigger]
        call_ensures(<T as Neg>::neg, (a,), r) ==> r == (operations.negative)(a)
    &&& forall|a: T, b: T, r: bool| #[trigger]
        call_ensures(<T as PartialOrd>::lt, (&a, &b), r) ==> r == (operations.less)(a, b)
    &&& forall|a: T, b: T, r: bool| #[trigger]
        call_ensures(<T as PartialOrd>::le, (&a, &b), r) ==> r == (operations.at_most)(a, b)
}

/// Whether equal operands always give equal results.
pub open spec fn is_functional<T: Real>() -> bool {
    exists|operations: Operations<T>| computes(operations)
}

/// Whether the operators say what they yield.
pub open spec fn is_specified<T: Real>() -> bool {
    &&& T::obeys_add_spec()
    &&& T::obeys_sub_spec()
    &&& T::obeys_mul_spec()
    &&& T::obeys_div_spec()
    &&& T::obeys_neg_spec()
    &&& T::obeys_partial_cmp_spec()
}

/// A type with one default value and operators that say what they yield gives equal
/// results for equal operands: all that is stated under that condition holds of it.
pub proof fn law_specified_operators_are_functional<T: Real>(zero: T)
    requires
        is_specified::<T>(),
        forall|r: T| #[trigger] call_ensures(T::default, (), r) ==> r == zero,
    ensures
        is_functional::<T>(),
{
    let operations = Operations::<T> {
        zero,
        plus: |a: T, b: T| plus(a, b),
        minus: |a: T, b: T| minus(a, b),
        times: |a: T, b: T| times(a, b),
        over: |a: T, b: T| over(a, b),
        negative: |a: T| negative(a),
        less: |a: T, b: T| less(a, b),
        at_most: |a: T, b: T| at_most(a, b),
    };
    assert(computes(operations));
}

/// The operations of a type for which equal operands give equal results.
pub open spec fn operations<T: Real>() -> Operations<T> {
    choose|operations: Operations<T>| computes(operations)
}

pub closed spec fn zero_of<T: Real>() -> T {
    operations::<T>().zero
}

pub open spec fn plus<T: Real>(a: T, b: T) -> T {
    if T::obeys_add_spec() {
        a.add_spec(b)
    } else {
        (operations::<T>().plus)(a, b)
    }
}

pub open spec fn minus<T: Real>(a: T, b: T) -> T {
    if T::obeys_sub_spec() {
        a.sub_spec(b)
    } else {
        (operations::<T>().minus)(a, b)
    }
}

pub open spec fn times<T: Real>(a: T, b: T) -> T {
    if T::obeys_mul_spec() {
        a.mul_spec(b)
    } else {
        (operations::<T>().times)(a, b)
    }
}

pub open spec fn over<T: Real>(a: T, b: T) -> T {
    if T::obeys_div_spec() {
        a.div_spec(b)
    } else {
        (operations::<T>().over)(a, b)
    }
}

pub open spec fn negative<T: Real>(a: T) -> T {
    if T::obeys_neg_spec() {
        a.neg_spec()
    } else {
        (operations::<T>().negative)(a)
    }
}

pub open spec fn less<T: Real>(a: T, b: T) -> bool {
    if T::obeys_partial_cmp_spec() {
        a.partial_cmp_spec(&b) == Some(Ordering::Less)
    } else {
        (operations::<T>().less)(a, b)
    }
}

pub open spec fn at_most<T: Real>(a: T, b: T) -> bool {
    if T::obeys_partial_cmp_spec() {
        a.partial_cmp_spec(&b) matches Some(Ordering::Less | Ordering::Equal)
    } else {
        (operations::<T>().at_most)(a, b)
    }
}

/// The magnitude.
pub open spec fn magnitude<T: Real>(a: T) -> T {
    if less(a, zero_of()) {
        negative(a)
    } else {
        a
    }
}

/// The larger one; the other one, if one of them is not comparable to itself.
pub open spec fn larger<T: Real>(a: T, b: T) -> T {
    if less(a, b) || !at_most(a, a) {
        b
    } else {
        a
    }
}

/// The smaller one; the other one, if one of them is not comparable to itself.
pub open spec fn smaller<T: Real>(a: T, b: T) -> T {
    if less(b, a) || !at_most(a, a) {
        b
    } else {
        a
    }
}

/// Whether the numbers are equal in the order, as two zeros are.
pub open spec fn same<T: Real>(a: T, b: T) -> bool {
    at_most(a, b) && at_most(b, a)
}

/// The nearest number from `low` to `high`; what is not comparable stays.
pub open spec fn clamped<T: Real>(a: T, low: T, high: T) -> T {
    let raised = if less(a, low) {
        low
    } else {
        a
    };
    if less(high, raised) {
        high
    } else {
        raised
    }
}

/// `acc + a * b`.
pub open spec fn plus_product<T: Real>(acc: T, a: T, b: T) -> T {
    plus(acc, times(a, b))
}

pub fn zero<T: Real>() -> (r: T)
    requires
        is_total::<T>(),
    ensures
        call_ensures(T::default, (), r),
        is_functional::<T>() ==> r == zero_of::<T>(),
{
    T::default()
}

/// A default value is the zero.
pub proof fn lemma_default_is_zero<T: Real>(a: T)
    requires
        is_functional::<T>(),
        call_ensures(T::default, (), a),
    ensures
        a == zero_of::<T>(),
{
}

pub fn sum<T: Real>(a: T, b: T) -> (r: T)
    requires
        is_total::<T>(),
    ensures
        is_functional::<T>() ==> r == plus(a, b),
{
    a + b
}

pub fn difference<T: Real>(a: T, b: T) -> (r: T)
    requires
        is_total::<T>(),
    ensures
        is_functional::<T>() ==> r == minus(a, b),
{
    a - b
}

pub fn product<T: Real>(a: T, b: T) -> (r: T)
    requires
        is_total::<T>(),
    ensures
        is_functional::<T>() ==> r == times(a, b),
{
    a * b
}

pub fn quotient<T: Real>(a: T, b: T) -> (r: T)
    requires
        is_total::<T>(),
    ensures
        is_functional::<T>() ==> r == over(a, b),
{
    a / b
}

pub fn opposite<T: Real>(a: T) -> (r: T)
    requires
        is_total::<T>(),
    ensures
        is_functional::<T>() ==> r == negative(a),
{
    a.neg()
}

pub fn is_less<T: Real>(a: T, b: T) -> (r: bool)
    ensures
        is_functional::<T>() ==> r == less(a, b),
{
    a < b
}

pub fn is_at_most<T: Real>(a: T, b: T) -> (r: bool)
    ensures
        is_functional::<T>() ==> r == at_most(a, b),
{
    a <= b
}

pub fn absolute<T: Real>(a: T) -> (r: T)
    requires
        is_total::<T>(),
    ensures
        is_functional::<T>() ==> r == magnitude(a),
{
    if is_less(a, zero()) {
        opposite(a)
    } else {
        a
    }
}

pub fn maximum<T: Real>(a: T, b: T) -> (r: T)
    ensures
        is_functional::<T>() ==> r == larger(a, b),
        r == a || r == b,
{
    if is_less(a, b) || !is_at_most(a, a) {
        b
    } else {
        a
    }
}

pub fn minimum<T: Real>(a: T, b: T) -> (r: T)
    ensures
        is_functional::<T>() ==> r == smaller(a, b),
        r == a || r == b,
{
    if is_less(b, a) || !is_at_most(a, a) {
        b
    } else {
        a
    }
}

pub fn is_same<T: Real>(a: T, b: T) -> (r: bool)
    ensures
        is_functional::<T>() ==> r == same(a, b),
{
    is_at_most(a, b) && is_at_most(b, a)
}

pub fn clamp<T: Real>(a: T, low: T, high: T) -> (r: T)
    ensures
        is_functional::<T>() ==> r == clamped(a, low, high),
        r == a || r == low || r == high,
{
    let raised = if is_less(a, low) {
        low
    } else {
        a
    };
    if is_less(high, raised) {
        high
    } else {
        raised
    }
}

pub fn multiply_add<T: Real>(acc: T, a: T, b: T) -> (r: T)
    requires
        is_total::<T>(),
    ensures
        is_functional::<T>() ==> r == plus_product(acc, a, b),
{
    sum(acc, product(a, b))
}

/// The sum of the products of the first `n` pairs, added up in order.
pub open spec fn dot<T: Real>(a: Seq<T>, b: Seq<T>, n: int) -> T
    decreases n,
{
    if n <= 0 {
        zero_of()
    } else {
        plus_product(dot(a, b, n - 1), a[n - 1], b[n - 1])
    }
}

/// The sum of the products of two equally long vectors.
pub fn dot_product<T: Real>(a: &[T], b: &[T]) -> (r: T)
    requires
        is_total::<T>(),
        a@.len() == b@.len(),
    ensures
        is_functional::<T>() ==> r == dot(a@, b@, a@.len() as int),
{
    let mut acc = zero();
    let mut i: usize = 0;
    while i < a.len()
        invariant
            is_total::<T>(),
            i <= a@.len() == b@.len(),
            is_functional::<T>() ==> acc == dot(a@, b@, i as int),
        decreases a@.len() - i,
    {
        acc = multiply_add(acc, a[i], b[i]);
        i = i + 1;
    }
    acc
}

/// The sum of the squares, added up in order.
pub open spec fn energy<T: Real>(a: Seq<T>) -> T {
    dot(a, a, a.len() as int)
}

/// The largest magnitude of the first `n` values, if it is beyond `least`.
pub open spec fn largest_magnitude<T: Real>(least: T, values: Seq<T>, n: int) -> T
    decreases n,
{
    if n <= 0 {
        least
    } else {
        larger(largest_magnitude(least, values, n - 1), magnitude(values[n - 1]))
    }
}

/// The largest magnitude of the values, if it is beyond `least`.
pub fn peak_beyond<T: Real>(least: T, values: &[T]) -> (r: T)
    requires
        is_total::<T>(),
    ensures
        is_functional::<T>() ==> r == largest_magnitude(least, values@, values@.len() as int),
{
    let mut peak = least;
    let mut i: usize = 0;
    while i < values.len()
        invariant
            is_total::<T>(),
            i <= values@.len(),
            is_functional::<T>() ==> peak == largest_magnitude(least, values@, i as int),
        decreases values@.len() - i,
    {
        peak = maximum(peak, absolute(values[i]));
        i = i + 1;
    }
    peak
}

/// The array with the given values.
pub open spec fn array_of<T, const N: usize>(values: Seq<T>) -> [T; N] {
    choose|array: [T; N]| array@ == values
}

/// An array is known by its values.
pub proof fn lemma_array_of<T, const N: usize>(array: [T; N])
    ensures
        array_of::<T, N>(array@) == array,
{
    let other = array_of::<T, N>(array@);
    assert(other@ == array@);
    assert forall|i: int| 0 <= i < N implies other[i] == array[i] by {
        assert(other@[i] == array@[i]);
    }
    assert(other =~= array);
}

/// Whether `g` is what calls of `f` return.
pub open spec fn maps<A, B, F: Fn(A) -> B>(f: F, g: spec_fn(A) -> B) -> bool {
    forall|a: A, b: B| #[trigger] call_ensures(f, (a,), b) ==> b == g(a)
}

/// Whether equal arguments always give equal results.
pub open spec fn is_mapping<A, B, F: Fn(A) -> B>(f: F) -> bool {
    exists|g: spec_fn(A) -> B| maps(f, g)
}

/// What a call of `f` returns, if equal arguments always give equal results.
pub closed spec fn image<A, B, F: Fn(A) -> B>(f: F, a: A) -> B {
    (choose|g: spec_fn(A) -> B| maps(f, g))(a)
}

/// Calls `f`.
pub fn apply<A, B, F: Fn(A) -> B>(f: &F, a: A) -> (b: B)
    requires
        call_requires(f, (a,)),
    ensures
        call_ensures(*f, (a,), b),
        is_mapping(*f) ==> b == image(*f, a),
{
    f(a)
}

/// The sum of the squares.
pub fn energy_of<T: Real>(a: &[T]) -> (r: T)
    requires
        is_total::<T>(),
    ensures
        is_functional::<T>() ==> r == energy(a@),
{
    dot_product(a, a)
}

} // verus!
