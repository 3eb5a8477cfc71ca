//! Fully connected (dense) layer.
use crate::audio_processing::agc2::rnn_vad::rnn_gru::zeros;
use crate::audio_processing::arithmetic::{
    apply, at_most, dot, dot_product, image, is_functional, is_mapping, is_total, plus, same, sum,
    times, zero_of, Real,
};
use crate::audio_processing::ordered::{
    is_number, is_ordered, is_rising, law_dot_counts_every_pair, lemma_sums, sums_keep_order,
};
use vstd::prelude::*;
use vstd::slice::slice_subrange;

verus! {

/// Activation function for a neural network cell.
#[derive(Debug, Copy, Clone, PartialEq, Eq, Structural)]
pub enum ActivationFunction {
    TansigApproximated,
    SigmoidApproximated,
}

/// Maximum number of units for a fully connected layer.
pub const FULLY_CONNECTED_LAYER_MAX_UNITS: usize = 24;

/// Position of an entry of a matrix stored by rows of `width` entries.
pub open spec fn at(width: int, row: int, col: int) -> int {
    row * width + col
}

pub proof fn lemma_at(width: int, height: int, row: int, col: int)
    requires
        0 <= row < height,
        0 <= col < width,
    ensures
        0 <= row * width <= at(width, row, col) < height * width,
        at(width, row, 0) + width <= height * width,
        (row + 1) * width == row * width + width,
{
    assert(0 <= row * width) by (nonlinear_arith)
        requires
            0 <= row,
            0 <= width,
    ;
    assert((row + 1) * width == row * width + width) by (nonlinear_arith);
    assert((row + 1) * width <= height * width) by (nonlinear_arith)
        requires
            row + 1 <= height,
            0 <= width,
    ;
}

/// The values that `scale` gives for the parameters.
pub fn get_scaled_params<T: Real, S: Fn(i8) -> T>(params: &[i8], scale: &S) -> (scaled: Vec<T>)
    requires
        forall|x: i8| call_requires(scale, (x,)),
    ensures
        scaled@.len() == params@.len(),
        is_mapping(*scale) ==> scaled@ == Seq::new(
            params@.len(),
            |i: int| image(*scale, params@[i]),
        ),
{
    let mut scaled: Vec<T> = Vec::new();
    let mut i: usize = 0;
    while i < params.len()
        invariant
            forall|x: i8| call_requires(scale, (x,)),
            i <= params@.len(),
            scaled@.len() == i,
            is_mapping(*scale) ==> forall|k: int|
                0 <= k < i ==> scaled@[k] == image(*scale, #[trigger] params@[k]),
        decreases params@.len() - i,
    {
        scaled.push(apply(scale, params[i]));
        i = i + 1;
    }
    proof {
        if is_mapping(*scale) {
            assert(scaled@ =~= Seq::new(params@.len(), |i: int| image(*scale, params@[i])));
        }
    }
    scaled
}

/// Scales the weights and re-arranges them to output-major layout: entry
/// (`o`, `i`) of the result is entry (`i`, `o`) of the weights.
pub fn preprocess_weights<T: Real, S: Fn(i8) -> T>(
    weights: &[i8],
    output_size: usize,
    scale: &S,
) -> (w: Vec<T>)
    requires
        forall|x: i8| call_requires(scale, (x,)),
        output_size > 0,
        weights@.len() % (output_size as nat) == 0,
    ensures
        w@.len() == weights@.len(),
        is_mapping(*scale) ==> forall|o: int, i: int|
            #![trigger at(weights@.len() as int / output_size as int, o, i)]
            0 <= o < output_size && 0 <= i < weights@.len() as int / output_size as int ==> w@[at(
                weights@.len() as int / output_size as int,
                o,
                i,
            )] == image(*scale, weights@[at(output_size as int, i, o)]),
{
    let len: usize = weights.len();
    let input_size: usize = len / output_size;
    proof {
        vstd::arithmetic::div_mod::lemma_fundamental_div_mod(len as int, output_size as int);
        assert(output_size * input_size == input_size * output_size) by (nonlinear_arith);
        assert(len == input_size * output_size);
    }
    // Transpose and scale.
    let mut w: Vec<T> = Vec::new();
    let mut o: usize = 0;
    assert(0 * input_size == 0) by (nonlinear_arith);
    while o < output_size
        invariant
            forall|x: i8| call_requires(scale, (x,)),
            len == weights@.len(),
            len == input_size * output_size,
            o <= output_size,
            w@.len() == o * input_size,
            is_mapping(*scale) ==> forall|p: int, i: int|
                #![trigger at(input_size as int, p, i)]
                0 <= p < o && 0 <= i < input_size ==> w@[at(input_size as int, p, i)] == image(
                    *scale,
                    weights@[at(output_size as int, i, p)],
                ),
        decreases output_size - o,
    {
        let mut i: usize = 0;
        while i < input_size
            invariant
                forall|x: i8| call_requires(scale, (x,)),
                len == weights@.len(),
                len == input_size * output_size,
                o < output_size,
                i <= input_size,
                w@.len() == o * input_size + i,
                is_mapping(*scale) ==> forall|p: int, j: int|
                    #![trigger at(input_size as int, p, j)]
                    0 <= p < o && 0 <= j < input_size ==> w@[at(input_size as int, p, j)]
                        == image(*scale, weights@[at(output_size as int, j, p)]),
                is_mapping(*scale) ==> forall|j: int|
                    #![trigger at(input_size as int, o as int, j)]
                    0 <= j < i ==> w@[at(input_size as int, o as int, j)] == image(
                        *scale,
                        weights@[at(output_size as int, j, o as int)],
                    ),
            decreases input_size - i,
        {
            proof {
                lemma_at(output_size as int, input_size as int, i as int, o as int);
                assert forall|p: int, j: int|
                    #![trigger at(input_size as int, p, j)]
                    0 <= p < o && 0 <= j < input_size implies at(input_size as int, p, j)
                    < w@.len() by {
                    lemma_at(input_size as int, o as int, p, j);
                }
            }
            w.push(apply(scale, weights[i * output_size + o]));
            i = i + 1;
        }
        assert((o + 1) * input_size == o * input_size + input_size) by (nonlinear_arith);
        o = o + 1;
    }
    proof {
        assert(output_size * input_size == input_size * output_size) by (nonlinear_arith);
    }
    w
}

/// Fully-connected layer with an owned output buffer.
#[derive(Debug, Clone)]
pub struct FullyConnectedLayer<T: Real> {
    input_size: usize,
    output_size: usize,
    bias: Vec<T>,
    weights: Vec<T>,
    activation_function: ActivationFunction,
    output: Vec<T>,
}

/// Row `o` of a matrix stored by rows of `width` entries.
pub open spec fn matrix_row<T>(matrix: Seq<T>, width: int, o: int) -> Seq<T> {
    matrix.subrange(o * width, (o + 1) * width)
}

/// Row `o` of the matrix in `values`.
pub fn row_of<T: Copy>(values: &Vec<T>, offset: usize, width: usize, height: usize, o: usize) -> (row:
    &[T])
    requires
        o < height,
        offset + height * width <= values@.len(),
    ensures
        row@ == matrix_row(
            values@.subrange(offset as int, offset + height * width),
            width as int,
            o as int,
        ),
{
    proof {
        if width > 0 {
            lemma_at(width as int, height as int, o as int, 0);
        } else {
            assert(o * width == 0) by (nonlinear_arith)
                requires
                    width == 0,
            ;
            assert((o + 1) * width == 0) by (nonlinear_arith)
                requires
                    width == 0,
            ;
            assert(height * width == 0) by (nonlinear_arith)
                requires
                    width == 0,
            ;
        }
    }
    assert(values.len() <= usize::MAX);
    let start: usize = offset + o * width;
    let row = slice_subrange(values.as_slice(), start, start + width);
    assert(row@ =~= matrix_row(
        values@.subrange(offset as int, offset + height * width),
        width as int,
        o as int,
    ));
    row
}

impl<T: Real> FullyConnectedLayer<T> {
    pub closed spec fn inputs(&self) -> nat {
        self.input_size as nat
    }

    pub closed spec fn outputs(&self) -> nat {
        self.output_size as nat
    }

    pub closed spec fn biases(&self) -> Seq<T> {
        self.bias@
    }

    /// The weights, by rows of one per input.
    pub closed spec fn matrix(&self) -> Seq<T> {
        self.weights@
    }

    pub closed spec fn activation(&self) -> ActivationFunction {
        self.activation_function
    }

    pub closed spec fn values(&self) -> Seq<T> {
        self.output@
    }

    pub closed spec fn inv(&self) -> bool {
        &&& self.output_size <= FULLY_CONNECTED_LAYER_MAX_UNITS
        &&& self.bias@.len() == self.output_size
        &&& self.weights@.len() == self.output_size * self.input_size
        &&& self.output@.len() == self.output_size
    }

    pub proof fn lemma_values(&self)
        requires
            self.inv(),
        ensures
            self.values().len() == self.outputs(),
    {
    }

    pub open spec fn same_parameters(&self, other: Self) -> bool {
        &&& other.inputs() == self.inputs()
        &&& other.outputs() == self.outputs()
        &&& other.biases() == self.biases()
        &&& other.matrix() == self.matrix()
        &&& other.activation() == self.activation()
    }

    /// Creates a fully-connected layer. `scale` gives the value of a parameter.
    pub fn new<S: Fn(i8) -> T>(
        input_size: usize,
        output_size: usize,
        bias: &[i8],
        weights: &[i8],
        activation_function: ActivationFunction,
        scale: &S,
    ) -> (layer: Self)
        requires
            is_total::<T>(),
            forall|x: i8| call_requires(scale, (x,)),
            0 < output_size <= FULLY_CONNECTED_LAYER_MAX_UNITS,
            bias@.len() == output_size,
            weights@.len() == input_size * output_size,
        ensures
            layer.inv(),
            layer.inputs() == input_size,
            layer.outputs() == output_size,
            layer.activation() == activation_function,
            is_functional::<T>() ==> layer.values() == Seq::new(
                output_size as nat,
                |o: int| zero_of::<T>(),
            ),
            layer.matrix().len() == input_size * output_size,
            is_mapping(*scale) ==> {
                &&& layer.biases() == Seq::new(
                    output_size as nat,
                    |o: int| image(*scale, bias@[o]),
                )
                &&& forall|o: int, i: int|
                    #![trigger at(input_size as int, o, i)]
                    0 <= o < output_size && 0 <= i < input_size ==> layer.matrix()[at(
                        input_size as int,
                        o,
                        i,
                    )] == image(*scale, weights@[at(output_size as int, i, o)])
            },
    {
        proof {
            vstd::arithmetic::div_mod::lemma_mod_multiples_basic(
                input_size as int,
                output_size as int,
            );
            vstd::arithmetic::div_mod::lemma_div_multiples_vanish(
                input_size as int,
                output_size as int,
            );
            assert(input_size * output_size == output_size * input_size) by (nonlinear_arith);
        }
        FullyConnectedLayer {
            input_size,
            output_size,
            bias: get_scaled_params(bias, scale),
            weights: preprocess_weights(weights, output_size, scale),
            activation_function,
            output: zeros(output_size),
        }
    }

    pub fn input_size(&self) -> (size: usize)
        ensures
            size == self.inputs(),
    {
        self.input_size
    }

    pub fn size(&self) -> (size: usize)
        ensures
            size == self.outputs(),
    {
        self.output_size
    }

    pub fn data(&self) -> (values: &[T])
        ensures
            values@ == self.values(),
    {
        self.output.as_slice()
    }

    pub fn output(&self) -> (values: &[T])
        ensures
            values@ == self.values(),
    {
        self.output.as_slice()
    }

    /// The activation of a unit: that of its bias plus its weighted inputs.
    pub open spec fn unit<F: Fn(T) -> T, G: Fn(T) -> T>(
        &self,
        input: Seq<T>,
        tansig: F,
        sigmoid: G,
        o: int,
    ) -> T {
        let x = plus(
            self.biases()[o],
            dot(input, matrix_row(self.matrix(), self.inputs() as int, o), input.len() as int),
        );
        match self.activation() {
            ActivationFunction::TansigApproximated => image(tansig, x),
            ActivationFunction::SigmoidApproximated => image(sigmoid, x),
        }
    }

    /// Of two layers that differ in the bias of a unit only, the one with the larger bias
    /// gives no smaller a value, if the activations rise.
    pub proof fn law_larger_bias<F: Fn(T) -> T, G: Fn(T) -> T>(
        &self,
        other: &Self,
        input: Seq<T>,
        tansig: F,
        sigmoid: G,
        o: int,
    )
        requires
            is_ordered::<T>(),
            sums_keep_order::<T>(),
            is_rising(|a: T| image(tansig, a)),
            is_rising(|a: T| image(sigmoid, a)),
            other.inputs() == self.inputs(),
            other.matrix() == self.matrix(),
            other.activation() == self.activation(),
            at_most(self.biases()[o], other.biases()[o]),
            ({
                let weighted = dot(
                    input,
                    matrix_row(self.matrix(), self.inputs() as int, o),
                    input.len() as int,
                );
                &&& is_number(plus(self.biases()[o], weighted))
                &&& is_number(plus(other.biases()[o], weighted))
            }),
        ensures
            at_most(
                self.unit(input, tansig, sigmoid, o),
                other.unit(input, tansig, sigmoid, o),
            ),
    {
        let weighted = dot(
            input,
            matrix_row(self.matrix(), self.inputs() as int, o),
            input.len() as int,
        );
        lemma_sums(self.biases()[o], other.biases()[o], weighted, weighted);
        let a = plus(self.biases()[o], weighted);
        let b = plus(other.biases()[o], weighted);
        let f = |a: T| image(tansig, a);
        let g = |a: T| image(sigmoid, a);
        assert(at_most(f(a), f(b)));
        assert(at_most(g(a), g(b)));
    }

    /// A unit whose inputs but one are weighted to zero gives the activation of its bias
    /// plus the one weighted input.
    pub proof fn law_single_input<F: Fn(T) -> T, G: Fn(T) -> T>(
        &self,
        input: Seq<T>,
        tansig: F,
        sigmoid: G,
        o: int,
        i: int,
    ) -> (x: T)
        requires
            is_ordered::<T>(),
            sums_keep_order::<T>(),
            self.inv(),
            input.len() == self.inputs(),
            0 <= o < self.outputs(),
            0 <= i < self.inputs(),
            forall|k: int|
                0 <= k < self.inputs() && k != i ==> same(
                    times(
                        #[trigger] input[k],
                        self.matrix()[o * self.inputs() + k],
                    ),
                    zero_of(),
                ),
            is_number(times(input[i], self.matrix()[o * self.inputs() + i])),
            is_number(
                dot(
                    input,
                    matrix_row(self.matrix(), self.inputs() as int, o),
                    input.len() as int,
                ),
            ),
        ensures
            same(x, times(input[i], self.matrix()[o * self.inputs() + i])),
            self.activation() is TansigApproximated ==> self.unit(input, tansig, sigmoid, o)
                == image(tansig, plus(self.biases()[o], x)),
            self.activation() is SigmoidApproximated ==> self.unit(input, tansig, sigmoid, o)
                == image(sigmoid, plus(self.biases()[o], x)),
    {
        let width = self.inputs() as int;
        let row = matrix_row(self.matrix(), width, o);
        lemma_row_len(self.outputs() as int, width, o);
        assert forall|k: int| 0 <= k < width implies #[trigger] row[k] == self.matrix()[o * width
            + k] by {
            lemma_at(width, self.outputs() as int, o, k);
        }
        assert forall|k: int| 0 <= k < input.len() && k != i implies same(
            #[trigger] times(input[k], row[k]),
            zero_of(),
        ) by {
            assert(row[k] == self.matrix()[o * width + k]);
            assert(same(times(input[k], self.matrix()[o * self.inputs() + k]), zero_of()));
        }
        assert(row[i] == self.matrix()[o * width + i]);
        law_dot_counts_every_pair(input, row, input.len() as int, i);
        dot(input, row, input.len() as int)
    }

    /// Computes the fully-connected layer output.
    pub fn compute_output<F: Fn(T) -> T, G: Fn(T) -> T>(
        &mut self,
        input: &[T],
        tansig: &F,
        sigmoid: &G,
    )
        requires
            is_total::<T>(),
            old(self).inv(),
            forall|a: T| call_requires(tansig, (a,)),
            forall|a: T| call_requires(sigmoid, (a,)),
            input@.len() == old(self).inputs(),
        ensures
            final(self).inv(),
            old(self).same_parameters(*final(self)),
            final(self).values().len() == old(self).outputs(),
            is_functional::<T>() && is_mapping(*tansig) && is_mapping(*sigmoid) ==> final(
                self).values() == Seq::new(
                old(self).outputs(),
                |o: int| old(self).unit(input@, *tansig, *sigmoid, o),
            ),
            is_functional::<T>() ==> forall|o: int|
                #![trigger final(self).values()[o]]
                0 <= o < old(self).outputs() ==> {
                    let x = plus(
                        old(self).biases()[o],
                        dot(
                            input@,
                            old(self).matrix().subrange(
                                o * old(self).inputs(),
                                (o + 1) * old(self).inputs(),
                            ),
                            input@.len() as int,
                        ),
                    );
                    match old(self).activation() {
                        ActivationFunction::TansigApproximated => call_ensures(
                            *tansig,
                            (x,),
                            final(self).values()[o],
                        ),
                        ActivationFunction::SigmoidApproximated => call_ensures(
                            *sigmoid,
                            (x,),
                            final(self).values()[o],
                        ),
                    }
                },
    {
        let ghost before = *self;
        let ghost exact = is_functional::<T>() && is_mapping(*tansig) && is_mapping(*sigmoid);
        let mut o: usize = 0;
        while o < self.output_size
            invariant
                is_total::<T>(),
                self.inv(),
                before.inv(),
                before.same_parameters(*self),
                forall|a: T| call_requires(tansig, (a,)),
                forall|a: T| call_requires(sigmoid, (a,)),
                input@.len() == self.input_size,
                o <= self.output_size,
                exact == (is_functional::<T>() && is_mapping(*tansig) && is_mapping(*sigmoid)),
                is_functional::<T>() ==> forall|k: int|
                    #![trigger self.output@[k]]
                    0 <= k < o ==> {
                        let x = plus(
                            before.biases()[k],
                            dot(
                                input@,
                                matrix_row(before.matrix(), before.inputs() as int, k),
                                input@.len() as int,
                            ),
                        );
                        match before.activation() {
                            ActivationFunction::TansigApproximated => call_ensures(
                                *tansig,
                                (x,),
                                self.output@[k],
                            ),
                            ActivationFunction::SigmoidApproximated => call_ensures(
                                *sigmoid,
                                (x,),
                                self.output@[k],
                            ),
                        }
                    },
                exact ==> forall|k: int|
                    0 <= k < o ==> #[trigger] self.output@[k] == before.unit(
                        input@,
                        *tansig,
                        *sigmoid,
                        k,
                    ),
            decreases self.output_size - o,
        {
            proof {
                lemma_row_len(self.output_size as int, self.input_size as int, o as int);
                assert(self.weights@.subrange(0, self.output_size * self.input_size)
                    =~= self.weights@);
            }
            let row = row_of(&self.weights, 0, self.input_size, self.output_size, o);
            let x = sum(self.bias[o], dot_product(input, row));
            let value = match self.activation_function {
                ActivationFunction::TansigApproximated => apply(tansig, x),
                ActivationFunction::SigmoidApproximated => apply(sigmoid, x),
            };
            self.output[o] = value;
            o = o + 1;
        }
        proof {
            if exact {
                assert(self.values() =~= Seq::new(
                    before.outputs(),
                    |o: int| before.unit(input@, *tansig, *sigmoid, o),
                ));
            }
        }
    }
}

pub proof fn lemma_row_len(height: int, width: int, o: int)
    requires
        0 <= o < height,
        0 <= width,
    ensures
        0 <= o * width,
        (o + 1) * width - o * width == width,
        (o + 1) * width <= height * width,
{
    assert(0 <= o * width) by (nonlinear_arith)
        requires
            0 <= o,
            0 <= width,
    ;
    assert((o + 1) * width == o * width + width) by (nonlinear_arith);
    assert((o + 1) * width <= height * width) by (nonlinear_arith)
        requires
            o + 1 <= height,
            0 <= width,
    ;
}

} // verus!
