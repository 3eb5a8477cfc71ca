//! Gated recurrent unit (GRU) layer.
use crate::audio_processing::agc2::rnn_vad::rnn_fc::{at, lemma_at, lemma_row_len, matrix_row, row_of};
use crate::audio_processing::arithmetic::{
    apply, difference, dot, dot_product, image, is_functional, is_mapping, is_total, larger,
    at_most, maximum, minus, plus, product, same, sum, times, zero, zero_of, Real,
};
use crate::audio_processing::ordered::{
    is_number, is_one, is_ordered, lemma_adds_nothing, lemma_dot_of_zeros, lemma_order,
    lemma_products, lemma_same_dot, lemma_sums, products_keep_order, sums_keep_order,
};
use vstd::prelude::*;

verus! {

/// Update, reset, output.
pub const NUM_GRU_GATES: usize = 3;

/// Maximum number of units for a GRU layer.
pub const GRU_LAYER_MAX_UNITS: usize = 24;

/// Position of an entry of a tensor with `gates` planes of `outputs` columns,
/// stored row by row and, in a row, plane by plane.
pub open spec fn source_index(outputs: int, i: int, gate: int, o: int) -> int {
    at(NUM_GRU_GATES * outputs, i, at(outputs, gate, o))
}

/// Position of the same entry plane by plane and, in a plane, column by column of
/// `n` entries.
pub open spec fn target_index(n: int, outputs: int, gate: int, o: int, i: int) -> int {
    at(n * outputs, gate, at(n, o, i))
}

proof fn lemma_source_index(n: int, outputs: int, i: int, gate: int, o: int)
    requires
        0 <= i < n,
        0 <= gate < NUM_GRU_GATES,
        0 <= o < outputs,
    ensures
        0 <= at(outputs, gate, o) < NUM_GRU_GATES * outputs,
        0 <= gate * outputs,
        0 <= i * (NUM_GRU_GATES * outputs) <= source_index(outputs, i, gate, o) < n * (NUM_GRU_GATES
            * outputs),
{
    lemma_at(outputs, NUM_GRU_GATES as int, gate, o);
    lemma_at(NUM_GRU_GATES * outputs, n, i, at(outputs, gate, o));
}

proof fn lemma_target_index(n: int, outputs: int, gate: int, o: int, i: int)
    requires
        0 <= i < n,
        0 <= gate < NUM_GRU_GATES,
        0 <= o < outputs,
    ensures
        target_index(n, outputs, gate, o, i) == (gate * outputs + o) * n + i,
{
    assert(gate * (n * outputs) + (o * n + i) == (gate * outputs + o) * n + i) by (nonlinear_arith);
}

/// Scales the tensor and re-arranges it to gate-major, then output-major layout.
pub fn preprocess_gru_tensor<T: Real, S: Fn(i8) -> T>(
    tensor_src: &[i8],
    output_size: usize,
    scale: &S,
) -> (tensor_dst: Vec<T>)
    requires
        forall|x: i8| call_requires(scale, (x,)),
        0 < output_size <= GRU_LAYER_MAX_UNITS,
        tensor_src@.len() % (NUM_GRU_GATES * output_size) as nat == 0,
    ensures
        tensor_dst@.len() == tensor_src@.len(),
        is_mapping(*scale) ==> ({
            let n = tensor_src@.len() as int / (NUM_GRU_GATES * output_size);
            forall|gate: int, o: int, i: int|
                #![trigger target_index(n, output_size as int, gate, o, i)]
                0 <= gate < NUM_GRU_GATES && 0 <= o < output_size && 0 <= i < n
                    ==> tensor_dst@[target_index(n, output_size as int, gate, o, i)] == image(
                    *scale,
                    tensor_src@[source_index(output_size as int, i, gate, o)],
                )
        }),
{
    let stride_src: usize = NUM_GRU_GATES * output_size;
    let len: usize = tensor_src.len();
    let n: usize = len / stride_src;
    let num_columns: usize = stride_src;
    proof {
        vstd::arithmetic::div_mod::lemma_fundamental_div_mod(len as int, stride_src as int);
        assert(stride_src * n == n * stride_src) by (nonlinear_arith);
        assert(len == n * stride_src);
        assert(0 * n == 0) by (nonlinear_arith);
    }
    let mut tensor_dst: Vec<T> = Vec::new();
    // Column `c` is output `c % output_size` of gate `c / output_size`.
    let mut column: usize = 0;
    while column < num_columns
        invariant
            forall|x: i8| call_requires(scale, (x,)),
            len == tensor_src@.len(),
            num_columns == stride_src,
            len == n * stride_src,
            column <= num_columns,
            tensor_dst@.len() == column * n,
            is_mapping(*scale) ==> forall|c: int, i: int|
                #![trigger at(n as int, c, i)]
                0 <= c < column && 0 <= i < n ==> tensor_dst@[at(n as int, c, i)] == image(
                    *scale,
                    tensor_src@[at(stride_src as int, i, c)],
                ),
        decreases num_columns - column,
    {
        let mut i: usize = 0;
        while i < n
            invariant
                forall|x: i8| call_requires(scale, (x,)),
                len == tensor_src@.len(),
                num_columns == stride_src,
                len == n * stride_src,
                column < num_columns,
                i <= n,
                tensor_dst@.len() == column * n + i,
                is_mapping(*scale) ==> forall|c: int, j: int|
                    #![trigger at(n as int, c, j)]
                    0 <= c < column && 0 <= j < n ==> tensor_dst@[at(n as int, c, j)] == image(
                        *scale,
                        tensor_src@[at(stride_src as int, j, c)],
                    ),
                is_mapping(*scale) ==> forall|j: int|
                    #![trigger at(n as int, column as int, j)]
                    0 <= j < i ==> tensor_dst@[at(n as int, column as int, j)] == image(
                        *scale,
                        tensor_src@[at(stride_src as int, j, column as int)],
                    ),
            decreases n - i,
        {
            proof {
                lemma_at(stride_src as int, n as int, i as int, column as int);
                assert forall|c: int, j: int|
                    #![trigger at(n as int, c, j)]
                    0 <= c < column && 0 <= j < n implies at(n as int, c, j) < tensor_dst@.len() by {
                    lemma_at(n as int, column as int, c, j);
                }
            }
            tensor_dst.push(apply(scale, tensor_src[i * stride_src + column]));
            i = i + 1;
        }
        assert((column + 1) * n == column * n + n) by (nonlinear_arith);
        column = column + 1;
    }
    proof {
        assert(stride_src * n == n * stride_src) by (nonlinear_arith);
        if is_mapping(*scale) {
            assert forall|gate: int, o: int, i: int|
                #![trigger target_index(n as int, output_size as int, gate, o, i)]
                0 <= gate < NUM_GRU_GATES && 0 <= o < output_size && 0 <= i
                    < n implies tensor_dst@[target_index(
                n as int,
                output_size as int,
                gate,
                o,
                i,
            )] == image(*scale, tensor_src@[source_index(output_size as int, i, gate, o)]) by {
                let c = at(output_size as int, gate, o);
                lemma_source_index(n as int, output_size as int, i, gate, o);
                lemma_target_index(n as int, output_size as int, gate, o, i);
                assert(target_index(n as int, output_size as int, gate, o, i) == at(n as int, c, i));
            }
        }
    }
    tensor_dst
}

/// Parameters of a layer: for each gate one bias per output, and weights by rows
/// of one per input or per output.
pub struct GruParameters<T> {
    pub inputs: nat,
    pub outputs: nat,
    pub bias: Seq<T>,
    pub weights: Seq<T>,
    pub recurrent_weights: Seq<T>,
    pub one: T,
}

proof fn lemma_gate_row<T>(weights: Seq<T>, outputs: int, inputs: int, gate: int, o: int)
    requires
        0 <= gate < 3,
        0 <= o < outputs,
        0 <= inputs,
        weights.len() == 3 * (outputs * inputs),
    ensures
        forall|i: int|
            0 <= i < inputs ==> #[trigger] matrix_row(
                weights.subrange(gate * (outputs * inputs), (gate + 1) * (outputs * inputs)),
                inputs,
                o,
            )[i] == weights[gate * (outputs * inputs) + (o * inputs + i)],
{
    let size = outputs * inputs;
    assert(0 <= o * inputs && (o + 1) * inputs <= size) by (nonlinear_arith)
        requires
            0 <= o < outputs,
            0 <= inputs,
            size == outputs * inputs,
    ;
    assert((o + 1) * inputs == o * inputs + inputs) by (nonlinear_arith);
    assert(gate == 0 || gate == 1 || gate == 2);
}

impl<T: Real> GruParameters<T> {
    pub open spec fn input_row(self, gate: int, o: int) -> Seq<T> {
        matrix_row(
            self.weights.subrange(
                gate * (self.outputs * self.inputs),
                (gate + 1) * (self.outputs * self.inputs),
            ),
            self.inputs as int,
            o,
        )
    }

    pub open spec fn recurrent_row(self, gate: int, o: int) -> Seq<T> {
        matrix_row(
            self.recurrent_weights.subrange(
                gate * (self.outputs * self.outputs),
                (gate + 1) * (self.outputs * self.outputs),
            ),
            self.outputs as int,
            o,
        )
    }

    /// Bias, weighted inputs and weighted states of a unit, added up.
    pub open spec fn weighted(self, gate: int, o: int, input: Seq<T>, state: Seq<T>) -> T {
        plus(
            plus(
                self.bias[gate * self.outputs + o],
                dot(input, self.input_row(gate, o), input.len() as int),
            ),
            dot(state, self.recurrent_row(gate, o), state.len() as int),
        )
    }

    /// Output of the update (0) or reset (1) gate.
    pub open spec fn gate_output<G: Fn(T) -> T>(
        self,
        sigmoid: G,
        gate: int,
        input: Seq<T>,
        state: Seq<T>,
    ) -> Seq<T> {
        Seq::new(
            self.outputs,
            |o: int| image(sigmoid, self.weighted(gate, o, input, state)),
        )
    }

    /// The next state: a mix, by the update gate, of the state and of the
    /// rectified output gate, which sees the state through the reset gate.
    pub open spec fn next_state<G: Fn(T) -> T>(
        self,
        sigmoid: G,
        input: Seq<T>,
        state: Seq<T>,
    ) -> Seq<T> {
        let update = self.gate_output(sigmoid, 0, input, state);
        let reset = self.gate_output(sigmoid, 1, input, state);
        let reset_x_state = Seq::new(self.outputs, |o: int| times(state[o], reset[o]));
        Seq::new(
            self.outputs,
            |o: int|
                plus(
                    times(update[o], state[o]),
                    times(
                        minus(self.one, update[o]),
                        larger(self.weighted(2, o, input, reset_x_state), zero_of()),
                    ),
                ),
        )
    }

    /// What a gate sees is its bias, each input by its weight and each state by its
    /// recurrent weight, where the weights of a gate stand unit by unit, and those of the
    /// gates one after the other.
    pub proof fn law_weighted(
        self,
        gate: int,
        o: int,
        input: Seq<T>,
        state: Seq<T>,
        input_weights: Seq<T>,
        state_weights: Seq<T>,
    )
        requires
            0 <= gate < 3,
            0 <= o < self.outputs,
            input.len() == self.inputs,
            state.len() == self.outputs,
            self.weights.len() == 3 * (self.outputs * self.inputs),
            self.recurrent_weights.len() == 3 * (self.outputs * self.outputs),
            forall|i: int|
                0 <= i < self.inputs ==> #[trigger] input_weights[i] == self.weights[gate * (
                self.outputs * self.inputs) + (o * self.inputs + i)],
            forall|i: int|
                0 <= i < self.outputs ==> #[trigger] state_weights[i]
                    == self.recurrent_weights[gate * (self.outputs * self.outputs) + (o
                    * self.outputs + i)],
        ensures
            self.weighted(gate, o, input, state) == plus(
                plus(
                    self.bias[gate * self.outputs + o],
                    dot(input, input_weights, self.inputs as int),
                ),
                dot(state, state_weights, self.outputs as int),
            ),
    {
        lemma_gate_row(self.weights, self.outputs as int, self.inputs as int, gate, o);
        lemma_gate_row(self.recurrent_weights, self.outputs as int, self.outputs as int, gate, o);
        lemma_same_dot(input, self.input_row(gate, o), input, input_weights, self.inputs as int);
        lemma_same_dot(
            state,
            self.recurrent_row(gate, o),
            state,
            state_weights,
            self.outputs as int,
        );
    }

    /// A gate sees a larger bias as no smaller a sum.
    pub proof fn law_larger_bias(
        self,
        other: Self,
        gate: int,
        o: int,
        input: Seq<T>,
        state: Seq<T>,
    )
        requires
            is_ordered::<T>(),
            sums_keep_order::<T>(),
            other == (GruParameters { bias: other.bias, ..self }),
            at_most(self.bias[gate * self.outputs + o], other.bias[gate * self.outputs + o]),
            is_number(self.weighted(gate, o, input, state)),
            is_number(other.weighted(gate, o, input, state)),
        ensures
            at_most(
                self.weighted(gate, o, input, state),
                other.weighted(gate, o, input, state),
            ),
    {
        let a = self.bias[gate * self.outputs + o];
        let b = other.bias[gate * self.outputs + o];
        let x = dot(input, self.input_row(gate, o), input.len() as int);
        let y = dot(state, self.recurrent_row(gate, o), state.len() as int);
        lemma_sums(plus(a, x), y, x, y);
        lemma_sums(plus(b, x), y, x, y);
        lemma_sums(a, b, x, x);
        lemma_sums(plus(a, x), plus(b, x), y, y);
    }

    /// What the output gate has to offer is not negative, and where the reset gate shuts
    /// every unit off, it does not see the state.
    pub proof fn law_reset_gate<G: Fn(T) -> T>(
        self,
        sigmoid: G,
        input: Seq<T>,
        state: Seq<T>,
        o: int,
    ) -> (offered: T)
        requires
            is_ordered::<T>(),
            sums_keep_order::<T>(),
            products_keep_order::<T>(),
            0 <= o < self.outputs,
            state.len() == self.outputs,
            is_number(self.next_state(sigmoid, input, state)[o]),
        ensures
            at_most(zero_of(), offered),
            self.next_state(sigmoid, input, state)[o] == plus(
                times(image(sigmoid, self.weighted(0, o, input, state)), state[o]),
                times(
                    minus(self.one, image(sigmoid, self.weighted(0, o, input, state))),
                    offered,
                ),
            ),
            (forall|k: int|
                0 <= k < self.outputs ==> {
                    &&& same(image(sigmoid, #[trigger] self.weighted(1, k, input, state)), zero_of())
                    &&& is_number(
                        times(
                            times(state[k], image(sigmoid, self.weighted(1, k, input, state))),
                            self.recurrent_row(2, o)[k],
                        ),
                    )
                }) && is_number(
                self.weighted(
                    2,
                    o,
                    input,
                    Seq::new(
                        self.outputs,
                        |k: int| times(
                            state[k],
                            image(sigmoid, self.weighted(1, k, input, state)),
                        ),
                    ),
                ),
            ) ==> ({
                let unseen = plus(
                    self.bias[2 * self.outputs + o],
                    dot(input, self.input_row(2, o), input.len() as int),
                );
                same(offered, unseen) || (same(offered, zero_of()) && at_most(unseen, zero_of()))
            }),
    {
        let zero = zero_of::<T>();
        let update = self.gate_output(sigmoid, 0, input, state);
        let reset = self.gate_output(sigmoid, 1, input, state);
        let seen = Seq::new(self.outputs, |o: int| times(state[o], reset[o]));
        let x = self.weighted(2, o, input, seen);
        let offered = larger(x, zero);
        lemma_sums(
            times(update[o], state[o]),
            times(minus(self.one, update[o]), offered),
            zero,
            zero,
        );
        lemma_products(minus(self.one, update[o]), offered, zero);
        lemma_order(zero, x, zero);
        lemma_order(x, zero, x);
        let unseen = plus(
            self.bias[2 * self.outputs + o],
            dot(input, self.input_row(2, o), input.len() as int),
        );
        let recurrent = dot(seen, self.recurrent_row(2, o), seen.len() as int);
        assert(seen == Seq::new(
            self.outputs,
            |k: int| times(state[k], image(sigmoid, self.weighted(1, k, input, state))),
        ));
        if (forall|k: int|
            0 <= k < self.outputs ==> {
                &&& same(image(sigmoid, #[trigger] self.weighted(1, k, input, state)), zero_of())
                &&& is_number(
                    times(
                        times(state[k], image(sigmoid, self.weighted(1, k, input, state))),
                        self.recurrent_row(2, o)[k],
                    ),
                )
            }) && is_number(x) {
            assert forall|k: int| 0 <= k < seen.len() implies same(
                #[trigger] times(seen[k], self.recurrent_row(2, o)[k]),
                zero,
            ) by {
                assert(reset[k] == image(sigmoid, self.weighted(1, k, input, state)));
                lemma_products(seen[k], self.recurrent_row(2, o)[k], zero);
                lemma_products(state[k], reset[k], zero);
            }
            lemma_sums(unseen, recurrent, zero, zero);
            lemma_dot_of_zeros(seen, self.recurrent_row(2, o), seen.len() as int);
            lemma_adds_nothing(unseen, recurrent);
            lemma_order(unseen, x, zero);
            lemma_order(unseen, zero, zero);
            lemma_order(zero, zero, zero);
        }
        offered
    }

    /// An update gate of one keeps the state of a unit; one of zero gives what the output
    /// gate has to offer.
    pub proof fn law_update_gate<G: Fn(T) -> T>(
        self,
        sigmoid: G,
        input: Seq<T>,
        state: Seq<T>,
        o: int,
    ) -> (offered: T)
        requires
            is_ordered::<T>(),
            sums_keep_order::<T>(),
            products_keep_order::<T>(),
            is_one(self.one),
            0 <= o < self.outputs,
            state.len() == self.outputs,
            is_number(self.next_state(sigmoid, input, state)[o]),
        ensures
            at_most(zero_of(), offered),
            image(sigmoid, self.weighted(0, o, input, state)) == self.one ==> same(
                self.next_state(sigmoid, input, state)[o],
                state[o],
            ),
            image(sigmoid, self.weighted(0, o, input, state)) == zero_of::<T>() ==> same(
                self.next_state(sigmoid, input, state)[o],
                times(minus(self.one, zero_of()), offered),
            ),
    {
        let zero = zero_of::<T>();
        let offered = self.law_reset_gate(sigmoid, input, state, o);
        let update = image(sigmoid, self.weighted(0, o, input, state));
        let kept = times(update, state[o]);
        let share = minus(self.one, update);
        let new = times(share, offered);
        lemma_sums(kept, new, zero, zero);
        lemma_products(update, state[o], zero);
        lemma_products(share, offered, zero);
        lemma_order(zero, self.one, zero);
        lemma_order(zero, zero, zero);
        lemma_order(self.one, self.one, self.one);
        lemma_sums(self.one, self.one, zero, zero);
        if update == self.one {
            lemma_products(state[o], self.one, zero);
            lemma_adds_nothing(kept, new);
        }
        if update == zero {
            lemma_adds_nothing(new, kept);
        }
        offered
    }
}

/// Recurrent layer with gated recurrent units (GRUs).
#[derive(Debug, Clone)]
pub struct GatedRecurrentLayer<T: Real> {
    input_size: usize,
    output_size: usize,
    bias: Vec<T>,
    weights: Vec<T>,
    recurrent_weights: Vec<T>,
    one: T,
    state: Vec<T>,
}

proof fn lemma_strides(gate: int, stride: int)
    requires
        0 <= gate < NUM_GRU_GATES,
        0 <= stride,
    ensures
        0 <= gate * stride,
        (gate + 1) * stride == gate * stride + stride,
        (gate + 1) * stride <= NUM_GRU_GATES * stride,
{
    lemma_row_len(NUM_GRU_GATES as int, stride, gate);
}

impl<T: Real> GatedRecurrentLayer<T> {
    pub closed spec fn parameters(&self) -> GruParameters<T> {
        GruParameters {
            inputs: self.input_size as nat,
            outputs: self.output_size as nat,
            bias: self.bias@,
            weights: self.weights@,
            recurrent_weights: self.recurrent_weights@,
            one: self.one,
        }
    }

    /// The state, which is the output.
    pub closed spec fn values(&self) -> Seq<T> {
        self.state@
    }

    pub closed spec fn inv(&self) -> bool {
        &&& 0 < self.output_size <= GRU_LAYER_MAX_UNITS
        &&& self.bias@.len() == NUM_GRU_GATES * self.output_size
        &&& self.weights@.len() == NUM_GRU_GATES * (self.output_size * self.input_size)
        &&& self.recurrent_weights@.len() == NUM_GRU_GATES * (self.output_size * self.output_size)
        &&& self.state@.len() == self.output_size
    }

    /// Creates a GRU layer. `scale` gives the value of a parameter.
    pub fn new<S: Fn(i8) -> T>(
        input_size: usize,
        output_size: usize,
        bias: &[i8],
        weights: &[i8],
        recurrent_weights: &[i8],
        scale: &S,
        one: T,
    ) -> (layer: Self)
        requires
            is_total::<T>(),
            forall|x: i8| call_requires(scale, (x,)),
            0 < output_size <= GRU_LAYER_MAX_UNITS,
            bias@.len() == NUM_GRU_GATES * output_size,
            weights@.len() == input_size * (NUM_GRU_GATES * output_size),
            recurrent_weights@.len() == output_size * (NUM_GRU_GATES * output_size),
        ensures
            layer.inv(),
            layer.parameters().inputs == input_size,
            layer.parameters().outputs == output_size,
            layer.parameters().one == one,
            layer.values().len() == output_size,
            is_functional::<T>() ==> layer.values() == Seq::new(
                output_size as nat,
                |o: int| zero_of::<T>(),
            ),
            is_mapping(*scale) ==> {
                &&& forall|gate: int, o: int|
                    #![trigger target_index(1, output_size as int, gate, o, 0)]
                    0 <= gate < NUM_GRU_GATES && 0 <= o < output_size
                        ==> layer.parameters().bias[target_index(
                        1,
                        output_size as int,
                        gate,
                        o,
                        0,
                    )] == image(*scale, bias@[source_index(output_size as int, 0, gate, o)])
                &&& forall|gate: int, o: int, i: int|
                    #![trigger target_index(input_size as int, output_size as int, gate, o, i)]
                    0 <= gate < NUM_GRU_GATES && 0 <= o < output_size && 0 <= i < input_size
                        ==> layer.parameters().weights[target_index(
                        input_size as int,
                        output_size as int,
                        gate,
                        o,
                        i,
                    )] == image(*scale, weights@[source_index(output_size as int, i, gate, o)])
                &&& forall|gate: int, o: int, i: int|
                    #![trigger target_index(output_size as int, output_size as int, gate, o, i)]
                    0 <= gate < NUM_GRU_GATES && 0 <= o < output_size && 0 <= i < output_size
                        ==> layer.parameters().recurrent_weights[target_index(
                        output_size as int,
                        output_size as int,
                        gate,
                        o,
                        i,
                    )] == image(
                        *scale,
                        recurrent_weights@[source_index(output_size as int, i, gate, o)],
                    )
            },
    {
        let ghost stride = NUM_GRU_GATES * output_size;
        proof {
            vstd::arithmetic::div_mod::lemma_mod_multiples_basic(1, stride);
            vstd::arithmetic::div_mod::lemma_mod_multiples_basic(input_size as int, stride);
            vstd::arithmetic::div_mod::lemma_mod_multiples_basic(output_size as int, stride);
            vstd::arithmetic::div_mod::lemma_div_multiples_vanish(1, stride);
            vstd::arithmetic::div_mod::lemma_div_multiples_vanish(input_size as int, stride);
            vstd::arithmetic::div_mod::lemma_div_multiples_vanish(output_size as int, stride);
            assert(1 * stride == stride);
            assert(input_size * (NUM_GRU_GATES * output_size) == NUM_GRU_GATES * (output_size
                * input_size)) by (nonlinear_arith);
            assert(output_size * (NUM_GRU_GATES * output_size) == NUM_GRU_GATES * (output_size
                * output_size)) by (nonlinear_arith);
        }
        GatedRecurrentLayer {
            input_size,
            output_size,
            bias: preprocess_gru_tensor(bias, output_size, scale),
            weights: preprocess_gru_tensor(weights, output_size, scale),
            recurrent_weights: preprocess_gru_tensor(recurrent_weights, output_size, scale),
            one,
            state: zeros(output_size),
        }
    }

    pub fn input_size(&self) -> (size: usize)
        ensures
            size == self.parameters().inputs,
    {
        self.input_size
    }

    pub fn size(&self) -> (size: usize)
        ensures
            size == self.parameters().outputs,
    {
        self.output_size
    }

    pub fn data(&self) -> (values: &[T])
        ensures
            values@ == self.values(),
    {
        self.state.as_slice()
    }

    pub fn output(&self) -> (values: &[T])
        ensures
            values@ == self.values(),
    {
        self.state.as_slice()
    }

    pub proof fn lemma_values(&self)
        requires
            self.inv(),
        ensures
            self.values().len() == self.parameters().outputs,
    {
    }

    /// Resets the GRU state.
    pub fn reset(&mut self)
        requires
            is_total::<T>(),
            old(self).inv(),
        ensures
            final(self).inv(),
            final(self).parameters() == old(self).parameters(),
            final(self).values().len() == old(self).values().len(),
            is_functional::<T>() ==> final(self).values() == Seq::new(
                old(self).parameters().outputs,
                |o: int| zero_of::<T>(),
            ),
    {
        self.state = zeros(self.output_size);
    }

    /// Bias, weighted inputs and weighted states of a unit.
    fn weighted_sum(&self, gate: usize, o: usize, input: &[T], state: &[T]) -> (x: T)
        requires
            is_total::<T>(),
            self.inv(),
            gate < NUM_GRU_GATES,
            o < self.parameters().outputs,
            input@.len() == self.parameters().inputs,
            state@.len() == self.parameters().outputs,
        ensures
            is_functional::<T>() ==> x == self.parameters().weighted(
                gate as int,
                o as int,
                input@,
                state@,
            ),
    {
        let ghost inputs = self.output_size * self.input_size;
        let ghost states = self.output_size * self.output_size;
        proof {
            assert(0 <= inputs) by (nonlinear_arith)
                requires
                    inputs == self.output_size * self.input_size,
            ;
            assert(0 <= states <= 576) by (nonlinear_arith)
                requires
                    states == self.output_size * self.output_size,
                    self.output_size <= 24,
            ;
            lemma_strides(gate as int, inputs);
            lemma_strides(gate as int, states);
            lemma_strides(gate as int, self.output_size as int);
            lemma_row_len(self.output_size as int, self.input_size as int, o as int);
            lemma_row_len(self.output_size as int, self.output_size as int, o as int);
            assert(self.weights.len() <= usize::MAX);
            assert(inputs <= NUM_GRU_GATES * inputs);
        }
        let bias = self.bias[gate * self.output_size + o];
        let stride_weights: usize = self.output_size * self.input_size;
        let stride_recurrent_weights: usize = self.output_size * self.output_size;
        let row = row_of(
            &self.weights,
            gate * stride_weights,
            self.input_size,
            self.output_size,
            o,
        );
        let recurrent_row = row_of(
            &self.recurrent_weights,
            gate * stride_recurrent_weights,
            self.output_size,
            self.output_size,
            o,
        );
        sum(sum(bias, dot_product(input, row)), dot_product(state, recurrent_row))
    }

    /// Output of the update or reset gate.
    fn compute_update_reset_gate<G: Fn(T) -> T>(
        &self,
        gate: usize,
        input: &[T],
        sigmoid: &G,
    ) -> (output: Vec<T>)
        requires
            is_total::<T>(),
            self.inv(),
            forall|a: T| call_requires(sigmoid, (a,)),
            gate < NUM_GRU_GATES,
            input@.len() == self.parameters().inputs,
        ensures
            output@.len() == self.parameters().outputs,
            is_functional::<T>() && is_mapping(*sigmoid) ==> output@
                == self.parameters().gate_output(*sigmoid, gate as int, input@, self.values()),
    {
        let ghost exact = is_functional::<T>() && is_mapping(*sigmoid);
        let mut output: Vec<T> = Vec::new();
        let mut o: usize = 0;
        while o < self.output_size
            invariant
                is_total::<T>(),
                self.inv(),
                forall|a: T| call_requires(sigmoid, (a,)),
                gate < NUM_GRU_GATES,
                input@.len() == self.input_size,
                o <= self.output_size,
                output@.len() == o,
                exact == (is_functional::<T>() && is_mapping(*sigmoid)),
                exact ==> forall|k: int|
                    0 <= k < o ==> #[trigger] output@[k] == image(
                        *sigmoid,
                        self.parameters().weighted(gate as int, k, input@, self.state@),
                    ),
            decreases self.output_size - o,
        {
            let x = self.weighted_sum(gate, o, input, self.state.as_slice());
            output.push(apply(sigmoid, x));
            o = o + 1;
        }
        proof {
            if exact {
                assert(output@ =~= self.parameters().gate_output(
                    *sigmoid,
                    gate as int,
                    input@,
                    self.values(),
                ));
            }
        }
        output
    }

    /// Computes recurrent layer output and updates internal state.
    pub fn compute_output<G: Fn(T) -> T>(&mut self, input: &[T], sigmoid: &G)
        requires
            is_total::<T>(),
            old(self).inv(),
            forall|a: T| call_requires(sigmoid, (a,)),
            input@.len() == old(self).parameters().inputs,
        ensures
            final(self).inv(),
            final(self).parameters() == old(self).parameters(),
            final(self).values().len() == old(self).values().len(),
            is_functional::<T>() && is_mapping(*sigmoid) ==> final(self).values() == old(
                self).parameters().next_state(*sigmoid, input@, old(self).values()),
    {
        let ghost exact = is_functional::<T>() && is_mapping(*sigmoid);
        let ghost before = *self;
        let update = self.compute_update_reset_gate(0, input, sigmoid);
        let reset = self.compute_update_reset_gate(1, input, sigmoid);
        let mut reset_x_state: Vec<T> = Vec::new();
        let mut o: usize = 0;
        while o < self.output_size
            invariant
                is_total::<T>(),
                self.inv(),
                o <= self.output_size,
                reset@.len() == self.output_size,
                reset_x_state@.len() == o,
                is_functional::<T>() ==> forall|k: int|
                    0 <= k < o ==> #[trigger] reset_x_state@[k] == times(self.state@[k], reset@[k]),
            decreases self.output_size - o,
        {
            reset_x_state.push(product(self.state[o], reset[o]));
            o = o + 1;
        }
        let mut state: Vec<T> = Vec::new();
        let mut o: usize = 0;
        while o < self.output_size
            invariant
                is_total::<T>(),
                self.inv(),
                input@.len() == self.input_size,
                o <= self.output_size,
                update@.len() == self.output_size,
                reset_x_state@.len() == self.output_size,
                state@.len() == o,
                is_functional::<T>() ==> forall|k: int|
                    0 <= k < o ==> #[trigger] state@[k] == plus(
                        times(update@[k], self.state@[k]),
                        times(
                            minus(self.one, update@[k]),
                            larger(
                                self.parameters().weighted(2, k, input@, reset_x_state@),
                                zero_of(),
                            ),
                        ),
                    ),
            decreases self.output_size - o,
        {
            let x = self.weighted_sum(2, o, input, reset_x_state.as_slice());
            state.push(
                sum(
                    product(update[o], self.state[o]),
                    product(difference(self.one, update[o]), maximum(x, zero())),
                ),
            );
            o = o + 1;
        }
        self.state = state;
        proof {
            if exact {
                assert(reset_x_state@ =~= Seq::new(
                    before.parameters().outputs,
                    |o: int| times(before.values()[o], reset@[o]),
                ));
                assert(self.values() =~= before.parameters().next_state(
                    *sigmoid,
                    input@,
                    before.values(),
                ));
            }
        }
    }
}

/// A vector of zeros.
pub fn zeros<T: Real>(len: usize) -> (values: Vec<T>)
    requires
        is_total::<T>(),
    ensures
        values@.len() == len,
        is_functional::<T>() ==> values@ == Seq::new(len as nat, |o: int| zero_of::<T>()),
{
    let nothing: T = zero();
    let mut values: Vec<T> = Vec::new();
    let mut i: usize = 0;
    while i < len
        invariant
            i <= len,
            values@.len() == i,
            forall|k: int| 0 <= k < i ==> values@[k] == nothing,
        decreases len - i,
    {
        values.push(nothing);
        i = i + 1;
    }
    proof {
        if is_functional::<T>() {
            assert(values@ =~= Seq::new(len as nat, |o: int| zero_of::<T>()));
        }
    }
    values
}

} // verus!
