//! Recurrent network for voice activity detection.
use crate::audio_processing::agc2::rnn_vad::rnn_fc::{ActivationFunction, FullyConnectedLayer};
use crate::audio_processing::agc2::rnn_vad::rnn_gru::GatedRecurrentLayer;
use crate::audio_processing::arithmetic::{
    at_most, dot, image, is_functional, is_mapping, is_total, plus, zero, zero_of, Real,
};
use crate::audio_processing::ordered::{is_exact, is_ordered, is_rising, sums_keep_order};
use vstd::prelude::*;

verus! {

/// Recurrent network: a dense layer, a recurrent one, and a dense one with a
/// single output.
#[derive(Debug, Clone)]
pub struct RnnVad<T: Real> {
    input: FullyConnectedLayer<T>,
    hidden: GatedRecurrentLayer<T>,
    output: FullyConnectedLayer<T>,
}

impl<T: Real> RnnVad<T> {
    pub closed spec fn input_layer(&self) -> FullyConnectedLayer<T> {
        self.input
    }

    pub closed spec fn hidden_layer(&self) -> GatedRecurrentLayer<T> {
        self.hidden
    }

    pub closed spec fn output_layer(&self) -> FullyConnectedLayer<T> {
        self.output
    }

    /// Each layer takes what the one before gives.
    pub closed spec fn inv(&self) -> bool {
        &&& self.input.inv()
        &&& self.hidden.inv()
        &&& self.output.inv()
        &&& self.input.outputs() == self.hidden.parameters().inputs
        &&& self.hidden.parameters().outputs == self.output.inputs()
        &&& self.output.outputs() == 1
    }

    pub fn new(
        input: FullyConnectedLayer<T>,
        hidden: GatedRecurrentLayer<T>,
        output: FullyConnectedLayer<T>,
    ) -> (network: Self)
        requires
            input.inv(),
            hidden.inv(),
            output.inv(),
            input.outputs() == hidden.parameters().inputs,
            hidden.parameters().outputs == output.inputs(),
            output.outputs() == 1,
        ensures
            network.inv(),
            network.input_layer() == input,
            network.hidden_layer() == hidden,
            network.output_layer() == output,
    {
        RnnVad { input, hidden, output }
    }

    pub fn reset(&mut self)
        requires
            is_total::<T>(),
            old(self).inv(),
        ensures
            final(self).inv(),
            final(self).input_layer() == old(self).input_layer(),
            final(self).output_layer() == old(self).output_layer(),
            final(self).hidden_layer().parameters() == old(self).hidden_layer().parameters(),
            is_functional::<T>() ==> final(self).hidden_layer().values() == Seq::new(
                old(self).hidden_layer().parameters().outputs,
                |o: int| zero_of::<T>(),
            ),
    {
        self.hidden.reset();
    }

    /// The activations of a dense layer.
    pub open spec fn dense<F: Fn(T) -> T, G: Fn(T) -> T>(
        layer: FullyConnectedLayer<T>,
        input: Seq<T>,
        tansig: F,
        sigmoid: G,
    ) -> Seq<T> {
        Seq::new(layer.outputs(), |o: int| layer.unit(input, tansig, sigmoid, o))
    }

    /// The state of the recurrent layer and the probability that features lead to.
    pub open spec fn observed<F: Fn(T) -> T, G: Fn(T) -> T>(
        &self,
        features: Seq<T>,
        tansig: F,
        sigmoid: G,
    ) -> (Seq<T>, T) {
        let inner = Self::dense(self.input_layer(), features, tansig, sigmoid);
        let state = self.hidden_layer().parameters().next_state(
            sigmoid,
            inner,
            self.hidden_layer().values(),
        );
        (state, Self::dense(self.output_layer(), state, tansig, sigmoid)[0])
    }

    /// Whether the networks have the same weights and state.
    pub open spec fn is_like(&self, other: Self) -> bool {
        &&& self.input_layer().same_parameters(other.input_layer())
        &&& self.output_layer().same_parameters(other.output_layer())
        &&& other.hidden_layer().parameters() == self.hidden_layer().parameters()
        &&& other.hidden_layer().values() == self.hidden_layer().values()
    }

    /// The probability is that of the single output unit on the new state of the recurrent
    /// layer, which is what its inputs, the values of the input layer for the features, and
    /// its state lead to. Of two networks that differ in the bias of the output unit only,
    /// the one with the larger bias gives no smaller a probability, if the activations rise.
    pub proof fn law_probability_of_output_unit<F: Fn(T) -> T, G: Fn(T) -> T>(
        &self,
        other: Self,
        features: Seq<T>,
        inner: Seq<T>,
        tansig: F,
        sigmoid: G,
    )
        requires
            is_ordered::<T>(),
            sums_keep_order::<T>(),
            is_exact::<T>(),
            is_rising(|a: T| image(tansig, a)),
            is_rising(|a: T| image(sigmoid, a)),
            self.inv(),
            other.inv(),
            inner.len() == self.input_layer().outputs(),
            forall|o: int|
                0 <= o < self.input_layer().outputs() ==> #[trigger] inner[o]
                    == self.input_layer().unit(features, tansig, sigmoid, o),
            other.input_layer() == self.input_layer(),
            other.hidden_layer() == self.hidden_layer(),
            other.output_layer().inputs() == self.output_layer().inputs(),
            other.output_layer().matrix() == self.output_layer().matrix(),
            other.output_layer().activation() == self.output_layer().activation(),
            at_most(self.output_layer().biases()[0], other.output_layer().biases()[0]),
        ensures
            ({
                let (state, probability) = self.observed(features, tansig, sigmoid);
                let weighted = plus(
                    self.output_layer().biases()[0],
                    dot(
                        state,
                        self.output_layer().matrix().subrange(
                            0,
                            self.output_layer().inputs() as int,
                        ),
                        state.len() as int,
                    ),
                );
                &&& state == self.hidden_layer().parameters().next_state(
                    sigmoid,
                    inner,
                    self.hidden_layer().values(),
                )
                &&& self.output_layer().activation() is SigmoidApproximated ==> probability
                    == image(sigmoid, weighted)
                &&& self.output_layer().activation() is TansigApproximated ==> probability == image(
                    tansig,
                    weighted,
                )
                &&& other.observed(features, tansig, sigmoid).0 == state
                &&& at_most(probability, other.observed(features, tansig, sigmoid).1)
            }),
    {
        let own = Self::dense(self.input_layer(), features, tansig, sigmoid);
        assert(own =~= inner);
        let (state, probability) = self.observed(features, tansig, sigmoid);
        assert(0 * self.output_layer().inputs() == 0) by (nonlinear_arith);
        assert((0 + 1) * self.output_layer().inputs() == self.output_layer().inputs())
            by (nonlinear_arith);
        self.output_layer().law_larger_bias(&other.output_layer(), state, tansig, sigmoid, 0);
    }

    /// The probability rests on the weights, the state and the features alone: after
    /// a reset, and after silence, a network answers as one that was never used.
    pub proof fn law_probability_rests_on_state<F: Fn(T) -> T, G: Fn(T) -> T>(
        &self,
        other: Self,
        features: Seq<T>,
        tansig: F,
        sigmoid: G,
    )
        requires
            self.is_like(other),
        ensures
            other.observed(features, tansig, sigmoid) == self.observed(features, tansig, sigmoid),
    {
        let inner = Self::dense(self.input_layer(), features, tansig, sigmoid);
        assert(Self::dense(other.input_layer(), features, tansig, sigmoid) =~= inner);
        let state = self.observed(features, tansig, sigmoid).0;
        assert(Self::dense(other.output_layer(), state, tansig, sigmoid) =~= Self::dense(
            self.output_layer(),
            state,
            tansig,
            sigmoid,
        ));
    }

    /// Observes `feature_vector` and `is_silence`, updates the network and returns
    /// the current voice probability: zero in silence, which also resets it.
    pub fn compute_vad_probability<F: Fn(T) -> T, G: Fn(T) -> T>(
        &mut self,
        feature_vector: &[T],
        is_silence: bool,
        tansig: &F,
        sigmoid: &G,
    ) -> (probability: T)
        requires
            is_total::<T>(),
            old(self).inv(),
            forall|a: T| call_requires(tansig, (a,)),
            forall|a: T| call_requires(sigmoid, (a,)),
            feature_vector@.len() == old(self).input_layer().inputs(),
        ensures
            final(self).inv(),
            old(self).input_layer().same_parameters(final(self).input_layer()),
            old(self).output_layer().same_parameters(final(self).output_layer()),
            final(self).hidden_layer().parameters() == old(self).hidden_layer().parameters(),
            is_functional::<T>() && is_silence ==> {
                &&& probability == zero_of::<T>()
                &&& final(self).hidden_layer().values() == Seq::new(
                    old(self).hidden_layer().parameters().outputs,
                    |o: int| zero_of::<T>(),
                )
            },
            is_functional::<T>() && is_mapping(*tansig) && is_mapping(*sigmoid) && !is_silence
                ==> {
                let (state, expected) = old(self).observed(feature_vector@, *tansig, *sigmoid);
                &&& final(self).hidden_layer().values() == state
                &&& probability == expected
            },
            !is_silence ==> probability == final(self).output_layer().values()[0],
            is_functional::<T>() && !is_silence ==> {
                let layer = old(self).output_layer();
                let x = plus(
                    layer.biases()[0],
                    dot(
                        final(self).hidden_layer().values(),
                        layer.matrix().subrange(0, layer.inputs() as int),
                        layer.inputs() as int,
                    ),
                );
                match layer.activation() {
                    ActivationFunction::TansigApproximated => call_ensures(
                        *tansig,
                        (x,),
                        probability,
                    ),
                    ActivationFunction::SigmoidApproximated => call_ensures(
                        *sigmoid,
                        (x,),
                        probability,
                    ),
                }
            },
    {
        if is_silence {
            self.reset();
            return zero();
        }
        self.input.compute_output(feature_vector, tansig, sigmoid);
        proof {
            self.input.lemma_values();
            self.hidden.lemma_values();
        }
        self.hidden.compute_output(self.input.output(), sigmoid);
        self.output.compute_output(self.hidden.output(), tansig, sigmoid);
        proof {
            self.output.lemma_values();
            self.hidden.lemma_values();
            assert(0 * self.output.inputs() == 0) by (nonlinear_arith);
            assert((0 + 1) * self.output.inputs() == self.output.inputs()) by (nonlinear_arith);
        }
        self.output.data()[0]
    }
}

} // verus!
