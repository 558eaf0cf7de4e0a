//! One neuron: a weight per incoming connection, a bias, and the choice of
//! activation function.

use crate::scalar::{
    inner_product, is_difference, is_draw, is_exceeds, is_exp, is_inner_product, is_int, is_larger,
    is_negation, is_product, is_quotient, is_sum, is_tanh, Sampler, Scalar,
};
use vstd::prelude::*;

verus! {

/// The nonlinearity a neuron applies to its weighted sum.
#[derive(Clone, Copy, Debug, PartialEq, Eq)]
pub enum ActivationFunction {
    Sigmoid,
    ReLU,
    Tanh,
}

/// A neuron of a network over the scalar type `S`.
#[derive(Clone, Debug)]
pub struct Neuron<S> {
    /// One weight per incoming connection, in the order of the inputs.
    pub weights: Vec<S>,
    pub bias: S,
    pub activation_fn: ActivationFunction,
}

/// What a [`Neuron`] is to the contracts.
pub ghost struct NeuronModel<S> {
    pub weights: Seq<S>,
    pub bias: S,
    pub activation_fn: ActivationFunction,
}

impl<S> View for Neuron<S> {
    type V = NeuronModel<S>;

    open spec fn view(&self) -> NeuronModel<S> {
        NeuronModel { weights: self.weights@, bias: self.bias, activation_fn: self.activation_fn }
    }
}

/// `y` came out of the logistic function at `x`, computed as
/// `1 / (1 + exp(-x))`.
pub open spec fn is_sigmoid<S: Scalar>(x: S, y: S) -> bool {
    exists|one: S, minus_x: S, e: S, denom: S|
        #![trigger is_exp(minus_x, e), is_quotient(one, denom, y)]
        is_int(1, one) && is_negation(x, minus_x) && is_exp(minus_x, e) && is_sum(one, e, denom)
            && is_quotient(one, denom, y)
}

/// `y` came out of the rectifier at `x`: the larger of `x` and zero.
pub open spec fn is_relu<S: Scalar>(x: S, y: S) -> bool {
    exists|zero: S| is_int(0, zero) && #[trigger] is_larger(x, zero, y)
}

/// `y` came out of the activation function `f` at `x`.
pub open spec fn is_activation<S: Scalar>(f: ActivationFunction, x: S, y: S) -> bool {
    match f {
        ActivationFunction::Sigmoid => is_sigmoid(x, y),
        ActivationFunction::ReLU => is_relu(x, y),
        ActivationFunction::Tanh => is_tanh(x, y),
    }
}

/// `d` came out of the derivative of the activation function `f`, taken at
/// the activated value `y`: `y * (1 - y)` for the logistic function, one or
/// zero as `y` exceeds zero or not for the rectifier, `1 - y * y` for the
/// hyperbolic tangent.
pub open spec fn is_derivative<S: Scalar>(f: ActivationFunction, y: S, d: S) -> bool {
    match f {
        ActivationFunction::Sigmoid => exists|one: S, rest: S|
            is_int(1, one) && #[trigger] is_difference(one, y, rest) && is_product(y, rest, d),
        ActivationFunction::ReLU => exists|zero: S, positive: bool|
            is_int(0, zero) && #[trigger] is_exceeds(y, zero, positive) && is_int(
                if positive {
                    1i32
                } else {
                    0i32
                },
                d,
            ),
        ActivationFunction::Tanh => exists|one: S, square: S|
            is_int(1, one) && is_product(y, y, square) && #[trigger] is_difference(one, square, d),
    }
}

/// `y` came out of the neuron `n` on the inputs `x`: the inner product of
/// weights and inputs, plus the bias, through the activation function.
pub open spec fn is_neuron_output<S: Scalar>(n: NeuronModel<S>, x: Seq<S>, y: S) -> bool {
    exists|dot: S, total: S|
        is_inner_product(n.weights, x, n.weights.len(), dot) && #[trigger] is_sum(
            dot,
            n.bias,
            total,
        ) && is_activation(n.activation_fn, total, y)
}

/// `n` is a neuron as it is first made: `width` weights, each weight and the
/// bias a draw from `source`, and the activation function `f`.
pub open spec fn is_initial_neuron<S, G: Sampler<S>>(
    n: NeuronModel<S>,
    width: nat,
    f: ActivationFunction,
    source: &G,
) -> bool {
    &&& n.weights.len() == width
    &&& forall|k: int| 0 <= k < width ==> is_draw(source, #[trigger] n.weights[k])
    &&& is_draw(source, n.bias)
    &&& n.activation_fn == f
}

impl<S: Scalar> Neuron<S> {
    /// A neuron with `num_inputs` weights, each weight and then the bias one
    /// draw from `source`.
    pub fn new<G: Sampler<S>>(
        num_inputs: usize,
        activation_fn: ActivationFunction,
        source: &G,
    ) -> (neuron: Self)
        ensures
            is_initial_neuron(neuron@, num_inputs as nat, activation_fn, source),
    {
        let mut weights: Vec<S> = Vec::new();
        let mut k: usize = 0;
        while k < num_inputs
            invariant
                k <= num_inputs,
                weights@.len() == k,
                forall|i: int| 0 <= i < k ==> is_draw(source, #[trigger] weights@[i]),
            decreases num_inputs - k,
        {
            let w = source.draw();
            weights.push(w);
            k = k + 1;
        }
        let bias = source.draw();
        Neuron { weights, bias, activation_fn }
    }

    /// The neuron's output on `inputs`, which hold one value per weight.
    pub fn activate(&self, inputs: &[S]) -> (output: S)
        requires
            inputs@.len() == self@.weights.len(),
        ensures
            is_neuron_output(self@, inputs@, output),
    {
        let dot = inner_product(self.weights.as_slice(), inputs);
        let total = dot.plus(self.bias);
        let output = match self.activation_fn {
            ActivationFunction::Sigmoid => self.sigmoid(total),
            ActivationFunction::ReLU => self.relu(total),
            ActivationFunction::Tanh => self.tanh(total),
        };
        assert(is_sum(dot, self@.bias, total));
        output
    }

    /// The logistic function at `x`.
    pub fn sigmoid(&self, x: S) -> (y: S)
        ensures
            is_sigmoid(x, y),
    {
        let one = S::from_int(1);
        let minus_x = x.negated();
        let e = minus_x.exp();
        let denom = one.plus(e);
        let y = one.over(denom);
        assert(is_exp(minus_x, e) && is_quotient(one, denom, y));
        y
    }

    /// The rectifier at `x`.
    pub fn relu(&self, x: S) -> (y: S)
        ensures
            is_relu(x, y),
    {
        let zero = S::from_int(0);
        let y = x.larger(zero);
        assert(is_larger(x, zero, y));
        y
    }

    /// The hyperbolic tangent at `x`.
    pub fn tanh(&self, x: S) -> (y: S)
        ensures
            is_tanh(x, y),
    {
        x.tanh()
    }

    /// The derivative of the neuron's activation function, taken at the
    /// activated value `output`: at what the function gave, not at what it was
    /// given.
    pub fn activation_derivative(&self, output: S) -> (d: S)
        ensures
            is_derivative(self@.activation_fn, output, d),
    {
        match self.activation_fn {
            ActivationFunction::Sigmoid => {
                let one = S::from_int(1);
                let rest = one.minus(output);
                let d = output.times(rest);
                assert(is_difference(one, output, rest));
                d
            },
            ActivationFunction::ReLU => {
                let zero = S::from_int(0);
                let positive = output.exceeds(zero);
                let d = if positive {
                    S::from_int(1)
                } else {
                    S::from_int(0)
                };
                assert(is_exceeds(output, zero, positive));
                d
            },
            ActivationFunction::Tanh => {
                let one = S::from_int(1);
                let square = output.times(output);
                let d = one.minus(square);
                assert(is_difference(one, square, d));
                d
            },
        }
    }
}

} // verus!
