//! What the network computes where the arithmetic is exact: the sums,
//! products and differences of these relations are then the formulas of
//! backpropagation. The exponential, the hyperbolic tangent and division have
//! no place among whole numbers, so the logistic function and the hyperbolic
//! tangent themselves stay out of this; their derivatives, which are
//! polynomials in the activated value, do not.

use crate::network::{column, is_hidden_error, is_residual, is_updated_neuron, is_updated_weight};
use crate::neuron::{
    is_activation, is_derivative, is_neuron_output, is_relu, ActivationFunction, NeuronModel,
};
use crate::scalar::{
    is_difference, is_exceeds, is_inner_product, is_int, is_larger, is_negation, is_product,
    is_sum, Scalar,
};
use vstd::prelude::*;

verus! {

/// `val` reads every scalar as a whole number, and under this reading the
/// arithmetic of `S` is exact: what comes out of an operation stands for what
/// the operation gives on the numbers that the operands stand for.
pub open spec fn is_exact<S: Scalar>(val: spec_fn(S) -> int) -> bool {
    &&& forall|n: i32, r: S| #[trigger] is_int(n, r) ==> val(r) == n
    &&& forall|a: S, b: S, r: S| #[trigger] is_sum(a, b, r) ==> val(r) == val(a) + val(b)
    &&& forall|a: S, b: S, r: S| #[trigger] is_difference(a, b, r) ==> val(r) == val(a) - val(b)
    &&& forall|a: S, b: S, r: S| #[trigger] is_product(a, b, r) ==> val(r) == val(a) * val(b)
    &&& forall|a: S, r: S| #[trigger] is_negation(a, r) ==> val(r) == -val(a)
    &&& forall|a: S, b: S, r: S|
        #[trigger] is_larger(a, b, r) ==> val(r) == if val(a) >= val(b) {
            val(a)
        } else {
            val(b)
        }
    &&& forall|a: S, b: S, r: bool| #[trigger] is_exceeds(a, b, r) ==> r == (val(a) > val(b))
}

/// The sum of the first `n` products `a[k] * b[k]`, read as whole numbers.
pub open spec fn dot<S>(val: spec_fn(S) -> int, a: Seq<S>, b: Seq<S>, n: nat) -> int
    decreases n,
{
    if n == 0 {
        0
    } else {
        dot(val, a, b, (n - 1) as nat) + val(a[n - 1]) * val(b[n - 1])
    }
}

/// The derivative of an activation function at the activated value `y`.
pub open spec fn slope(f: ActivationFunction, y: int) -> int {
    match f {
        ActivationFunction::Sigmoid => y * (1 - y),
        ActivationFunction::ReLU => if y > 0 {
            1
        } else {
            0
        },
        ActivationFunction::Tanh => 1 - y * y,
    }
}

/// An inner product is the sum of the products.
pub proof fn lemma_inner_product_exact<S: Scalar>(
    val: spec_fn(S) -> int,
    a: Seq<S>,
    b: Seq<S>,
    n: nat,
    acc: S,
)
    requires
        is_exact(val),
        is_inner_product(a, b, n, acc),
    ensures
        val(acc) == dot(val, a, b, n),
    decreases n,
{
    if n > 0 {
        let (prev, term) = choose|prev: S, term: S|
            is_inner_product(a, b, (n - 1) as nat, prev) && is_product(a[n - 1], b[n - 1], term)
                && #[trigger] is_sum(prev, term, acc);
        lemma_inner_product_exact(val, a, b, (n - 1) as nat, prev);
    }
}

/// The rectifier gives its argument where that is positive, and zero where
/// it is not: it never gives less than zero.
pub proof fn lemma_relu_exact<S: Scalar>(val: spec_fn(S) -> int, x: S, y: S)
    requires
        is_exact(val),
        is_relu(x, y),
    ensures
        val(y) == if val(x) > 0 {
            val(x)
        } else {
            0
        },
        val(y) >= 0,
{
    let zero = choose|zero: S| is_int(0, zero) && #[trigger] is_larger(x, zero, y);
    assert(val(zero) == 0);
}

/// A neuron with the rectifier gives the weighted sum of its inputs plus its
/// bias, or zero where that is negative.
pub proof fn lemma_relu_neuron_exact<S: Scalar>(
    val: spec_fn(S) -> int,
    n: NeuronModel<S>,
    x: Seq<S>,
    y: S,
)
    requires
        is_exact(val),
        n.activation_fn == ActivationFunction::ReLU,
        is_neuron_output(n, x, y),
    ensures
        val(y) == if dot(val, n.weights, x, n.weights.len()) + val(n.bias) > 0 {
            dot(val, n.weights, x, n.weights.len()) + val(n.bias)
        } else {
            0
        },
{
    let (sum, total) = choose|sum: S, total: S|
        is_inner_product(n.weights, x, n.weights.len(), sum) && #[trigger] is_sum(
            sum,
            n.bias,
            total,
        ) && is_activation(n.activation_fn, total, y);
    lemma_inner_product_exact(val, n.weights, x, n.weights.len(), sum);
    lemma_relu_exact(val, total, y);
}

/// The derivative of an activation function is `y * (1 - y)` for the logistic
/// function, one or zero as `y` is positive or not for the rectifier, and
/// `1 - y * y` for the hyperbolic tangent.
pub proof fn lemma_derivative_exact<S: Scalar>(
    val: spec_fn(S) -> int,
    f: ActivationFunction,
    y: S,
    d: S,
)
    requires
        is_exact(val),
        is_derivative(f, y, d),
    ensures
        val(d) == slope(f, val(y)),
{
    match f {
        ActivationFunction::Sigmoid => {
            let (one, rest) = choose|one: S, rest: S|
                is_int(1, one) && #[trigger] is_difference(one, y, rest) && is_product(y, rest, d);
            assert(val(one) == 1);
            assert(val(rest) == 1 - val(y));
        },
        ActivationFunction::ReLU => {
            let (zero, positive) = choose|zero: S, positive: bool|
                is_int(0, zero) && #[trigger] is_exceeds(y, zero, positive) && is_int(
                    if positive {
                        1i32
                    } else {
                        0i32
                    },
                    d,
                );
            assert(val(zero) == 0);
            assert(positive == (val(y) > 0));
        },
        ActivationFunction::Tanh => {
            let (one, square) = choose|one: S, square: S|
                is_int(1, one) && is_product(y, y, square) && #[trigger] is_difference(
                    one,
                    square,
                    d,
                );
            assert(val(one) == 1);
            assert(val(square) == val(y) * val(y));
        },
    }
}

/// The error of the last layer is what it gave less the target.
pub proof fn lemma_residual_exact<S: Scalar>(
    val: spec_fn(S) -> int,
    o_row: Seq<S>,
    targets: Seq<S>,
    e_row: Seq<S>,
    j: int,
)
    requires
        is_exact(val),
        is_residual(o_row, targets, e_row),
        0 <= j < o_row.len(),
    ensures
        val(e_row[j]) == val(o_row[j]) - val(targets[j]),
{
    assert(is_difference(o_row[j], targets[j], e_row[j]));
}

/// The error of a neuron before the last layer is the sum, over the neurons
/// `k` of the layer that follows, of the error of `k` times the weight of the
/// connection to `k`, times the derivative of the neuron's activation
/// function at what the neuron gave.
pub proof fn lemma_hidden_error_exact<S: Scalar>(
    val: spec_fn(S) -> int,
    next: Seq<NeuronModel<S>>,
    e_next: Seq<S>,
    j: int,
    f: ActivationFunction,
    y: S,
    err: S,
)
    requires
        is_exact(val),
        is_hidden_error(next, e_next, j, f, y, err),
    ensures
        val(err) == dot(val, e_next, column(next, j), next.len()) * slope(f, val(y)),
{
    let (back, d) = choose|back: S, d: S|
        is_inner_product(e_next, column(next, j), next.len(), back) && is_derivative(f, y, d)
            && #[trigger] is_product(back, d, err);
    lemma_inner_product_exact(val, e_next, column(next, j), next.len(), back);
    lemma_derivative_exact(val, f, y, d);
}

/// A step lowers the bias by the learning rate times the error, and each
/// weight by the learning rate times the error times the weight's input.
pub proof fn lemma_updated_neuron_exact<S: Scalar>(
    val: spec_fn(S) -> int,
    n: NeuronModel<S>,
    x: Seq<S>,
    err: S,
    rate: S,
    n2: NeuronModel<S>,
)
    requires
        is_exact(val),
        is_updated_neuron(n, x, err, rate, n2),
    ensures
        val(n2.bias) == val(n.bias) - val(rate) * val(err),
        forall|k: int|
            0 <= k < n.weights.len() ==> val(#[trigger] n2.weights[k]) == val(n.weights[k]) - val(
                rate,
            ) * val(err) * val(x[k]),
{
    let step = choose|step: S|
        {
            &&& #[trigger] is_product(rate, err, step)
            &&& is_difference(n.bias, step, n2.bias)
            &&& forall|k: int|
                0 <= k < n.weights.len() ==> is_updated_weight(
                    n.weights[k],
                    step,
                    x[k],
                    #[trigger] n2.weights[k],
                )
        };
    assert(val(step) == val(rate) * val(err));
    assert forall|k: int| 0 <= k < n.weights.len() implies val(#[trigger] n2.weights[k]) == val(
        n.weights[k],
    ) - val(rate) * val(err) * val(x[k]) by {
        assert(is_updated_weight(n.weights[k], step, x[k], n2.weights[k]));
        let delta = choose|delta: S| #[trigger]
            is_product(step, x[k], delta) && is_difference(n.weights[k], delta, n2.weights[k]);
        assert(val(delta) == val(step) * val(x[k]));
    }
}

/// Lowering each weight by `s` times its input lowers the weighted sum by `s`
/// times the sum of the squares of the inputs.
proof fn lemma_dot_after_step<S>(
    val: spec_fn(S) -> int,
    w: Seq<S>,
    w2: Seq<S>,
    x: Seq<S>,
    s: int,
    n: nat,
)
    requires
        forall|k: int| 0 <= k < n ==> val(#[trigger] w2[k]) == val(w[k]) - s * val(x[k]),
    ensures
        dot(val, w2, x, n) == dot(val, w, x, n) - s * dot(val, x, x, n),
    decreases n,
{
    if n > 0 {
        lemma_dot_after_step(val, w, w2, x, s, (n - 1) as nat);
        let a = val(w[n - 1]);
        let b = val(x[n - 1]);
        let c = dot(val, x, x, (n - 1) as nat);
        assert(val(w2[n - 1]) == a - s * b);
        assert((a - s * b) * b == a * b - s * (b * b)) by (nonlinear_arith);
        assert(s * (c + b * b) == s * c + s * (b * b)) by (nonlinear_arith);
    }
}

/// A step moves a neuron against its error. On the inputs it was updated on,
/// the weighted sum plus the bias goes down by the learning rate times the
/// error times one more than the sum of the squares of the inputs: down where
/// the error was positive, up where it was negative, and nowhere where there
/// was none.
pub proof fn lemma_step_moves_against_error<S: Scalar>(
    val: spec_fn(S) -> int,
    n: NeuronModel<S>,
    x: Seq<S>,
    err: S,
    rate: S,
    n2: NeuronModel<S>,
)
    requires
        is_exact(val),
        is_updated_neuron(n, x, err, rate, n2),
    ensures
        dot(val, n2.weights, x, n.weights.len()) + val(n2.bias) == dot(
            val,
            n.weights,
            x,
            n.weights.len(),
        ) + val(n.bias) - val(rate) * val(err) * (dot(val, x, x, n.weights.len()) + 1),
{
    lemma_updated_neuron_exact(val, n, x, err, rate, n2);
    let s = val(rate) * val(err);
    let len = n.weights.len();
    assert forall|k: int| 0 <= k < len implies val(#[trigger] n2.weights[k]) == val(n.weights[k])
        - s * val(x[k]) by {}
    lemma_dot_after_step(val, n.weights, n2.weights, x, s, len);
    let xx = dot(val, x, x, len);
    assert(s * (xx + 1) == s * xx + s) by (nonlinear_arith);
}

} // verus!
