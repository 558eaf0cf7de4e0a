//! What the network computes is settled by its parameters and its inputs as
//! far as the arithmetic is: where every operation of the scalar type has one
//! outcome for given operands, every relation of this crate has one outcome
//! too.

use crate::network::{
    column, is_backward, is_forward, is_hidden_error, is_layer_error,
    is_layer_output, is_prediction, is_residual, is_training_step, is_update, is_updated_layer,
    is_updated_neuron, is_updated_weight,
};
use crate::neuron::{
    is_activation, is_derivative, is_neuron_output, ActivationFunction, NeuronModel,
};
use crate::scalar::{
    is_difference, is_exceeds, is_exp, is_inner_product, is_int, is_larger, is_negation,
    is_product, is_quotient, is_sum, is_tanh, Scalar,
};
use vstd::prelude::*;

verus! {

/// Every operation of `S` has one outcome for given operands.
pub open spec fn is_deterministic<S: Scalar>() -> bool {
    &&& forall|n: i32, r1: S, r2: S|
        #[trigger] is_int(n, r1) && #[trigger] is_int(n, r2) ==> r1 == r2
    &&& forall|a: S, b: S, r1: S, r2: S|
        #[trigger] is_sum(a, b, r1) && #[trigger] is_sum(a, b, r2) ==> r1 == r2
    &&& forall|a: S, b: S, r1: S, r2: S|
        #[trigger] is_difference(a, b, r1) && #[trigger] is_difference(a, b, r2) ==> r1 == r2
    &&& forall|a: S, b: S, r1: S, r2: S|
        #[trigger] is_product(a, b, r1) && #[trigger] is_product(a, b, r2) ==> r1 == r2
    &&& forall|a: S, b: S, r1: S, r2: S|
        #[trigger] is_quotient(a, b, r1) && #[trigger] is_quotient(a, b, r2) ==> r1 == r2
    &&& forall|a: S, r1: S, r2: S|
        #[trigger] is_negation(a, r1) && #[trigger] is_negation(a, r2) ==> r1 == r2
    &&& forall|a: S, r1: S, r2: S| #[trigger] is_exp(a, r1) && #[trigger] is_exp(a, r2) ==> r1 == r2
    &&& forall|a: S, r1: S, r2: S|
        #[trigger] is_tanh(a, r1) && #[trigger] is_tanh(a, r2) ==> r1 == r2
    &&& forall|a: S, b: S, r1: S, r2: S|
        #[trigger] is_larger(a, b, r1) && #[trigger] is_larger(a, b, r2) ==> r1 == r2
    &&& forall|a: S, b: S, r1: bool, r2: bool|
        #[trigger] is_exceeds(a, b, r1) && #[trigger] is_exceeds(a, b, r2) ==> r1 == r2
}

/// An inner product has one outcome.
pub proof fn lemma_inner_product_unique<S: Scalar>(a: Seq<S>, b: Seq<S>, n: nat, r1: S, r2: S)
    requires
        is_deterministic::<S>(),
        is_inner_product(a, b, n, r1),
        is_inner_product(a, b, n, r2),
    ensures
        r1 == r2,
    decreases n,
{
    if n > 0 {
        let (prev1, term1) = choose|prev: S, term: S|
            is_inner_product(a, b, (n - 1) as nat, prev) && is_product(a[n - 1], b[n - 1], term)
                && #[trigger] is_sum(prev, term, r1);
        let (prev2, term2) = choose|prev: S, term: S|
            is_inner_product(a, b, (n - 1) as nat, prev) && is_product(a[n - 1], b[n - 1], term)
                && #[trigger] is_sum(prev, term, r2);
        lemma_inner_product_unique(a, b, (n - 1) as nat, prev1, prev2);
        assert(term1 == term2);
    }
}

/// An activation function has one outcome.
pub proof fn lemma_activation_unique<S: Scalar>(f: ActivationFunction, x: S, y1: S, y2: S)
    requires
        is_deterministic::<S>(),
        is_activation(f, x, y1),
        is_activation(f, x, y2),
    ensures
        y1 == y2,
{
    match f {
        ActivationFunction::Sigmoid => {
            let (one1, m1, e1, d1) = choose|one: S, minus_x: S, e: S, denom: S|
                #![trigger is_exp(minus_x, e), is_quotient(one, denom, y1)]
                is_int(1, one) && is_negation(x, minus_x) && is_exp(minus_x, e) && is_sum(
                    one,
                    e,
                    denom,
                ) && is_quotient(one, denom, y1);
            let (one2, m2, e2, d2) = choose|one: S, minus_x: S, e: S, denom: S|
                #![trigger is_exp(minus_x, e), is_quotient(one, denom, y2)]
                is_int(1, one) && is_negation(x, minus_x) && is_exp(minus_x, e) && is_sum(
                    one,
                    e,
                    denom,
                ) && is_quotient(one, denom, y2);
            assert(one1 == one2);
            assert(m1 == m2);
            assert(e1 == e2);
            assert(d1 == d2);
        },
        ActivationFunction::ReLU => {
            let z1 = choose|zero: S| is_int(0, zero) && #[trigger] is_larger(x, zero, y1);
            let z2 = choose|zero: S| is_int(0, zero) && #[trigger] is_larger(x, zero, y2);
            assert(z1 == z2);
        },
        ActivationFunction::Tanh => {},
    }
}

/// The derivative of an activation function has one outcome.
pub proof fn lemma_derivative_unique<S: Scalar>(f: ActivationFunction, y: S, d1: S, d2: S)
    requires
        is_deterministic::<S>(),
        is_derivative(f, y, d1),
        is_derivative(f, y, d2),
    ensures
        d1 == d2,
{
    match f {
        ActivationFunction::Sigmoid => {
            let (one1, rest1) = choose|one: S, rest: S|
                is_int(1, one) && #[trigger] is_difference(one, y, rest) && is_product(y, rest, d1);
            let (one2, rest2) = choose|one: S, rest: S|
                is_int(1, one) && #[trigger] is_difference(one, y, rest) && is_product(y, rest, d2);
            assert(one1 == one2);
            assert(rest1 == rest2);
        },
        ActivationFunction::ReLU => {
            let (zero1, flag1) = choose|zero: S, positive: bool|
                is_int(0, zero) && #[trigger] is_exceeds(y, zero, positive) && is_int(
                    if positive {
                        1i32
                    } else {
                        0i32
                    },
                    d1,
                );
            let (zero2, flag2) = choose|zero: S, positive: bool|
                is_int(0, zero) && #[trigger] is_exceeds(y, zero, positive) && is_int(
                    if positive {
                        1i32
                    } else {
                        0i32
                    },
                    d2,
                );
            assert(zero1 == zero2);
            assert(flag1 == flag2);
        },
        ActivationFunction::Tanh => {
            let (one1, sq1) = choose|one: S, square: S|
                is_int(1, one) && is_product(y, y, square) && #[trigger] is_difference(
                    one,
                    square,
                    d1,
                );
            let (one2, sq2) = choose|one: S, square: S|
                is_int(1, one) && is_product(y, y, square) && #[trigger] is_difference(
                    one,
                    square,
                    d2,
                );
            assert(one1 == one2);
            assert(sq1 == sq2);
        },
    }
}

/// A neuron has one output on given inputs.
pub proof fn lemma_neuron_output_unique<S: Scalar>(n: NeuronModel<S>, x: Seq<S>, y1: S, y2: S)
    requires
        is_deterministic::<S>(),
        is_neuron_output(n, x, y1),
        is_neuron_output(n, x, y2),
    ensures
        y1 == y2,
{
    let (dot1, total1) = choose|dot: S, total: S|
        is_inner_product(n.weights, x, n.weights.len(), dot) && #[trigger] is_sum(
            dot,
            n.bias,
            total,
        ) && is_activation(n.activation_fn, total, y1);
    let (dot2, total2) = choose|dot: S, total: S|
        is_inner_product(n.weights, x, n.weights.len(), dot) && #[trigger] is_sum(
            dot,
            n.bias,
            total,
        ) && is_activation(n.activation_fn, total, y2);
    lemma_inner_product_unique(n.weights, x, n.weights.len(), dot1, dot2);
    assert(total1 == total2);
    lemma_activation_unique(n.activation_fn, total1, y1, y2);
}

/// A layer has one output on given inputs.
pub proof fn lemma_layer_output_unique<S: Scalar>(
    layer: Seq<NeuronModel<S>>,
    x: Seq<S>,
    y1: Seq<S>,
    y2: Seq<S>,
)
    requires
        is_deterministic::<S>(),
        is_layer_output(layer, x, y1),
        is_layer_output(layer, x, y2),
    ensures
        y1 == y2,
{
    assert forall|j: int| 0 <= j < layer.len() implies y1[j] == y2[j] by {
        lemma_neuron_output_unique(layer[j], x, y1[j], y2[j]);
    }
    assert(y1 =~= y2);
}

/// Two forward records of one network on the same inputs agree in their
/// first `i + 1` rows.
proof fn lemma_forward_rows_unique<S: Scalar>(
    net: Seq<Seq<NeuronModel<S>>>,
    inputs: Seq<S>,
    o1: Seq<Seq<S>>,
    o2: Seq<Seq<S>>,
    i: int,
)
    requires
        is_deterministic::<S>(),
        is_forward(net, inputs, o1),
        is_forward(net, inputs, o2),
        0 <= i <= net.len(),
    ensures
        o1[i] == o2[i],
    decreases i,
{
    if i > 0 {
        lemma_forward_rows_unique(net, inputs, o1, o2, i - 1);
        assert(is_layer_output(net[i - 1], o1[i - 1], o1[i]));
        assert(is_layer_output(net[i - 1], o2[i - 1], o2[i]));
        lemma_layer_output_unique(net[i - 1], o1[i - 1], o1[i], o2[i]);
    }
}

/// A network has one forward record on given inputs.
pub proof fn lemma_forward_unique<S: Scalar>(
    net: Seq<Seq<NeuronModel<S>>>,
    inputs: Seq<S>,
    o1: Seq<Seq<S>>,
    o2: Seq<Seq<S>>,
)
    requires
        is_deterministic::<S>(),
        is_forward(net, inputs, o1),
        is_forward(net, inputs, o2),
    ensures
        o1 == o2,
{
    assert forall|i: int| 0 <= i < o1.len() implies o1[i] == o2[i] by {
        lemma_forward_rows_unique(net, inputs, o1, o2, i);
    }
    assert(o1 =~= o2);
}

/// What a network predicts is settled by its weights, biases, activation
/// functions and inputs. So two networks that agree in these, as two that
/// were made from the same draws do, predict alike on the same inputs.
pub proof fn lemma_prediction_unique<S: Scalar>(
    net: Seq<Seq<NeuronModel<S>>>,
    inputs: Seq<S>,
    y1: Seq<S>,
    y2: Seq<S>,
)
    requires
        is_deterministic::<S>(),
        is_prediction(net, inputs, y1),
        is_prediction(net, inputs, y2),
    ensures
        y1 == y2,
{
    let o1 = choose|o: Seq<Seq<S>>| #[trigger] is_forward(net, inputs, o) && y1 == o.last();
    let o2 = choose|o: Seq<Seq<S>>| #[trigger] is_forward(net, inputs, o) && y2 == o.last();
    lemma_forward_unique(net, inputs, o1, o2);
}

/// The errors of the last layer have one outcome.
pub proof fn lemma_residual_unique<S: Scalar>(
    o_row: Seq<S>,
    targets: Seq<S>,
    e1: Seq<S>,
    e2: Seq<S>,
)
    requires
        is_deterministic::<S>(),
        is_residual(o_row, targets, e1),
        is_residual(o_row, targets, e2),
    ensures
        e1 == e2,
{
    assert forall|j: int| 0 <= j < o_row.len() implies e1[j] == e2[j] by {
        assert(is_difference(o_row[j], targets[j], e1[j]));
        assert(is_difference(o_row[j], targets[j], e2[j]));
    }
    assert(e1 =~= e2);
}

/// The error of a neuron before the last layer has one outcome.
pub proof fn lemma_hidden_error_unique<S: Scalar>(
    next: Seq<NeuronModel<S>>,
    e_next: Seq<S>,
    j: int,
    f: ActivationFunction,
    y: S,
    err1: S,
    err2: S,
)
    requires
        is_deterministic::<S>(),
        is_hidden_error(next, e_next, j, f, y, err1),
        is_hidden_error(next, e_next, j, f, y, err2),
    ensures
        err1 == err2,
{
    let (back1, slope1) = choose|back: S, slope: S|
        is_inner_product(e_next, column(next, j), next.len(), back) && is_derivative(f, y, slope)
            && #[trigger] is_product(back, slope, err1);
    let (back2, slope2) = choose|back: S, slope: S|
        is_inner_product(e_next, column(next, j), next.len(), back) && is_derivative(f, y, slope)
            && #[trigger] is_product(back, slope, err2);
    lemma_inner_product_unique(e_next, column(next, j), next.len(), back1, back2);
    lemma_derivative_unique(f, y, slope1, slope2);
}

/// The errors of a layer before the last have one outcome.
pub proof fn lemma_layer_error_unique<S: Scalar>(
    next: Seq<NeuronModel<S>>,
    e_next: Seq<S>,
    layer: Seq<NeuronModel<S>>,
    o_row: Seq<S>,
    e1: Seq<S>,
    e2: Seq<S>,
)
    requires
        is_deterministic::<S>(),
        is_layer_error(next, e_next, layer, o_row, e1),
        is_layer_error(next, e_next, layer, o_row, e2),
    ensures
        e1 == e2,
{
    assert forall|j: int| 0 <= j < layer.len() implies e1[j] == e2[j] by {
        lemma_hidden_error_unique(
            next,
            e_next,
            j,
            layer[j].activation_fn,
            o_row[j],
            e1[j],
            e2[j],
        );
    }
    assert(e1 =~= e2);
}

/// Two sets of errors of one network for the same record and targets agree
/// from row `i` on.
proof fn lemma_backward_rows_unique<S: Scalar>(
    net: Seq<Seq<NeuronModel<S>>>,
    targets: Seq<S>,
    o: Seq<Seq<S>>,
    e1: Seq<Seq<S>>,
    e2: Seq<Seq<S>>,
    i: int,
)
    requires
        is_deterministic::<S>(),
        is_backward(net, targets, o, e1),
        is_backward(net, targets, o, e2),
        1 <= i <= net.len(),
    ensures
        e1[i] == e2[i],
    decreases net.len() - i,
{
    if i == net.len() {
        lemma_residual_unique(o[i], targets, e1[i], e2[i]);
    } else {
        lemma_backward_rows_unique(net, targets, o, e1, e2, i + 1);
        assert(is_layer_error(net[i], e1[i + 1], net[i - 1], o[i], e1[i]));
        assert(is_layer_error(net[i], e2[i + 1], net[i - 1], o[i], e2[i]));
        lemma_layer_error_unique(net[i], e1[i + 1], net[i - 1], o[i], e1[i], e2[i]);
    }
}

/// A network has one set of errors for a given record and given targets.
pub proof fn lemma_backward_unique<S: Scalar>(
    net: Seq<Seq<NeuronModel<S>>>,
    targets: Seq<S>,
    o: Seq<Seq<S>>,
    e1: Seq<Seq<S>>,
    e2: Seq<Seq<S>>,
)
    requires
        is_deterministic::<S>(),
        is_backward(net, targets, o, e1),
        is_backward(net, targets, o, e2),
    ensures
        e1 == e2,
{
    assert forall|i: int| 0 <= i < e1.len() implies e1[i] == e2[i] by {
        if i == 0 {
            assert(e1[0] =~= e2[0]);
        } else {
            lemma_backward_rows_unique(net, targets, o, e1, e2, i);
        }
    }
    assert(e1 =~= e2);
}

/// A step leaves a neuron in one state.
pub proof fn lemma_updated_neuron_unique<S: Scalar>(
    n: NeuronModel<S>,
    x: Seq<S>,
    err: S,
    rate: S,
    a: NeuronModel<S>,
    b: NeuronModel<S>,
)
    requires
        is_deterministic::<S>(),
        is_updated_neuron(n, x, err, rate, a),
        is_updated_neuron(n, x, err, rate, b),
    ensures
        a == b,
{
    let step1 = choose|step: S|
        {
            &&& #[trigger] is_product(rate, err, step)
            &&& is_difference(n.bias, step, a.bias)
            &&& forall|k: int|
                0 <= k < n.weights.len() ==> is_updated_weight(
                    n.weights[k],
                    step,
                    x[k],
                    #[trigger] a.weights[k],
                )
        };
    let step2 = choose|step: S|
        {
            &&& #[trigger] is_product(rate, err, step)
            &&& is_difference(n.bias, step, b.bias)
            &&& forall|k: int|
                0 <= k < n.weights.len() ==> is_updated_weight(
                    n.weights[k],
                    step,
                    x[k],
                    #[trigger] b.weights[k],
                )
        };
    assert(step1 == step2);
    assert forall|k: int| 0 <= k < n.weights.len() implies a.weights[k] == b.weights[k] by {
        assert(is_updated_weight(n.weights[k], step1, x[k], a.weights[k]));
        assert(is_updated_weight(n.weights[k], step1, x[k], b.weights[k]));
        let d1 = choose|delta: S| #[trigger]
            is_product(step1, x[k], delta) && is_difference(n.weights[k], delta, a.weights[k]);
        let d2 = choose|delta: S| #[trigger]
            is_product(step1, x[k], delta) && is_difference(n.weights[k], delta, b.weights[k]);
        assert(d1 == d2);
    }
    assert(a.weights =~= b.weights);
}

/// A step leaves a layer in one state.
pub proof fn lemma_updated_layer_unique<S: Scalar>(
    layer: Seq<NeuronModel<S>>,
    x: Seq<S>,
    e_row: Seq<S>,
    rate: S,
    a: Seq<NeuronModel<S>>,
    b: Seq<NeuronModel<S>>,
)
    requires
        is_deterministic::<S>(),
        is_updated_layer(layer, x, e_row, rate, a),
        is_updated_layer(layer, x, e_row, rate, b),
    ensures
        a == b,
{
    assert forall|j: int| 0 <= j < layer.len() implies a[j] == b[j] by {
        lemma_updated_neuron_unique(layer[j], x, e_row[j], rate, a[j], b[j]);
    }
    assert(a =~= b);
}

/// A step leaves a network in one state.
pub proof fn lemma_update_unique<S: Scalar>(
    net: Seq<Seq<NeuronModel<S>>>,
    o: Seq<Seq<S>>,
    e: Seq<Seq<S>>,
    rate: S,
    a: Seq<Seq<NeuronModel<S>>>,
    b: Seq<Seq<NeuronModel<S>>>,
)
    requires
        is_deterministic::<S>(),
        is_update(net, o, e, rate, a),
        is_update(net, o, e, rate, b),
    ensures
        a == b,
{
    assert forall|i: int| 0 <= i < net.len() implies a[i] == b[i] by {
        assert(is_updated_layer(net[i], o[i], e[i + 1], rate, a[i]));
        assert(is_updated_layer(net[i], o[i], e[i + 1], rate, b[i]));
        lemma_updated_layer_unique(net[i], o[i], e[i + 1], rate, a[i], b[i]);
    }
    assert(a =~= b);
}

/// Training on an example leaves a network in one state: what it has learnt
/// is settled by where it started, the example and the learning rate.
pub proof fn lemma_training_step_unique<S: Scalar>(
    net: Seq<Seq<NeuronModel<S>>>,
    inputs: Seq<S>,
    targets: Seq<S>,
    rate: S,
    a: Seq<Seq<NeuronModel<S>>>,
    b: Seq<Seq<NeuronModel<S>>>,
)
    requires
        is_deterministic::<S>(),
        is_training_step(net, inputs, targets, rate, a),
        is_training_step(net, inputs, targets, rate, b),
    ensures
        a == b,
{
    let (o1, e1) = choose|o: Seq<Seq<S>>, e: Seq<Seq<S>>|
        is_forward(net, inputs, o) && is_backward(net, targets, o, e) && #[trigger] is_update(
            net,
            o,
            e,
            rate,
            a,
        );
    let (o2, e2) = choose|o: Seq<Seq<S>>, e: Seq<Seq<S>>|
        is_forward(net, inputs, o) && is_backward(net, targets, o, e) && #[trigger] is_update(
            net,
            o,
            e,
            rate,
            b,
        );
    lemma_forward_unique(net, inputs, o1, o2);
    lemma_backward_unique(net, targets, o1, e1, e2);
    lemma_update_unique(net, o1, e1, rate, a, b);
}

} // verus!
