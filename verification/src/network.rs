//! The network: layers of neurons, forward propagation, backpropagation of
//! the error and the gradient step.

use crate::neuron::{
    is_derivative, is_initial_neuron, is_neuron_output, ActivationFunction, Neuron, NeuronModel,
};
use crate::scalar::{
    is_difference, is_inner_product, is_int, is_product, lemma_inner_product_step, Sampler, Scalar,
};
use vstd::prelude::*;

verus! {

/// A network over the scalar type `S`: its layers in the order of the forward
/// pass, each layer its neurons in order.
#[derive(Clone, Debug)]
pub struct Network<S> {
    pub layers: Vec<Vec<Neuron<S>>>,
}

/// What a layer is to the contracts: its neurons' models, in order.
pub open spec fn layer_model<S>(layer: Seq<Neuron<S>>) -> Seq<NeuronModel<S>> {
    Seq::new(layer.len(), |j: int| layer[j]@)
}

/// What a vector of vectors is to the contracts: its rows, in order.
pub open spec fn grid<S>(rows: Seq<Vec<S>>) -> Seq<Seq<S>> {
    Seq::new(rows.len(), |i: int| rows[i]@)
}

impl<S> View for Network<S> {
    type V = Seq<Seq<NeuronModel<S>>>;

    open spec fn view(&self) -> Seq<Seq<NeuronModel<S>>> {
        Seq::new(self.layers@.len(), |i: int| layer_model(self.layers@[i]@))
    }
}

/// The number of values that feed layer `i`: the width of the network's
/// input for the first layer, the size of the layer before it for the others.
pub open spec fn width_into<S>(net: Seq<Seq<NeuronModel<S>>>, i: int) -> nat {
    if i == 0 {
        net[0][0].weights.len()
    } else {
        net[i - 1].len()
    }
}

/// A network has at least one layer, no layer is empty, and every neuron has
/// one weight per value that feeds its layer.
pub open spec fn well_formed<S>(net: Seq<Seq<NeuronModel<S>>>) -> bool {
    &&& net.len() >= 1
    &&& forall|i: int| 0 <= i < net.len() ==> (#[trigger] net[i]).len() >= 1
    &&& forall|i: int, j: int|
        0 <= i < net.len() && 0 <= j < net[i].len() ==> (#[trigger] net[i][j]).weights.len()
            == width_into(net, i)
}

/// `y` holds what the neurons of `layer` gave on the inputs `x`, one value per
/// neuron.
pub open spec fn is_layer_output<S: Scalar>(
    layer: Seq<NeuronModel<S>>,
    x: Seq<S>,
    y: Seq<S>,
) -> bool {
    &&& y.len() == layer.len()
    &&& forall|j: int| 0 <= j < layer.len() ==> is_neuron_output(layer[j], x, #[trigger] y[j])
}

/// `o` is the record of a forward pass of `net` on `inputs`: the inputs
/// themselves, then the output of each layer on the row before it.
pub open spec fn is_forward<S: Scalar>(
    net: Seq<Seq<NeuronModel<S>>>,
    inputs: Seq<S>,
    o: Seq<Seq<S>>,
) -> bool {
    &&& o.len() == net.len() + 1
    &&& o[0] == inputs
    &&& forall|i: int|
        1 <= i <= net.len() ==> is_layer_output(net[i - 1], o[i - 1], #[trigger] o[i])
}

/// `o` has the shape of a forward record of `net`: one row for the inputs and
/// one per layer, each as wide as what it records.
pub open spec fn is_record_shape<S>(net: Seq<Seq<NeuronModel<S>>>, o: Seq<Seq<S>>) -> bool {
    &&& o.len() == net.len() + 1
    &&& o[0].len() == width_into(net, 0)
    &&& forall|i: int| 1 <= i <= net.len() ==> (#[trigger] o[i]).len() == net[i - 1].len()
}

/// `e` has the shape of the errors of `net`: a row for the inputs, which
/// carry no error and whose row is not read, then one row per layer with one
/// value per neuron.
pub open spec fn is_error_shape<S>(net: Seq<Seq<NeuronModel<S>>>, e: Seq<Seq<S>>) -> bool {
    &&& e.len() == net.len() + 1
    &&& forall|i: int| 1 <= i <= net.len() ==> (#[trigger] e[i]).len() == net[i - 1].len()
}

/// The weights that lead from neuron `j` of the layer before into the neurons
/// of `layer`, in their order.
pub open spec fn column<S>(layer: Seq<NeuronModel<S>>, j: int) -> Seq<S> {
    Seq::new(layer.len(), |k: int| layer[k].weights[j])
}

/// `err` is the error of neuron `j` of a layer that is not the last. The
/// neuron has the activation function `f` and gave `y`; `next` is the layer
/// that follows and `e_next` holds its errors. The errors of `next` are
/// weighted by the connections that leave the neuron and added up, and the
/// sum is multiplied by the derivative of `f` at `y`.
pub open spec fn is_hidden_error<S: Scalar>(
    next: Seq<NeuronModel<S>>,
    e_next: Seq<S>,
    j: int,
    f: ActivationFunction,
    y: S,
    err: S,
) -> bool {
    exists|back: S, slope: S|
        is_inner_product(e_next, column(next, j), next.len(), back) && is_derivative(f, y, slope)
            && #[trigger] is_product(back, slope, err)
}

/// `e_row` holds the errors of `layer`, which is not the last: see
/// [`is_hidden_error`].
pub open spec fn is_layer_error<S: Scalar>(
    next: Seq<NeuronModel<S>>,
    e_next: Seq<S>,
    layer: Seq<NeuronModel<S>>,
    o_row: Seq<S>,
    e_row: Seq<S>,
) -> bool {
    &&& e_row.len() == layer.len()
    &&& forall|j: int|
        0 <= j < layer.len() ==> is_hidden_error(
            next,
            e_next,
            j,
            layer[j].activation_fn,
            o_row[j],
            #[trigger] e_row[j],
        )
}

/// `e_row` holds the errors of the last layer: what it gave less the target,
/// value by value.
pub open spec fn is_residual<S: Scalar>(o_row: Seq<S>, targets: Seq<S>, e_row: Seq<S>) -> bool {
    &&& e_row.len() == o_row.len()
    &&& forall|j: int|
        0 <= j < o_row.len() ==> is_difference(o_row[j], targets[j], #[trigger] e_row[j])
}

/// `e` holds the errors of `net` for the forward record `o` and the targets:
/// row `i` belongs to layer `i - 1`, as in `o`, and row 0 is empty.
pub open spec fn is_backward<S: Scalar>(
    net: Seq<Seq<NeuronModel<S>>>,
    targets: Seq<S>,
    o: Seq<Seq<S>>,
    e: Seq<Seq<S>>,
) -> bool {
    &&& e.len() == net.len() + 1
    &&& e[0].len() == 0
    &&& is_residual(o[net.len() as int], targets, e[net.len() as int])
    &&& forall|i: int|
        1 <= i < net.len() ==> is_layer_error(net[i], e[i + 1], net[i - 1], o[i], #[trigger] e[i])
}

/// `w2` is the weight `w` after a step: `w - step * x`, where `x` is the
/// value that came in over the weight's connection.
pub open spec fn is_updated_weight<S: Scalar>(w: S, step: S, x: S, w2: S) -> bool {
    exists|delta: S| #[trigger] is_product(step, x, delta) && is_difference(w, delta, w2)
}

/// `n2` is the neuron `n` after a step of size `rate` against the error
/// `err`, on the inputs `x`: with `step = rate * err`, the bias is lowered by
/// `step` and each weight by `step` times its input.
pub open spec fn is_updated_neuron<S: Scalar>(
    n: NeuronModel<S>,
    x: Seq<S>,
    err: S,
    rate: S,
    n2: NeuronModel<S>,
) -> bool {
    &&& n2.activation_fn == n.activation_fn
    &&& n2.weights.len() == n.weights.len()
    &&& exists|step: S|
        {
            &&& #[trigger] is_product(rate, err, step)
            &&& is_difference(n.bias, step, n2.bias)
            &&& forall|k: int|
                0 <= k < n.weights.len() ==> is_updated_weight(
                    n.weights[k],
                    step,
                    x[k],
                    #[trigger] n2.weights[k],
                )
        }
}

/// `layer2` is `layer` after a step: neuron by neuron, each against its own
/// error.
pub open spec fn is_updated_layer<S: Scalar>(
    layer: Seq<NeuronModel<S>>,
    x: Seq<S>,
    e_row: Seq<S>,
    rate: S,
    layer2: Seq<NeuronModel<S>>,
) -> bool {
    &&& layer2.len() == layer.len()
    &&& forall|j: int|
        0 <= j < layer.len()
            ==> is_updated_neuron(layer[j], x, e_row[j], rate, #[trigger] layer2[j])
}

/// `net2` is `net` after a step: layer `i` is updated against its errors,
/// `e[i + 1]`, on the row that fed it in the forward pass, `o[i]`.
pub open spec fn is_update<S: Scalar>(
    net: Seq<Seq<NeuronModel<S>>>,
    o: Seq<Seq<S>>,
    e: Seq<Seq<S>>,
    rate: S,
    net2: Seq<Seq<NeuronModel<S>>>,
) -> bool {
    &&& net2.len() == net.len()
    &&& forall|i: int|
        0 <= i < net.len() ==> is_updated_layer(net[i], o[i], e[i + 1], rate, #[trigger] net2[i])
}

/// `net2` is `net` after training on one example: a forward pass on the
/// inputs, the errors against the targets, and the step.
pub open spec fn is_training_step<S: Scalar>(
    net: Seq<Seq<NeuronModel<S>>>,
    inputs: Seq<S>,
    targets: Seq<S>,
    rate: S,
    net2: Seq<Seq<NeuronModel<S>>>,
) -> bool {
    exists|o: Seq<Seq<S>>, e: Seq<Seq<S>>|
        is_forward(net, inputs, o) && is_backward(net, targets, o, e) && #[trigger] is_update(
            net,
            o,
            e,
            rate,
            net2,
        )
}

/// `y` is what `net` predicts on `inputs`: the last row of a forward record.
pub open spec fn is_prediction<S: Scalar>(
    net: Seq<Seq<NeuronModel<S>>>,
    inputs: Seq<S>,
    y: Seq<S>,
) -> bool {
    exists|o: Seq<Seq<S>>| #[trigger] is_forward(net, inputs, o) && y == o.last()
}

/// A forward record has the shape of one.
pub proof fn lemma_forward_shape<S: Scalar>(
    net: Seq<Seq<NeuronModel<S>>>,
    inputs: Seq<S>,
    o: Seq<Seq<S>>,
)
    requires
        is_forward(net, inputs, o),
        inputs.len() == width_into(net, 0),
    ensures
        is_record_shape(net, o),
{
    assert forall|i: int|
        1 <= i <= net.len() implies (#[trigger] o[i]).len() == net[i - 1].len() by {
        assert(is_layer_output(net[i - 1], o[i - 1], o[i]));
    }
}

/// The errors of a network have the shape of its errors.
pub proof fn lemma_backward_shape<S: Scalar>(
    net: Seq<Seq<NeuronModel<S>>>,
    targets: Seq<S>,
    o: Seq<Seq<S>>,
    e: Seq<Seq<S>>,
)
    requires
        net.len() >= 1,
        is_record_shape(net, o),
        is_backward(net, targets, o, e),
    ensures
        is_error_shape(net, e),
{
    assert forall|i: int|
        1 <= i <= net.len() implies (#[trigger] e[i]).len() == net[i - 1].len() by {
        if i < net.len() {
            assert(is_layer_error(net[i], e[i + 1], net[i - 1], o[i], e[i]));
        }
    }
}

/// A step changes no shape: the network stays well formed, and takes inputs
/// and gives outputs of the same widths.
pub proof fn lemma_update_keeps_shape<S: Scalar>(
    net: Seq<Seq<NeuronModel<S>>>,
    o: Seq<Seq<S>>,
    e: Seq<Seq<S>>,
    rate: S,
    net2: Seq<Seq<NeuronModel<S>>>,
)
    requires
        well_formed(net),
        is_update(net, o, e, rate, net2),
    ensures
        well_formed(net2),
        width_into(net2, 0) == width_into(net, 0),
        net2.last().len() == net.last().len(),
{
    assert forall|i: int|
        0 <= i < net2.len() implies (#[trigger] net2[i]).len() == net[i].len() by {
        assert(is_updated_layer(net[i], o[i], e[i + 1], rate, net2[i]));
    }
    assert forall|i: int, j: int| 0 <= i < net2.len() && 0 <= j < net2[i].len() implies (
    #[trigger] net2[i][j]).weights.len() == net[i][j].weights.len() by {
        assert(is_updated_layer(net[i], o[i], e[i + 1], rate, net2[i]));
        assert(is_updated_neuron(net[i][j], o[i], e[i + 1][j], rate, net2[i][j]));
    }
    assert(net2[0][0].weights.len() == net[0][0].weights.len());
    assert forall|i: int, j: int| 0 <= i < net2.len() && 0 <= j < net2[i].len() implies (
    #[trigger] net2[i][j]).weights.len() == width_into(net2, i) by {
        assert(net[i][j].weights.len() == width_into(net, i));
        if i > 0 {
            assert(net2[i - 1].len() == net[i - 1].len());
        }
    }
}

/// `layer` is a layer as it is first made: `count` neurons, each with `width`
/// weights.
pub open spec fn is_initial_layer<S, G: Sampler<S>>(
    layer: Seq<NeuronModel<S>>,
    count: nat,
    width: nat,
    f: ActivationFunction,
    source: &G,
) -> bool {
    &&& layer.len() == count
    &&& forall|j: int| 0 <= j < count ==> is_initial_neuron(#[trigger] layer[j], width, f, source)
}

/// `net` is a network as it is first made for `sizes`: one layer for each
/// pair of neighbours in `sizes`, with as many neurons as the second of the
/// pair says, each with as many weights as the first says.
pub open spec fn is_initial<S, G: Sampler<S>>(
    net: Seq<Seq<NeuronModel<S>>>,
    sizes: Seq<usize>,
    f: ActivationFunction,
    source: &G,
) -> bool {
    &&& net.len() + 1 == sizes.len()
    &&& forall|i: int|
        0 <= i < net.len() ==> is_initial_layer(
            #[trigger] net[i],
            sizes[i + 1] as nat,
            sizes[i] as nat,
            f,
            source,
        )
}

/// A network first made for sizes of which none but the first may be zero is
/// well formed.
pub proof fn lemma_initial_well_formed<S, G: Sampler<S>>(
    net: Seq<Seq<NeuronModel<S>>>,
    sizes: Seq<usize>,
    f: ActivationFunction,
    source: &G,
)
    requires
        is_initial(net, sizes, f, source),
        sizes.len() >= 2,
        forall|i: int| 1 <= i < sizes.len() ==> sizes[i] > 0,
    ensures
        well_formed(net),
        width_into(net, 0) == sizes[0],
        net.last().len() == sizes.last(),
{
    assert forall|i: int| 0 <= i < net.len() implies (#[trigger] net[i]).len() == sizes[i + 1] by {
        assert(is_initial_layer(net[i], sizes[i + 1] as nat, sizes[i] as nat, f, source));
    }
    assert forall|i: int, j: int| 0 <= i < net.len() && 0 <= j < net[i].len() implies (
    #[trigger] net[i][j]).weights.len() == sizes[i] by {
        assert(is_initial_layer(net[i], sizes[i + 1] as nat, sizes[i] as nat, f, source));
        assert(is_initial_neuron(net[i][j], sizes[i] as nat, f, source));
    }
    assert(net[0][0].weights.len() == sizes[0]);
}

/// A network made for `sizes` takes as many values as the first size says,
/// and what it predicts holds as many values as the last size says.
pub proof fn lemma_prediction_width<S: Scalar, G: Sampler<S>>(
    net: Seq<Seq<NeuronModel<S>>>,
    sizes: Seq<usize>,
    f: ActivationFunction,
    source: &G,
    inputs: Seq<S>,
    y: Seq<S>,
)
    requires
        is_initial(net, sizes, f, source),
        sizes.len() >= 2,
        forall|i: int| 1 <= i < sizes.len() ==> sizes[i] > 0,
        is_prediction(net, inputs, y),
    ensures
        width_into(net, 0) == sizes[0],
        y.len() == sizes.last(),
{
    lemma_initial_well_formed(net, sizes, f, source);
    let o = choose|o: Seq<Seq<S>>| #[trigger] is_forward(net, inputs, o) && y == o.last();
    let depth = net.len() as int;
    assert(is_layer_output(net[depth - 1], o[depth - 1], o[depth]));
}

/// A copy of a slice.
fn copy_of<S: Copy>(items: &[S]) -> (copy: Vec<S>)
    ensures
        copy@ == items@,
{
    let mut copy: Vec<S> = Vec::new();
    let mut k: usize = 0;
    while k < items.len()
        invariant
            k <= items@.len(),
            copy@ == items@.take(k as int),
        decreases items@.len() - k,
    {
        copy.push(items[k]);
        assert(copy@ =~= items@.take(k + 1));
        k = k + 1;
    }
    assert(items@.take(k as int) =~= items@);
    copy
}

/// The outputs of one layer on `inputs`.
fn layer_forward<S: Scalar>(layer: &Vec<Neuron<S>>, inputs: &[S]) -> (outputs: Vec<S>)
    requires
        forall|j: int|
            0 <= j < layer@.len() ==> (#[trigger] layer@[j])@.weights.len() == inputs@.len(),
    ensures
        is_layer_output(layer_model(layer@), inputs@, outputs@),
{
    let mut outputs: Vec<S> = Vec::new();
    let mut j: usize = 0;
    while j < layer.len()
        invariant
            j <= layer@.len(),
            outputs@.len() == j,
            forall|q: int|
                0 <= q < layer@.len() ==> (#[trigger] layer@[q])@.weights.len() == inputs@.len(),
            forall|q: int|
                0 <= q < j
                    ==> is_neuron_output(layer_model(layer@)[q], inputs@, #[trigger] outputs@[q]),
        decreases layer@.len() - j,
    {
        let y = layer[j].activate(inputs);
        outputs.push(y);
        j = j + 1;
    }
    outputs
}

/// What the last layer gave less the targets, value by value.
fn residual<S: Scalar>(o_row: &[S], targets: &[S]) -> (e_row: Vec<S>)
    requires
        targets@.len() == o_row@.len(),
    ensures
        is_residual(o_row@, targets@, e_row@),
{
    let mut e_row: Vec<S> = Vec::new();
    let mut j: usize = 0;
    while j < o_row.len()
        invariant
            j <= o_row@.len(),
            targets@.len() == o_row@.len(),
            e_row@.len() == j,
            forall|q: int|
                0 <= q < j ==> is_difference(o_row@[q], targets@[q], #[trigger] e_row@[q]),
        decreases o_row@.len() - j,
    {
        let d = o_row[j].minus(targets[j]);
        e_row.push(d);
        j = j + 1;
    }
    e_row
}

/// The errors of `next`, each weighted by the connection that leads to it
/// from neuron `j` of the layer before, added up.
fn back_sum<S: Scalar>(next: &Vec<Neuron<S>>, e_next: &[S], j: usize) -> (acc: S)
    requires
        e_next@.len() == next@.len(),
        forall|k: int| 0 <= k < next@.len() ==> j < (#[trigger] next@[k])@.weights.len(),
    ensures
        is_inner_product(e_next@, column(layer_model(next@), j as int), next@.len(), acc),
{
    let ghost weights = column(layer_model(next@), j as int);
    let mut acc = S::from_int(0);
    let mut k: usize = 0;
    while k < next.len()
        invariant
            k <= next@.len(),
            e_next@.len() == next@.len(),
            weights == column(layer_model(next@), j as int),
            forall|q: int| 0 <= q < next@.len() ==> j < (#[trigger] next@[q])@.weights.len(),
            is_inner_product(e_next@, weights, k as nat, acc),
        decreases next@.len() - k,
    {
        let term = e_next[k].times(next[k].weights[j]);
        let sum = acc.plus(term);
        proof {
            assert(weights[k as int] == next@[k as int]@.weights[j as int]);
            lemma_inner_product_step(e_next@, weights, k as nat, acc, term, sum);
        }
        acc = sum;
        k = k + 1;
    }
    acc
}

/// The neuron `n` after a step of size `rate` against `err`, on the inputs `x`.
fn updated_neuron<S: Scalar>(n: &Neuron<S>, x: &[S], err: S, rate: S) -> (n2: Neuron<S>)
    requires
        x@.len() == n@.weights.len(),
    ensures
        is_updated_neuron(n@, x@, err, rate, n2@),
{
    let step = rate.times(err);
    let bias = n.bias.minus(step);
    let mut weights: Vec<S> = Vec::new();
    let mut k: usize = 0;
    while k < n.weights.len()
        invariant
            k <= n@.weights.len(),
            x@.len() == n@.weights.len(),
            weights@.len() == k,
            forall|q: int|
                0 <= q < k
                    ==> is_updated_weight(n@.weights[q], step, x@[q], #[trigger] weights@[q]),
        decreases n@.weights.len() - k,
    {
        let delta = step.times(x[k]);
        let w = n.weights[k].minus(delta);
        assert(is_product(step, x@[k as int], delta));
        weights.push(w);
        k = k + 1;
    }
    let n2 = Neuron { weights, bias, activation_fn: n.activation_fn };
    assert(is_product(rate, err, step));
    n2
}

/// The layer after a step of size `rate`: each neuron against its own error,
/// all on the inputs `x`.
fn updated_layer<S: Scalar>(layer: &Vec<Neuron<S>>, x: &[S], e_row: &[S], rate: S) -> (layer2: Vec<
    Neuron<S>,
>)
    requires
        e_row@.len() == layer@.len(),
        forall|j: int| 0 <= j < layer@.len() ==> (#[trigger] layer@[j])@.weights.len() == x@.len(),
    ensures
        is_updated_layer(layer_model(layer@), x@, e_row@, rate, layer_model(layer2@)),
{
    let mut layer2: Vec<Neuron<S>> = Vec::new();
    let mut j: usize = 0;
    while j < layer.len()
        invariant
            j <= layer@.len(),
            e_row@.len() == layer@.len(),
            forall|q: int|
                0 <= q < layer@.len() ==> (#[trigger] layer@[q])@.weights.len() == x@.len(),
            layer2@.len() == j,
            forall|q: int|
                0 <= q < j ==> is_updated_neuron(
                    layer@[q]@,
                    x@,
                    e_row@[q],
                    rate,
                    (#[trigger] layer2@[q])@,
                ),
        decreases layer@.len() - j,
    {
        let n2 = updated_neuron(&layer[j], x, e_row[j], rate);
        layer2.push(n2);
        j = j + 1;
    }
    assert forall|q: int| 0 <= q < layer@.len() implies is_updated_neuron(
        layer_model(layer@)[q],
        x@,
        e_row@[q],
        rate,
        #[trigger] layer_model(layer2@)[q],
    ) by {
        assert(layer_model(layer2@)[q] == layer2@[q]@);
    }
    layer2
}

impl<S: Scalar> Network<S> {
    /// A network for `layer_sizes`: the width of the input, then the size of
    /// each layer. Every neuron has the activation function `activation_fn`;
    /// weights and biases are drawn from `source`, layer by layer and neuron by
    /// neuron, a neuron's weights before its bias.
    pub fn new<G: Sampler<S>>(
        layer_sizes: &[usize],
        activation_fn: ActivationFunction,
        source: &G,
    ) -> (net: Self)
        requires
            layer_sizes@.len() >= 2,
        ensures
            is_initial(net@, layer_sizes@, activation_fn, source),
            (forall|i: int| 1 <= i < layer_sizes@.len() ==> layer_sizes@[i] > 0) ==> well_formed(
                net@,
            ),
    {
        let mut layers: Vec<Vec<Neuron<S>>> = Vec::new();
        let mut i: usize = 1;
        while i < layer_sizes.len()
            invariant
                1 <= i <= layer_sizes@.len(),
                layers@.len() == i - 1,
                forall|m: int|
                    0 <= m < i - 1 ==> is_initial_layer(
                        layer_model((#[trigger] layers@[m])@),
                        layer_sizes@[m + 1] as nat,
                        layer_sizes@[m] as nat,
                        activation_fn,
                        source,
                    ),
            decreases layer_sizes@.len() - i,
        {
            let width = layer_sizes[i - 1];
            let count = layer_sizes[i];
            let mut layer: Vec<Neuron<S>> = Vec::new();
            let mut j: usize = 0;
            while j < count
                invariant
                    j <= count,
                    layer@.len() == j,
                    forall|q: int|
                        0 <= q < j ==> is_initial_neuron(
                            (#[trigger] layer@[q])@,
                            width as nat,
                            activation_fn,
                            source,
                        ),
                decreases count - j,
            {
                layer.push(Neuron::new(width, activation_fn, source));
                j = j + 1;
            }
            assert forall|q: int| 0 <= q < count implies is_initial_neuron(
                #[trigger] layer_model(layer@)[q],
                width as nat,
                activation_fn,
                source,
            ) by {
                assert(layer_model(layer@)[q] == layer@[q]@);
            }
            layers.push(layer);
            i = i + 1;
        }
        let net = Network { layers };
        proof {
            assert forall|m: int| 0 <= m < net@.len() implies is_initial_layer(
                #[trigger] net@[m],
                layer_sizes@[m + 1] as nat,
                layer_sizes@[m] as nat,
                activation_fn,
                source,
            ) by {
                assert(net@[m] == layer_model(layers@[m]@));
            }
            if forall|i: int| 1 <= i < layer_sizes@.len() ==> layer_sizes@[i] > 0 {
                lemma_initial_well_formed(net@, layer_sizes@, activation_fn, source);
            }
        }
        net
    }

    /// Whether the network is well formed.
    pub fn is_well_formed(&self) -> (b: bool)
        ensures
            b == well_formed(self@),
    {
        if self.layers.len() == 0 {
            return false;
        }
        if self.layers[0].len() == 0 {
            assert(self@[0].len() == 0);
            return false;
        }
        let mut width = self.layers[0][0].weights.len();
        assert(self@[0][0] == self.layers@[0]@[0]@);
        let mut i: usize = 0;
        while i < self.layers.len()
            invariant
                i <= self.layers@.len(),
                self@.len() == self.layers@.len(),
                self@.len() >= 1,
                width == width_into(self@, i as int),
                forall|m: int| 0 <= m < i ==> (#[trigger] self@[m]).len() >= 1,
                forall|m: int, j: int|
                    0 <= m < i && 0 <= j < self@[m].len() ==> (#[trigger] self@[m][j]).weights.len()
                        == width_into(self@, m),
            decreases self.layers@.len() - i,
        {
            let layer = &self.layers[i];
            assert(self@[i as int] == layer_model(layer@));
            if layer.len() == 0 {
                return false;
            }
            let mut j: usize = 0;
            while j < layer.len()
                invariant
                    j <= layer@.len(),
                    i < self@.len(),
                    self@[i as int] == layer_model(layer@),
                    width == width_into(self@, i as int),
                    forall|q: int|
                        0 <= q < j ==> (#[trigger] self@[i as int][q]).weights.len() == width,
                decreases layer@.len() - j,
            {
                assert(self@[i as int][j as int] == layer@[j as int]@);
                if layer[j].weights.len() != width {
                    return false;
                }
                j = j + 1;
            }
            width = layer.len();
            i = i + 1;
        }
        true
    }

    /// The number of values the network takes.
    pub fn input_width(&self) -> (width: usize)
        requires
            well_formed(self@),
        ensures
            width == width_into(self@, 0),
    {
        assert(self@[0][0] == self.layers@[0]@[0]@);
        assert(self@[0].len() >= 1);
        self.layers[0][0].weights.len()
    }

    /// The number of values the network gives.
    pub fn output_width(&self) -> (width: usize)
        requires
            well_formed(self@),
        ensures
            width == self@.last().len(),
    {
        self.layers[self.layers.len() - 1].len()
    }

    /// The record of a forward pass: the inputs, then each layer's outputs,
    /// every layer fed with the row before it.
    pub fn forward(&self, inputs: &[S]) -> (outputs: Vec<Vec<S>>)
        requires
            well_formed(self@),
            inputs@.len() == width_into(self@, 0),
        ensures
            is_forward(self@, inputs@, grid(outputs@)),
    {
        let mut outputs: Vec<Vec<S>> = Vec::new();
        outputs.push(copy_of(inputs));
        let mut i: usize = 0;
        while i < self.layers.len()
            invariant
                i <= self@.len(),
                self@.len() == self.layers@.len(),
                well_formed(self@),
                outputs@.len() == i + 1,
                outputs@[0]@ == inputs@,
                inputs@.len() == width_into(self@, 0),
                forall|m: int|
                    1 <= m <= i ==> is_layer_output(
                        self@[m - 1],
                        grid(outputs@)[m - 1],
                        #[trigger] grid(outputs@)[m],
                    ),
            decreases self@.len() - i,
        {
            let ghost before = grid(outputs@);
            let layer = &self.layers[i];
            assert(self@[i as int] == layer_model(layer@));
            assert(before[i as int].len() == width_into(self@, i as int)) by {
                if i > 0 {
                    assert(is_layer_output(self@[i - 1], before[i - 1], before[i as int]));
                }
            }
            assert forall|j: int|
                0 <= j < layer@.len() implies (#[trigger] layer@[j])@.weights.len()
                == outputs@[i as int]@.len() by {
                assert(self@[i as int][j] == layer@[j]@);
            }
            let row = layer_forward(layer, outputs[i].as_slice());
            outputs.push(row);
            i = i + 1;
            proof {
                let after = grid(outputs@);
                assert forall|m: int| 1 <= m <= i implies is_layer_output(
                    self@[m - 1],
                    after[m - 1],
                    #[trigger] after[m],
                ) by {
                    assert(after[m - 1] == before[m - 1]);
                    if m < i {
                        assert(after[m] == before[m]);
                    }
                }
            }
        }
        assert(grid(outputs@)[0] == inputs@);
        outputs
    }

    /// What the network gives on `inputs`: the output of its last layer.
    pub fn predict(&self, inputs: &[S]) -> (output: Vec<S>)
        requires
            well_formed(self@),
            inputs@.len() == width_into(self@, 0),
        ensures
            is_prediction(self@, inputs@, output@),
            output@.len() == self@.last().len(),
    {
        let mut outputs = self.forward(inputs);
        let ghost o = grid(outputs@);
        let last = outputs.pop();
        proof {
            lemma_forward_shape(self@, inputs@, o);
            assert(o[self@.len() as int].len() == self@[self@.len() - 1].len());
            assert(last.unwrap()@ == o.last());
        }
        last.unwrap()
    }

    /// The errors of layer `i - 1`, which is not the last, from those of the
    /// layer that follows it.
    fn layer_backward(&self, i: usize, o_row: &[S], e_next: &[S]) -> (e_row: Vec<S>)
        requires
            well_formed(self@),
            1 <= i < self@.len(),
            o_row@.len() == self@[i - 1].len(),
            e_next@.len() == self@[i as int].len(),
        ensures
            is_layer_error(self@[i as int], e_next@, self@[i - 1], o_row@, e_row@),
    {
        let next = &self.layers[i];
        let layer = &self.layers[i - 1];
        assert(self@[i as int] == layer_model(next@));
        assert(self@[i - 1] == layer_model(layer@));
        assert forall|k: int| 0 <= k < next@.len() implies (#[trigger] next@[k])@.weights.len()
            == layer@.len() by {
            assert(self@[i as int][k] == next@[k]@);
        }
        let mut e_row: Vec<S> = Vec::new();
        let mut j: usize = 0;
        while j < layer.len()
            invariant
                j <= layer@.len(),
                o_row@.len() == layer@.len(),
                e_next@.len() == next@.len(),
                forall|k: int|
                    0 <= k < next@.len() ==> (#[trigger] next@[k])@.weights.len() == layer@.len(),
                e_row@.len() == j,
                forall|q: int|
                    0 <= q < j ==> is_hidden_error(
                        layer_model(next@),
                        e_next@,
                        q,
                        layer@[q]@.activation_fn,
                        o_row@[q],
                        #[trigger] e_row@[q],
                    ),
            decreases layer@.len() - j,
        {
            let back = back_sum(next, e_next, j);
            let slope = layer[j].activation_derivative(o_row[j]);
            let err = back.times(slope);
            assert(is_product(back, slope, err));
            e_row.push(err);
            j = j + 1;
        }
        assert forall|q: int| 0 <= q < layer@.len() implies is_hidden_error(
            layer_model(next@),
            e_next@,
            q,
            layer_model(layer@)[q].activation_fn,
            o_row@[q],
            #[trigger] e_row@[q],
        ) by {
            assert(layer_model(layer@)[q] == layer@[q]@);
        }
        e_row
    }

    /// The errors of every layer for the forward record `outputs` and the
    /// targets. Row `i` of the result belongs to layer `i - 1`, as in
    /// `outputs`; row 0, that of the inputs, is empty. The last layer's error
    /// is what it gave less the target, taken as it is. The layers before it
    /// are worked out from the last to the first: the errors of the layer that
    /// follows go back over the connections and meet the derivative of the
    /// activation function at what the neuron gave.
    pub fn backward(&self, targets: &[S], outputs: &[Vec<S>]) -> (errors: Vec<Vec<S>>)
        requires
            well_formed(self@),
            is_record_shape(self@, grid(outputs@)),
            targets@.len() == self@.last().len(),
        ensures
            is_backward(self@, targets@, grid(outputs@), grid(errors@)),
    {
        let depth = self.layers.len();
        let ghost o = grid(outputs@);
        let mut errors: Vec<Vec<S>> = Vec::new();
        errors.push(Vec::new());
        let mut i: usize = 1;
        while i < depth
            invariant
                1 <= i <= depth,
                errors@.len() == i,
                errors@[0]@.len() == 0,
            decreases depth - i,
        {
            errors.push(Vec::new());
            i = i + 1;
        }
        assert(o[depth as int] == outputs@[depth as int]@);
        errors.push(residual(outputs[depth].as_slice(), targets));
        let mut i: usize = depth - 1;
        while i >= 1
            invariant
                i < depth,
                depth == self@.len(),
                well_formed(self@),
                o == grid(outputs@),
                is_record_shape(self@, o),
                errors@.len() == depth + 1,
                errors@[0]@.len() == 0,
                is_residual(o[depth as int], targets@, grid(errors@)[depth as int]),
                forall|m: int|
                    i < m <= depth ==> (#[trigger] grid(errors@)[m]).len() == self@[m - 1].len(),
                forall|m: int|
                    i < m < depth ==> is_layer_error(
                        self@[m],
                        grid(errors@)[m + 1],
                        self@[m - 1],
                        o[m],
                        #[trigger] grid(errors@)[m],
                    ),
            decreases i,
        {
            let ghost before = grid(errors@);
            assert(before[i + 1].len() == self@[i as int].len());
            assert(o[i as int] == outputs@[i as int]@);
            let row = self.layer_backward(i, outputs[i].as_slice(), errors[i + 1].as_slice());
            errors[i] = row;
            proof {
                let after = grid(errors@);
                assert(after[i as int] == row@);
                assert forall|m: int| i <= m <= depth implies (#[trigger] after[m]).len() == self@[m
                    - 1].len() by {
                    if m > i {
                        assert(after[m] == before[m]);
                    }
                }
                assert forall|m: int| i <= m < depth implies is_layer_error(
                    self@[m],
                    after[m + 1],
                    self@[m - 1],
                    o[m],
                    #[trigger] after[m],
                ) by {
                    assert(after[m + 1] == before[m + 1]);
                    if m > i {
                        assert(after[m] == before[m]);
                    }
                }
                assert(after[depth as int] == before[depth as int]);
            }
            i = i - 1;
        }
        errors
    }

    /// One step of gradient descent. Layer `i` is updated against its errors,
    /// `errors[i + 1]`, on the row that fed it in the forward pass,
    /// `outputs[i]`: the first layer on the network's inputs, every other layer
    /// on what the layer before it gave. With `step` the learning rate times a
    /// neuron's error, its bias is lowered by `step` and each of its weights by
    /// `step` times the value that came in over it.
    pub fn update_weights(&mut self, outputs: &[Vec<S>], errors: &[Vec<S>], learning_rate: S)
        requires
            well_formed(old(self)@),
            is_record_shape(old(self)@, grid(outputs@)),
            is_error_shape(old(self)@, grid(errors@)),
        ensures
            is_update(old(self)@, grid(outputs@), grid(errors@), learning_rate, final(self)@),
            well_formed(final(self)@),
    {
        let ghost net = self@;
        let ghost o = grid(outputs@);
        let ghost e = grid(errors@);
        let mut layers: Vec<Vec<Neuron<S>>> = Vec::new();
        let mut i: usize = 0;
        while i < self.layers.len()
            invariant
                i <= net.len(),
                net == self@,
                net.len() == self.layers@.len(),
                well_formed(net),
                o == grid(outputs@),
                e == grid(errors@),
                is_record_shape(net, o),
                is_error_shape(net, e),
                layers@.len() == i,
                forall|m: int|
                    0 <= m < i ==> is_updated_layer(
                        net[m],
                        o[m],
                        e[m + 1],
                        learning_rate,
                        layer_model((#[trigger] layers@[m])@),
                    ),
            decreases net.len() - i,
        {
            let layer = &self.layers[i];
            assert(net[i as int] == layer_model(layer@));
            assert(o[i as int] == outputs@[i as int]@);
            assert(e[i + 1] == errors@[i + 1]@);
            assert(o[i as int].len() == width_into(net, i as int));
            assert forall|j: int|
                0 <= j < layer@.len() implies (#[trigger] layer@[j])@.weights.len()
                == outputs@[i as int]@.len() by {
                assert(net[i as int][j] == layer@[j]@);
            }
            let layer2 = updated_layer(
                layer,
                outputs[i].as_slice(),
                errors[i + 1].as_slice(),
                learning_rate,
            );
            layers.push(layer2);
            i = i + 1;
        }
        self.layers = layers;
        proof {
            assert forall|m: int| 0 <= m < net.len() implies is_updated_layer(
                net[m],
                o[m],
                e[m + 1],
                learning_rate,
                #[trigger] self@[m],
            ) by {
                assert(self@[m] == layer_model(layers@[m]@));
            }
            lemma_update_keeps_shape(net, o, e, learning_rate, self@);
        }
    }

    /// Trains the network on one example: a forward pass on `inputs`, the
    /// errors against `targets`, then one step of gradient descent.
    pub fn train(&mut self, inputs: &[S], targets: &[S], learning_rate: S)
        requires
            well_formed(old(self)@),
            inputs@.len() == width_into(old(self)@, 0),
            targets@.len() == old(self)@.last().len(),
        ensures
            is_training_step(old(self)@, inputs@, targets@, learning_rate, final(self)@),
            well_formed(final(self)@),
            width_into(final(self)@, 0) == width_into(old(self)@, 0),
            final(self)@.last().len() == old(self)@.last().len(),
    {
        let outputs = self.forward(inputs);
        proof {
            lemma_forward_shape(self@, inputs@, grid(outputs@));
        }
        let errors = self.backward(targets, outputs.as_slice());
        proof {
            lemma_backward_shape(self@, targets@, grid(outputs@), grid(errors@));
        }
        let ghost net = self@;
        self.update_weights(outputs.as_slice(), errors.as_slice(), learning_rate);
        proof {
            lemma_update_keeps_shape(net, grid(outputs@), grid(errors@), learning_rate, self@);
        }
    }
}

} // verus!
