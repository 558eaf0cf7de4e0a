use perceptron::network::Network;
use perceptron::neuron::{ActivationFunction, Neuron};
use perceptron::scalar::{inner_product, Scalar};

/// Whole numbers with exact arithmetic: an operation whose result does not
/// fit gives none.
#[derive(Clone, Copy, Debug, PartialEq)]
struct Whole(i64);

impl Scalar for Whole {
    fn from_int(n: i32) -> Self {
        Whole(i64::from(n))
    }

    fn plus(self, rhs: Self) -> Self {
        Whole(self.0.checked_add(rhs.0).unwrap())
    }

    fn minus(self, rhs: Self) -> Self {
        Whole(self.0.checked_sub(rhs.0).unwrap())
    }

    fn times(self, rhs: Self) -> Self {
        Whole(self.0.checked_mul(rhs.0).unwrap())
    }

    fn over(self, _rhs: Self) -> Self {
        unreachable!()
    }

    fn negated(self) -> Self {
        Whole(self.0.checked_neg().unwrap())
    }

    fn exp(self) -> Self {
        unreachable!()
    }

    fn tanh(self) -> Self {
        unreachable!()
    }

    fn larger(self, rhs: Self) -> Self {
        Whole(self.0.max(rhs.0))
    }

    fn exceeds(self, rhs: Self) -> bool {
        self.0 > rhs.0
    }
}

const R: ActivationFunction = ActivationFunction::ReLU;

fn wholes(values: &[i64]) -> Vec<Whole> {
    values.iter().map(|v| Whole(*v)).collect()
}

fn neuron(weights: &[i64], bias: i64, activation_fn: ActivationFunction) -> Neuron<Whole> {
    Neuron { weights: wholes(weights), bias: Whole(bias), activation_fn }
}

fn dot(a: &[Whole], b: &[Whole]) -> i64 {
    a.iter().zip(b).map(|(x, y)| x.0 * y.0).sum()
}

#[test]
fn an_inner_product_is_the_sum_of_the_products() {
    assert_eq!(inner_product(&wholes(&[2, -3, 7]), &wholes(&[5, 1, -2])), Whole(10 - 3 - 14));
    assert_eq!(inner_product::<Whole>(&[], &[]), Whole(0));
    assert_eq!(inner_product(&wholes(&[6]), &wholes(&[7])), Whole(42));
}

#[test]
fn a_rectifier_neuron_gives_its_weighted_sum_or_zero() {
    let n = neuron(&[2, -3], 4, R);
    assert_eq!(n.activate(&wholes(&[5, 1])), Whole(11));
    assert_eq!(n.activate(&wholes(&[1, 5])), Whole(0));
    assert_eq!(n.activate(&wholes(&[1, 2])), Whole(0));
}

#[test]
fn derivatives_are_polynomials_in_the_activated_value() {
    let sigmoid = neuron(&[], 0, ActivationFunction::Sigmoid);
    assert_eq!(sigmoid.activation_derivative(Whole(3)), Whole(3 * (1 - 3)));
    assert_eq!(sigmoid.activation_derivative(Whole(1)), Whole(0));
    let relu = neuron(&[], 0, R);
    assert_eq!(relu.activation_derivative(Whole(5)), Whole(1));
    assert_eq!(relu.activation_derivative(Whole(0)), Whole(0));
    assert_eq!(relu.activation_derivative(Whole(-5)), Whole(0));
    let tanh = neuron(&[], 0, ActivationFunction::Tanh);
    assert_eq!(tanh.activation_derivative(Whole(3)), Whole(1 - 3 * 3));
    assert_eq!(tanh.activation_derivative(Whole(-1)), Whole(0));
}

#[test]
fn errors_go_back_over_the_weights() {
    let net = Network {
        layers: vec![
            vec![neuron(&[1, 2], 0, R), neuron(&[3, -1], 1, R)],
            vec![neuron(&[2, 5], 0, R)],
        ],
    };
    let record = net.forward(&wholes(&[1, 1]));
    assert_eq!(record, vec![wholes(&[1, 1]), wholes(&[3, 3]), wholes(&[21])]);
    let errors = net.backward(&wholes(&[20]), &record);
    assert_eq!(errors, vec![vec![], wholes(&[2, 5]), wholes(&[1])]);

    // A neuron that gave nothing passes no error on.
    let record = net.forward(&wholes(&[-1, -1]));
    assert_eq!(record, vec![wholes(&[-1, -1]), wholes(&[0, 0]), wholes(&[0])]);
    let errors = net.backward(&wholes(&[-4]), &record);
    assert_eq!(errors, vec![vec![], wholes(&[0, 0]), wholes(&[4])]);
}

#[test]
fn errors_add_up_over_the_neurons_of_the_next_layer() {
    let net = Network {
        layers: vec![
            vec![neuron(&[1], 0, R), neuron(&[2], 0, R)],
            vec![neuron(&[1, 1], 0, R), neuron(&[2, -1], 0, R), neuron(&[0, 3], 0, R)],
            vec![neuron(&[1, 1, 1], 0, R), neuron(&[1, 0, -1], 0, R)],
        ],
    };
    let record = net.forward(&wholes(&[1]));
    assert_eq!(record[1], wholes(&[1, 2]));
    assert_eq!(record[2], wholes(&[3, 0, 6]));
    assert_eq!(record[3], wholes(&[9, 0]));
    let errors = net.backward(&wholes(&[7, -2]), &record);
    assert_eq!(errors[3], wholes(&[2, 2]));
    // weights that leave each neuron of the middle layer: (1, 1), (1, 0), (1, -1)
    assert_eq!(errors[2], wholes(&[4, 0, 0]));
    // weights that leave each neuron of the first layer: (1, 2, 0), (1, -1, 3)
    assert_eq!(errors[1], wholes(&[4, 4]));
    assert!(errors[0].is_empty());
}

#[test]
fn a_step_lowers_bias_and_weights_by_rate_times_error() {
    let mut net = Network { layers: vec![vec![neuron(&[2, -3], 4, R)]] };
    let inputs = wholes(&[5, 1]);
    let outputs = vec![inputs.clone(), wholes(&[11])];
    let errors = vec![vec![], wholes(&[2])];
    net.update_weights(&outputs, &errors, Whole(3));
    assert_eq!(net.layers[0][0].weights, wholes(&[2 - 3 * 2 * 5, -3 - 3 * 2 * 1]));
    assert_eq!(net.layers[0][0].bias, Whole(4 - 3 * 2));
}

#[test]
fn a_step_moves_the_weighted_sum_against_the_error() {
    let before = neuron(&[2, -3], 4, R);
    let inputs = wholes(&[5, 1]);
    for (rate, err) in [(3i64, 2i64), (1, -4), (2, 0), (0, 9)] {
        let mut net = Network { layers: vec![vec![before.clone()]] };
        let outputs = vec![inputs.clone(), wholes(&[11])];
        net.update_weights(&outputs, &[vec![], wholes(&[err])], Whole(rate));
        let after = &net.layers[0][0];
        let moved = dot(&after.weights, &inputs) + after.bias.0;
        let start = dot(&before.weights, &inputs) + before.bias.0;
        assert_eq!(moved, start - rate * err * (dot(&inputs, &inputs) + 1));
    }
}

#[test]
fn training_twice_from_the_same_start_ends_the_same() {
    let start = Network {
        layers: vec![
            vec![neuron(&[1, 2], 0, R), neuron(&[3, -1], 1, R)],
            vec![neuron(&[2, 5], 0, R)],
        ],
    };
    let mut a = start.clone();
    let mut b = start.clone();
    a.train(&wholes(&[1, 1]), &wholes(&[20]), Whole(1));
    b.train(&wholes(&[1, 1]), &wholes(&[20]), Whole(1));
    for (x, y) in a.layers.iter().zip(&b.layers) {
        for (n, m) in x.iter().zip(y) {
            assert_eq!(n.weights, m.weights);
            assert_eq!(n.bias, m.bias);
        }
    }
    // errors (2, 5) and (1), on the rows (1, 1) and (3, 3)
    assert_eq!(a.layers[0][0].weights, wholes(&[1 - 2, 2 - 2]));
    assert_eq!(a.layers[0][0].bias, Whole(-2));
    assert_eq!(a.layers[0][1].weights, wholes(&[3 - 5, -1 - 5]));
    assert_eq!(a.layers[0][1].bias, Whole(1 - 5));
    assert_eq!(a.layers[1][0].weights, wholes(&[2 - 3, 5 - 3]));
    assert_eq!(a.layers[1][0].bias, Whole(-1));
}
