use perceptron::neuron::{ActivationFunction, Neuron};
use perceptron::scalar::{Sampler, Scalar};
use rand::Rng;
use std::cell::Cell;

#[derive(Clone, Copy, Debug, PartialEq)]
struct Real(f64);

impl Scalar for Real {
    fn from_int(n: i32) -> Self {
        Real(f64::from(n))
    }

    fn plus(self, rhs: Self) -> Self {
        Real(self.0 + rhs.0)
    }

    fn minus(self, rhs: Self) -> Self {
        Real(self.0 - rhs.0)
    }

    fn times(self, rhs: Self) -> Self {
        Real(self.0 * rhs.0)
    }

    fn over(self, rhs: Self) -> Self {
        Real(self.0 / rhs.0)
    }

    fn negated(self) -> Self {
        Real(-self.0)
    }

    fn exp(self) -> Self {
        Real(self.0.exp())
    }

    fn tanh(self) -> Self {
        Real(self.0.tanh())
    }

    fn larger(self, rhs: Self) -> Self {
        Real(self.0.max(rhs.0))
    }

    fn exceeds(self, rhs: Self) -> bool {
        self.0 > rhs.0
    }
}

/// Draws 0, 1, 2 and so on.
struct Counting(Cell<i32>);

impl Sampler<Real> for Counting {
    fn draw(&self) -> Real {
        let n = self.0.get();
        self.0.set(n + 1);
        Real(f64::from(n))
    }
}

/// Draws from the generator of the thread, uniformly between -1 and 1.
struct Ambient;

impl Sampler<Real> for Ambient {
    fn draw(&self) -> Real {
        Real(rand::thread_rng().gen_range(-1.0..1.0))
    }
}

fn neuron(weights: &[f64], bias: f64, activation_fn: ActivationFunction) -> Neuron<Real> {
    Neuron { weights: weights.iter().map(|w| Real(*w)).collect(), bias: Real(bias), activation_fn }
}

fn close(a: f64, b: f64) -> bool {
    (a - b).abs() < 1e-12
}

#[test]
fn a_new_neuron_draws_its_weights_and_then_its_bias() {
    let source = Counting(Cell::new(0));
    let n = Neuron::new(3, ActivationFunction::Tanh, &source);
    assert_eq!(n.weights, vec![Real(0.0), Real(1.0), Real(2.0)]);
    assert_eq!(n.bias, Real(3.0));
    assert_eq!(n.activation_fn, ActivationFunction::Tanh);
    assert_eq!(source.0.get(), 4);
}

#[test]
fn a_new_neuron_without_inputs_has_a_bias_only() {
    let source = Counting(Cell::new(5));
    let n = Neuron::new(0, ActivationFunction::ReLU, &source);
    assert!(n.weights.is_empty());
    assert_eq!(n.bias, Real(5.0));
}

#[test]
fn a_new_neuron_starts_between_minus_one_and_one() {
    let n = Neuron::new(200, ActivationFunction::Sigmoid, &Ambient);
    assert_eq!(n.weights.len(), 200);
    for w in n.weights.iter() {
        assert!(-1.0 <= w.0 && w.0 < 1.0);
    }
    assert!(-1.0 <= n.bias.0 && n.bias.0 < 1.0);
    let first = n.weights[0];
    assert!(n.weights.iter().any(|w| *w != first));
}

#[test]
fn activate_adds_the_bias_to_the_weighted_sum() {
    let inputs = [Real(2.0), Real(4.0)];
    let relu = neuron(&[0.5, -0.25], 0.125, ActivationFunction::ReLU);
    assert_eq!(relu.activate(&inputs), Real(0.125));
    let sigmoid = neuron(&[0.5, -0.25], 0.125, ActivationFunction::Sigmoid);
    assert!(close(sigmoid.activate(&inputs).0, 0.5312093733737563));
    let tanh = neuron(&[0.5, -0.25], 0.125, ActivationFunction::Tanh);
    assert!(close(tanh.activate(&inputs).0, 0.1243530017715962));
}

#[test]
fn activate_without_inputs_is_the_activation_of_the_bias() {
    let n = neuron(&[], 0.75, ActivationFunction::ReLU);
    assert_eq!(n.activate(&[]), Real(0.75));
}

#[test]
fn relu_cuts_off_what_is_negative() {
    let n = neuron(&[1.0], 0.0, ActivationFunction::ReLU);
    assert_eq!(n.activate(&[Real(-3.0)]), Real(0.0));
    assert_eq!(n.activate(&[Real(3.0)]), Real(3.0));
    assert_eq!(n.relu(Real(-0.5)), Real(0.0));
    assert_eq!(n.relu(Real(0.0)), Real(0.0));
    assert_eq!(n.relu(Real(2.5)), Real(2.5));
}

#[test]
fn sigmoid_is_one_half_at_zero() {
    let n = neuron(&[], 0.0, ActivationFunction::Sigmoid);
    assert_eq!(n.sigmoid(Real(0.0)), Real(0.5));
    assert!(close(n.sigmoid(Real(2.0)).0, 0.8807970779778823));
    assert!(close(n.sigmoid(Real(-2.0)).0, 0.11920292202211755));
}

#[test]
fn tanh_is_odd() {
    let n = neuron(&[], 0.0, ActivationFunction::Tanh);
    assert_eq!(n.tanh(Real(0.0)), Real(0.0));
    assert!(close(n.tanh(Real(0.5)).0, 0.46211715726000974));
    assert!(close(n.tanh(Real(-0.5)).0, -0.46211715726000974));
}

#[test]
fn activations_stay_in_their_ranges() {
    let n = neuron(&[], 0.0, ActivationFunction::Sigmoid);
    let mut x = -20.0;
    while x <= 20.0 {
        let s = n.sigmoid(Real(x)).0;
        assert!(0.0 < s && s < 1.0);
        let r = n.relu(Real(x)).0;
        assert!(r >= 0.0);
        let t = n.tanh(Real(x)).0;
        if x.abs() < 15.0 {
            assert!(-1.0 < t && t < 1.0);
        } else {
            assert!(-1.0 <= t && t <= 1.0);
        }
        x += 0.25;
    }
}

#[test]
fn the_derivative_is_taken_at_the_activated_value() {
    let sigmoid = neuron(&[], 0.0, ActivationFunction::Sigmoid);
    assert_eq!(sigmoid.activation_derivative(Real(0.5)), Real(0.25));
    assert_eq!(sigmoid.activation_derivative(Real(0.25)), Real(0.1875));
    let relu = neuron(&[], 0.0, ActivationFunction::ReLU);
    assert_eq!(relu.activation_derivative(Real(0.0)), Real(0.0));
    assert_eq!(relu.activation_derivative(Real(1.0)), Real(1.0));
    assert_eq!(relu.activation_derivative(Real(-2.0)), Real(0.0));
    assert_eq!(relu.activation_derivative(Real(7.5)), Real(1.0));
    let tanh = neuron(&[], 0.0, ActivationFunction::Tanh);
    assert_eq!(tanh.activation_derivative(Real(0.0)), Real(1.0));
    assert_eq!(tanh.activation_derivative(Real(0.5)), Real(0.75));
}
