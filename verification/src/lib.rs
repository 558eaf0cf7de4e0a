//! A small multilayer perceptron, trained one example at a time by
//! backpropagation and plain gradient descent.
//!
//! The arithmetic is left to the caller: every number is a [`scalar::Scalar`],
//! and the library fixes which operations are applied to which operands, in
//! which order. Each contract says so as a relation between operands and
//! outcome, which holds whatever the arithmetic returned.

pub mod scalar;
pub mod neuron;
pub mod network;
pub mod determinism;
pub mod exact;
pub mod dataset;
pub mod partition;
