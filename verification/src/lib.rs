//! Numerical routines with machine-checked contracts.
//!
//! The heart of the crate is a layered feed-forward network that learns by backpropagation
//! (`neuron`), beside its forward-only sibling with a threshold activation (`perceptron`).
//! Both are written over an abstract number type (`scalar`) and, for the learning network, an
//! abstract activation function (`activation`): their contracts say which operations are
//! applied to which values and in which order, and exactly when a call is refused because two
//! lengths do not go together (`error`).
//!
//! Around it stand a few integer routines: factorials and the integer step of the fast inverse
//! square root (`math`), a prime sieve (`prime`), selection sort (`sorting`), the vote among
//! the labels of nearest neighbours (`classification`), and the reading and counting of
//! transactions for association rules (`apriori`).

pub mod activation;
pub mod apriori;
pub mod classification;
pub mod error;
pub mod math;
pub mod neuron;
pub mod perceptron;
pub mod prime;
pub mod scalar;
pub mod sorting;
