use crate::activation::Activation;
use crate::error::DimensionMismatch;
use crate::neuron::model::{d_sigmoid_spec, lowered, scaled, NodeView};
use crate::scalar::{dot, Scalar};
use core::marker::PhantomData;
use vstd::prelude::*;

verus! {

/// A unit of a network that learns: weights, a bias and a learning rate, and what its last
/// forward and backward pass left behind.
#[derive(Debug)]
pub struct Node<T, A> {
    /// One weight for each input.
    pub weights: Vec<T>,
    /// The number added to the weighted inputs.
    pub bias: T,
    /// The factor by which a gradient is scaled into a step.
    pub learning_rate: T,
    /// The output of the last activation.
    pub output: T,
    /// The error term of the last backward pass.
    pub error: T,
    /// The steps by which the weights are to change.
    pub delta_weights: Vec<T>,
    /// The step by which the bias is to change.
    pub delta_bias: T,
    /// The gradient of the loss with respect to each weight.
    pub gradients: Vec<T>,
    /// The activation function of the unit.
    pub activation: PhantomData<A>,
}

impl<T, A> View for Node<T, A> {
    type V = NodeView<T>;

    open spec fn view(&self) -> NodeView<T> {
        NodeView {
            weights: self.weights@,
            bias: self.bias,
            learning_rate: self.learning_rate,
            output: self.output,
            error: self.error,
            delta_weights: self.delta_weights@,
            delta_bias: self.delta_bias,
            gradients: self.gradients@,
        }
    }
}

/// Computes `factor * v[i]` for each element of `v`.
fn scale<T: Scalar>(factor: T, v: &Vec<T>) -> (r: Vec<T>)
    ensures
        r@ == scaled(factor, v@),
{
    let mut out: Vec<T> = Vec::new();
    let mut i: usize = 0;
    while i < v.len()
        invariant
            i <= v.len(),
            out@.len() == i,
            forall|k: int| 0 <= k < i ==> out@[k] == factor.times_spec(v@[k]),
        decreases v.len() - i,
    {
        out.push(factor.times(v[i]));
        i += 1;
    }
    assert(out@ =~= scaled(factor, v@));
    out
}

impl<T: Scalar, A: Activation<T>> Node<T, A> {
    /// A unit with the given weights, bias and learning rate that has not been activated yet.
    pub fn new(weights: Vec<T>, bias: T, learning_rate: T) -> (r: Node<T, A>)
        ensures
            r@ == NodeView::fresh(weights@, bias, learning_rate),
    {
        Node {
            weights: weights,
            bias: bias,
            learning_rate: learning_rate,
            output: T::zero(),
            error: T::zero(),
            delta_weights: Vec::new(),
            delta_bias: T::zero(),
            gradients: Vec::new(),
            activation: PhantomData,
        }
    }

    /// Computes the unit's output on `input`, keeps it for the backward pass and returns it.
    /// Fails, and changes nothing, unless `input` holds one number for each weight.
    pub fn activate(&mut self, input: &Vec<T>) -> (r: Result<T, DimensionMismatch>)
        ensures
            input.len() == old(self).weights.len() ==> final(self)@ == old(self)@.activated::<A>(
                input@,
            ) && r == Ok::<T, DimensionMismatch>(final(self).output),
            input.len() != old(self).weights.len() ==> final(self)@ == old(self)@ && r == Err::<
                T,
                DimensionMismatch,
            >(DimensionMismatch { expected: old(self).weights.len(), found: input.len() }),
    {
        if input.len() != self.weights.len() {
            return Err(DimensionMismatch { expected: self.weights.len(), found: input.len() });
        }
        let total: T = dot(&self.weights, input).plus(self.bias);
        self.output = self.sigmoid(&total);
        Ok(self.output)
    }

    /// The unit's activation function at `weighted_sum`.
    pub fn sigmoid(&self, weighted_sum: &T) -> (r: T)
        ensures
            r == A::apply_spec(*weighted_sum),
    {
        A::apply(*weighted_sum)
    }

    /// The slope of the logistic function where its value is `output`: `output * (1 - output)`.
    pub fn d_sigmoid(&self, output: &T) -> (r: T)
        ensures
            r == d_sigmoid_spec(*output),
    {
        output.times(T::one().minus(*output))
    }

    /// Sets the error of a unit of the last layer from the value that it should have put out.
    pub fn error_output(&mut self, target: &T)
        ensures
            final(self)@ == old(self)@.with_error_output(*target),
    {
        self.error = self.d_sigmoid(&self.output).times(target.minus(self.output).negate());
    }

    /// Sets the error of a unit of an inner layer from the errors of the units that read its
    /// output and the weights that they give to it. Fails, and changes nothing, unless there
    /// are as many weights as errors.
    pub fn error_hidden(&mut self, next_weights: &Vec<T>, next_errors: &Vec<T>) -> (r: Result<
        (),
        DimensionMismatch,
    >)
        ensures
            next_weights.len() == next_errors.len() ==> r is Ok && final(self)@ == old(
                self,
            )@.with_error_hidden(next_weights@, next_errors@),
            next_weights.len() != next_errors.len() ==> final(self)@ == old(self)@ && r == Err::<
                (),
                DimensionMismatch,
            >(DimensionMismatch { expected: next_weights.len(), found: next_errors.len() }),
    {
        if next_weights.len() != next_errors.len() {
            return Err(
                DimensionMismatch { expected: next_weights.len(), found: next_errors.len() },
            );
        }
        self.error = self.d_sigmoid(&self.output).times(dot(next_weights, next_errors));
        Ok(())
    }

    /// Sets the gradient of each weight: the unit's error times the input that the weight
    /// scaled. Fails, and changes nothing, unless there is one input for each weight.
    pub fn calculate_gradients(&mut self, prev_outputs: &Vec<T>) -> (r: Result<
        (),
        DimensionMismatch,
    >)
        ensures
            prev_outputs.len() == old(self).weights.len() ==> r is Ok && final(self)@ == old(
                self,
            )@.with_gradients(prev_outputs@),
            prev_outputs.len() != old(self).weights.len() ==> final(self)@ == old(self)@ && r
                == Err::<(), DimensionMismatch>(
                DimensionMismatch { expected: old(self).weights.len(), found: prev_outputs.len() },
            ),
    {
        if prev_outputs.len() != self.weights.len() {
            return Err(
                DimensionMismatch { expected: self.weights.len(), found: prev_outputs.len() },
            );
        }
        self.gradients = scale(self.error, prev_outputs);
        Ok(())
    }

    /// Sets the step of each weight: the learning rate times the weight's gradient. Fails, and
    /// changes nothing, unless there is one gradient for each weight.
    pub fn calculate_delta_weights(&mut self) -> (r: Result<(), DimensionMismatch>)
        ensures
            old(self).gradients.len() == old(self).weights.len() ==> r is Ok && final(self)@
                == old(self)@.with_delta_weights(),
            old(self).gradients.len() != old(self).weights.len() ==> final(self)@ == old(self)@
                && r == Err::<(), DimensionMismatch>(
                DimensionMismatch {
                    expected: old(self).weights.len(),
                    found: old(self).gradients.len(),
                },
            ),
    {
        if self.weights.len() != self.gradients.len() {
            return Err(
                DimensionMismatch { expected: self.weights.len(), found: self.gradients.len() },
            );
        }
        self.delta_weights = scale(self.learning_rate, &self.gradients);
        Ok(())
    }

    /// Sets the step of the bias: the learning rate times the unit's error.
    pub fn calculate_delta_bias(&mut self)
        ensures
            final(self)@ == old(self)@.with_delta_bias(),
    {
        self.delta_bias = self.learning_rate.times(self.error);
    }

    /// Subtracts from each weight its step. Fails, and changes nothing, unless there is one
    /// step for each weight.
    pub fn update_weights(&mut self) -> (r: Result<(), DimensionMismatch>)
        ensures
            old(self).delta_weights.len() == old(self).weights.len() ==> r is Ok && final(self)@
                == old(self)@.with_updated_weights(),
            old(self).delta_weights.len() != old(self).weights.len() ==> final(self)@ == old(
                self,
            )@ && r == Err::<(), DimensionMismatch>(
                DimensionMismatch {
                    expected: old(self).weights.len(),
                    found: old(self).delta_weights.len(),
                },
            ),
    {
        if self.weights.len() != self.delta_weights.len() {
            return Err(
                DimensionMismatch {
                    expected: self.weights.len(),
                    found: self.delta_weights.len(),
                },
            );
        }
        let mut updated: Vec<T> = Vec::new();
        let mut i: usize = 0;
        while i < self.weights.len()
            invariant
                self.weights.len() == self.delta_weights.len(),
                i <= self.weights.len(),
                updated@.len() == i,
                forall|k: int|
                    0 <= k < i ==> updated@[k] == self.weights@[k].minus_spec(
                        self.delta_weights@[k],
                    ),
            decreases self.weights.len() - i,
        {
            updated.push(self.weights[i].minus(self.delta_weights[i]));
            i += 1;
        }
        assert(updated@ =~= lowered(self.weights@, self.delta_weights@));
        self.weights = updated;
        Ok(())
    }

    /// Subtracts from the bias its step.
    pub fn update_bias(&mut self)
        ensures
            final(self)@ == old(self)@.with_updated_bias(),
    {
        self.bias = self.bias.minus(self.delta_bias);
    }

    /// Takes one descent step: computes the steps of the weights and of the bias, then takes
    /// them. Fails, and changes nothing, unless there is one gradient for each weight.
    pub(crate) fn descend(&mut self) -> (r: Result<(), DimensionMismatch>)
        ensures
            old(self).gradients.len() == old(self).weights.len() ==> r is Ok && final(self)@
                == old(self)@.descended(),
            old(self).gradients.len() != old(self).weights.len() ==> r is Err && final(self)@
                == old(self)@,
    {
        match self.calculate_delta_weights() {
            Err(e) => {
                return Err(e);
            },
            Ok(_) => {},
        }
        self.calculate_delta_bias();
        match self.update_weights() {
            Err(e) => {
                return Err(e);
            },
            Ok(_) => {},
        }
        self.update_bias();
        Ok(())
    }
}

} // verus!
