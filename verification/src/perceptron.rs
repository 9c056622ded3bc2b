use crate::activation::{Activation, Threshold};
use crate::error::DimensionMismatch;
use crate::scalar::{dot, dot_spec, Scalar};
use vstd::prelude::*;

verus! {

/// A unit that fires when its weighted sum reaches zero.
#[derive(Debug)]
pub struct Node<T> {
    /// One weight for each input.
    pub weights: Vec<T>,
    /// The number added to the weighted inputs.
    pub bias: T,
}

/// Units that all read the same input.
#[derive(Debug)]
pub struct Layer<T> {
    /// The units, in the order of their outputs.
    pub nodes: Vec<Node<T>>,
}

/// Layers in a row, each reading what the one before it put out.
pub struct Network<T> {
    /// The layers, the one that reads the input first.
    pub layers: Vec<Layer<T>>,
}

/// The first unit of `nodes` that does not take `len` inputs, as the mismatch it gives rise to.
pub open spec fn layer_misfit<T>(nodes: Seq<Node<T>>, len: nat) -> Option<DimensionMismatch>
    decreases nodes.len(),
{
    if nodes.len() == 0 {
        None
    } else if nodes[0].weights@.len() != len {
        Some(DimensionMismatch { expected: nodes[0].weights@.len() as usize, found: len as usize })
    } else {
        layer_misfit(nodes.drop_first(), len)
    }
}

/// The first unit of `layers` that cannot read what comes before it, when the first layer is
/// given `len` inputs.
pub open spec fn network_misfit<T>(layers: Seq<Layer<T>>, len: nat) -> Option<DimensionMismatch>
    decreases layers.len(),
{
    if layers.len() == 0 {
        None
    } else {
        match layer_misfit(layers[0].nodes@, len) {
            Some(e) => Some(e),
            None => network_misfit(layers.drop_first(), layers[0].nodes@.len()),
        }
    }
}

/// What `layers` put out when the first of them reads `input`.
pub open spec fn network_output<T: Scalar>(layers: Seq<Layer<T>>, input: Seq<T>) -> Seq<T>
    decreases layers.len(),
{
    if layers.len() == 0 {
        input
    } else {
        network_output(layers.drop_first(), layers[0].output_spec(input))
    }
}

impl<T: Scalar> Node<T> {
    /// The weighted sum of `input`, with the bias added last.
    pub open spec fn total_spec(&self, input: Seq<T>) -> T {
        dot_spec(self.weights@, input).plus_spec(self.bias)
    }

    /// The unit's output on `input`: one if the weighted sum is zero or above, else zero.
    pub open spec fn output_spec(&self, input: Seq<T>) -> T {
        <Threshold as Activation<T>>::apply_spec(self.total_spec(input))
    }

    /// Computes the unit's output on `input`, which must hold one number for each weight.
    pub fn activate(&self, input: &Vec<T>) -> (r: Result<T, DimensionMismatch>)
        ensures
            input.len() == self.weights.len() ==> r == Ok::<T, DimensionMismatch>(
                self.output_spec(input@),
            ),
            input.len() != self.weights.len() ==> r == Err::<T, DimensionMismatch>(
                DimensionMismatch { expected: self.weights.len(), found: input.len() },
            ),
    {
        if input.len() != self.weights.len() {
            return Err(DimensionMismatch { expected: self.weights.len(), found: input.len() });
        }
        let total: T = dot(&self.weights, input).plus(self.bias);
        Ok(<Threshold as Activation<T>>::apply(total))
    }
}

impl<T: Scalar> Layer<T> {
    /// The outputs of the layer's units on `input`, in the order of the units.
    pub open spec fn output_spec(&self, input: Seq<T>) -> Seq<T> {
        Seq::new(self.nodes@.len(), |i: int| self.nodes@[i].output_spec(input))
    }

    /// Computes the output of every unit on `input`. Fails, without computing anything, if a
    /// unit does not have one weight for each number of `input`.
    pub fn activate(&self, input: &Vec<T>) -> (r: Result<Vec<T>, DimensionMismatch>)
        ensures
            match layer_misfit(self.nodes@, input@.len()) {
                Some(e) => r == Err::<Vec<T>, DimensionMismatch>(e),
                None => r is Ok && r->Ok_0@ == self.output_spec(input@),
            },
    {
        let mut outputs: Vec<T> = Vec::new();
        let mut i: usize = 0;
        assert(self.nodes@.skip(0) =~= self.nodes@);
        while i < self.nodes.len()
            invariant
                i <= self.nodes.len(),
                layer_misfit(self.nodes@, input@.len()) == layer_misfit(
                    self.nodes@.skip(i as int),
                    input@.len(),
                ),
                outputs@.len() == i,
                forall|k: int| 0 <= k < i ==> outputs@[k] == self.nodes@[k].output_spec(input@),
            decreases self.nodes.len() - i,
        {
            assert(self.nodes@.skip(i as int).drop_first() =~= self.nodes@.skip(i + 1));
            match self.nodes[i].activate(input) {
                Ok(output) => {
                    outputs.push(output);
                },
                Err(e) => {
                    return Err(e);
                },
            }
            i += 1;
        }
        assert(outputs@ =~= self.output_spec(input@));
        Ok(outputs)
    }
}

impl<T: Scalar> Network<T> {
    /// Feeds `input` through the layers in order and returns what the last one puts out. Fails
    /// at the first unit that does not have one weight for each number it is to read.
    pub fn activate(&self, input: Vec<T>) -> (r: Result<Vec<T>, DimensionMismatch>)
        ensures
            match network_misfit(self.layers@, input@.len()) {
                Some(e) => r == Err::<Vec<T>, DimensionMismatch>(e),
                None => r is Ok && r->Ok_0@ == network_output(self.layers@, input@),
            },
    {
        let mut output: Vec<T> = input;
        let mut i: usize = 0;
        assert(self.layers@.skip(0) =~= self.layers@);
        while i < self.layers.len()
            invariant
                i <= self.layers.len(),
                network_misfit(self.layers@, input@.len()) == network_misfit(
                    self.layers@.skip(i as int),
                    output@.len(),
                ),
                network_output(self.layers@, input@) == network_output(
                    self.layers@.skip(i as int),
                    output@,
                ),
            decreases self.layers.len() - i,
        {
            assert(self.layers@.skip(i as int).drop_first() =~= self.layers@.skip(i + 1));
            match self.layers[i].activate(&output) {
                Ok(next) => {
                    output = next;
                },
                Err(e) => {
                    return Err(e);
                },
            }
            i += 1;
        }
        Ok(output)
    }
}

} // verus!
