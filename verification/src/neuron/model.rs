use crate::activation::Activation;
use crate::error::DimensionMismatch;
use crate::scalar::{dot_spec, Scalar};
use vstd::prelude::*;

verus! {

/// What a unit holds, as plain mathematical values.
pub struct NodeView<T> {
    /// One weight for each input.
    pub weights: Seq<T>,
    /// The number added to the weighted inputs.
    pub bias: T,
    /// The factor by which a gradient is scaled into a step.
    pub learning_rate: T,
    /// The output of the last activation.
    pub output: T,
    /// The error term of the last backward pass.
    pub error: T,
    /// The steps by which the weights are to change.
    pub delta_weights: Seq<T>,
    /// The step by which the bias is to change.
    pub delta_bias: T,
    /// The gradient of the loss with respect to each weight.
    pub gradients: Seq<T>,
}

/// What a layer holds, as plain mathematical values.
pub struct LayerView<T> {
    /// The units, in the order of their outputs.
    pub nodes: Seq<NodeView<T>>,
    /// The outputs of the units at the last activation.
    pub activations: Seq<T>,
    /// The error terms of the units at the last backward pass.
    pub errors: Seq<T>,
}

/// What a network holds, as plain mathematical values.
pub struct NetworkView<T> {
    /// The layers, the one that reads the input first.
    pub layers: Seq<LayerView<T>>,
    /// What the last layer put out at the last activation.
    pub output: Seq<T>,
}

/// The slope of the logistic function at the place where its value is `output`.
pub open spec fn d_sigmoid_spec<T: Scalar>(output: T) -> T {
    output.times_spec(T::one_spec().minus_spec(output))
}

/// `v` with each element multiplied from the left by `factor`.
pub open spec fn scaled<T: Scalar>(factor: T, v: Seq<T>) -> Seq<T> {
    Seq::new(v.len(), |i: int| factor.times_spec(v[i]))
}

/// `a` with the element of `b` at the same place subtracted from each element.
pub open spec fn lowered<T: Scalar>(a: Seq<T>, b: Seq<T>) -> Seq<T>
    recommends
        a.len() == b.len(),
{
    Seq::new(a.len(), |i: int| a[i].minus_spec(b[i]))
}

/// The elements at place `i` of the rows of `rows`, in the order of the rows.
pub open spec fn column<T>(rows: Seq<Seq<T>>, i: int) -> Seq<T> {
    Seq::new(rows.len(), |k: int| rows[k][i])
}

/// The mismatch at the first unit that does not have `len` weights, where `widths` holds the
/// number of weights of each unit: that number is expected, `len` is found.
pub open spec fn unfit_unit(widths: Seq<nat>, len: nat) -> Option<DimensionMismatch>
    decreases widths.len(),
{
    if widths.len() == 0 {
        None
    } else if widths[0] != len {
        Some(DimensionMismatch { expected: widths[0] as usize, found: len as usize })
    } else {
        unfit_unit(widths.drop_first(), len)
    }
}

/// The mismatch at the first row that does not hold `len` numbers, where `widths` holds the
/// length of each row: `len` is expected, that length is found.
pub open spec fn unfit_row(widths: Seq<nat>, len: nat) -> Option<DimensionMismatch>
    decreases widths.len(),
{
    if widths.len() == 0 {
        None
    } else if widths[0] != len {
        Some(DimensionMismatch { expected: len as usize, found: widths[0] as usize })
    } else {
        unfit_row(widths.drop_first(), len)
    }
}

/// The lengths of the rows of `rows`.
pub open spec fn row_lengths<T>(rows: Seq<Seq<T>>) -> Seq<nat> {
    Seq::new(rows.len(), |k: int| rows[k].len())
}

/// No length in `widths` differs from `len` exactly if no unit is unfit.
pub proof fn lemma_unfit_unit_none(widths: Seq<nat>, len: nat)
    ensures
        unfit_unit(widths, len) is None <==> forall|k: int|
            0 <= k < widths.len() ==> widths[k] == len,
    decreases widths.len(),
{
    if widths.len() > 0 {
        lemma_unfit_unit_none(widths.drop_first(), len);
        if widths[0] == len {
            if unfit_unit(widths, len) is None {
                assert forall|k: int| 0 <= k < widths.len() implies widths[k] == len by {
                    if k > 0 {
                        assert(widths.drop_first()[k - 1] == widths[k]);
                    }
                }
            } else {
                let k = choose|k: int|
                    0 <= k < widths.drop_first().len() && widths.drop_first()[k] != len;
                assert(widths[k + 1] != len);
            }
        }
    }
}

/// No length in `widths` differs from `len` exactly if no row is unfit.
pub proof fn lemma_unfit_row_none(widths: Seq<nat>, len: nat)
    ensures
        unfit_row(widths, len) is None <==> forall|k: int|
            0 <= k < widths.len() ==> widths[k] == len,
    decreases widths.len(),
{
    if widths.len() > 0 {
        lemma_unfit_row_none(widths.drop_first(), len);
        if widths[0] == len {
            if unfit_row(widths, len) is None {
                assert forall|k: int| 0 <= k < widths.len() implies widths[k] == len by {
                    if k > 0 {
                        assert(widths.drop_first()[k - 1] == widths[k]);
                    }
                }
            } else {
                let k = choose|k: int|
                    0 <= k < widths.drop_first().len() && widths.drop_first()[k] != len;
                assert(widths[k + 1] != len);
            }
        }
    }
}

impl<T: Scalar> NodeView<T> {
    /// The state of a unit that has not been activated yet.
    pub open spec fn fresh(weights: Seq<T>, bias: T, learning_rate: T) -> Self {
        NodeView {
            weights: weights,
            bias: bias,
            learning_rate: learning_rate,
            output: T::zero_spec(),
            error: T::zero_spec(),
            delta_weights: Seq::empty(),
            delta_bias: T::zero_spec(),
            gradients: Seq::empty(),
        }
    }

    /// The weighted sum of `input`, with the bias added last.
    pub open spec fn total(self, input: Seq<T>) -> T {
        dot_spec(self.weights, input).plus_spec(self.bias)
    }

    /// The unit after it has been activated on `input`.
    pub open spec fn activated<A: Activation<T>>(self, input: Seq<T>) -> Self {
        NodeView { output: A::apply_spec(self.total(input)), ..self }
    }

    /// The unit after its error has been set from the value `target` that it should have
    /// put out.
    pub open spec fn with_error_output(self, target: T) -> Self {
        NodeView {
            error: d_sigmoid_spec(self.output).times_spec(
                target.minus_spec(self.output).negate_spec(),
            ),
            ..self
        }
    }

    /// The unit after its error has been set from the errors of the units that read its
    /// output, each weighted with the weight that the reading unit gives to it.
    pub open spec fn with_error_hidden(self, next_weights: Seq<T>, next_errors: Seq<T>) -> Self {
        NodeView {
            error: d_sigmoid_spec(self.output).times_spec(dot_spec(next_weights, next_errors)),
            ..self
        }
    }

    /// The unit after its gradients have been set from the inputs that it read.
    pub open spec fn with_gradients(self, prev_outputs: Seq<T>) -> Self {
        NodeView { gradients: scaled(self.error, prev_outputs), ..self }
    }

    /// The unit after the steps of its weights have been set from its gradients.
    pub open spec fn with_delta_weights(self) -> Self {
        NodeView { delta_weights: scaled(self.learning_rate, self.gradients), ..self }
    }

    /// The unit after the step of its bias has been set from its error.
    pub open spec fn with_delta_bias(self) -> Self {
        NodeView { delta_bias: self.learning_rate.times_spec(self.error), ..self }
    }

    /// The unit after its weights have taken their steps.
    pub open spec fn with_updated_weights(self) -> Self {
        NodeView { weights: lowered(self.weights, self.delta_weights), ..self }
    }

    /// The unit after its bias has taken its step.
    pub open spec fn with_updated_bias(self) -> Self {
        NodeView { bias: self.bias.minus_spec(self.delta_bias), ..self }
    }

    /// The unit after one descent step: both steps computed from the gradients and the error,
    /// then taken.
    pub open spec fn descended(self) -> Self {
        self.with_delta_weights().with_delta_bias().with_updated_weights().with_updated_bias()
    }
}

impl<T: Scalar> LayerView<T> {
    /// The state of a layer that has not been activated yet.
    pub open spec fn fresh(nodes: Seq<NodeView<T>>) -> Self {
        LayerView { nodes: nodes, activations: Seq::empty(), errors: Seq::empty() }
    }

    /// The number of weights of each unit.
    pub open spec fn widths(self) -> Seq<nat> {
        Seq::new(self.nodes.len(), |i: int| self.nodes[i].weights.len())
    }

    /// The weights of each unit.
    pub open spec fn weights(self) -> Seq<Seq<T>> {
        Seq::new(self.nodes.len(), |i: int| self.nodes[i].weights)
    }

    /// The last output of each unit.
    pub open spec fn outputs(self) -> Seq<T> {
        Seq::new(self.nodes.len(), |i: int| self.nodes[i].output)
    }

    /// The last error of each unit.
    pub open spec fn node_errors(self) -> Seq<T> {
        Seq::new(self.nodes.len(), |i: int| self.nodes[i].error)
    }

    /// The layer after every unit has been activated on `input`.
    pub open spec fn activated<A: Activation<T>>(self, input: Seq<T>) -> Self {
        LayerView {
            nodes: Seq::new(self.nodes.len(), |i: int| self.nodes[i].activated::<A>(input)),
            activations: Seq::new(
                self.nodes.len(),
                |i: int| self.nodes[i].activated::<A>(input).output,
            ),
            ..self
        }
    }

    /// The layer after the error of each unit has been set from the target at its place.
    pub open spec fn with_errors_output(self, target: Seq<T>) -> Self
        recommends
            target.len() == self.nodes.len(),
    {
        LayerView {
            nodes: Seq::new(self.nodes.len(), |i: int| self.nodes[i].with_error_output(target[i])),
            errors: Seq::new(
                self.nodes.len(),
                |i: int| self.nodes[i].with_error_output(target[i]).error,
            ),
            ..self
        }
    }

    /// The layer after the error of each unit has been set from the errors of the next layer:
    /// unit `i` reads column `i` of the next layer's weights.
    pub open spec fn with_errors_hidden(self, weights: Seq<Seq<T>>, errors: Seq<T>) -> Self {
        LayerView {
            nodes: Seq::new(
                self.nodes.len(),
                |i: int| self.nodes[i].with_error_hidden(column(weights, i), errors),
            ),
            errors: Seq::new(
                self.nodes.len(),
                |i: int| self.nodes[i].with_error_hidden(column(weights, i), errors).error,
            ),
            ..self
        }
    }

    /// The layer after the gradients of each unit have been set from what the layer read.
    pub open spec fn with_gradients(self, prev_outputs: Seq<T>) -> Self {
        LayerView {
            nodes: Seq::new(self.nodes.len(), |i: int| self.nodes[i].with_gradients(prev_outputs)),
            ..self
        }
    }

    /// The layer after every unit has taken one descent step.
    pub open spec fn descended(self) -> Self {
        LayerView { nodes: Seq::new(self.nodes.len(), |i: int| self.nodes[i].descended()), ..self }
    }

    /// Whether every unit has one gradient for each weight, so that it can take a descent step.
    pub open spec fn can_descend(self) -> bool {
        forall|i: int|
            0 <= i < self.nodes.len() ==> (#[trigger] self.nodes[i]).gradients.len()
                == self.nodes[i].weights.len()
    }
}

/// What a layer reads when the layers in `done` stand before it and the first of all reads
/// `input`.
pub open spec fn signal<T>(done: Seq<LayerView<T>>, input: Seq<T>) -> Seq<T> {
    if done.len() == 0 {
        input
    } else {
        done.last().activations
    }
}

/// The layers after `input` has gone through them in order, each layer reading what the one
/// before it put out.
pub open spec fn forward<T: Scalar, A: Activation<T>>(
    layers: Seq<LayerView<T>>,
    input: Seq<T>,
) -> Seq<LayerView<T>>
    decreases layers.len(),
{
    if layers.len() == 0 {
        Seq::empty()
    } else {
        let before = forward::<T, A>(layers.drop_last(), input);
        before.push(layers.last().activated::<A>(signal(before, input)))
    }
}

/// The number of weights of each unit of each layer.
pub open spec fn shape_of<T: Scalar>(layers: Seq<LayerView<T>>) -> Seq<Seq<nat>> {
    Seq::new(layers.len(), |k: int| layers[k].widths())
}

/// The mismatch at the first unit, in the order of the forward pass, that does not have one
/// weight for each number it is to read, when the first layer reads `len` numbers and `shape`
/// holds the number of weights of each unit of each layer.
pub open spec fn forward_unfit(shape: Seq<Seq<nat>>, len: nat) -> Option<DimensionMismatch>
    decreases shape.len(),
{
    if shape.len() == 0 {
        None
    } else {
        match unfit_unit(shape[0], len) {
            Some(e) => Some(e),
            None => forward_unfit(shape.drop_first(), shape[0].len()),
        }
    }
}

/// The mismatch, if any, between an example and a network of the given shape: the first that
/// a forward pass on `input_len` numbers meets, or else the one between the last layer and a
/// target of `target_len` numbers.
pub open spec fn example_unfit(shape: Seq<Seq<nat>>, input_len: nat, target_len: nat) -> Option<
    DimensionMismatch,
> {
    match forward_unfit(shape, input_len) {
        Some(e) => Some(e),
        None => if shape.len() > 0 && shape.last().len() != target_len {
            Some(
                DimensionMismatch {
                    expected: shape.last().len() as usize,
                    found: target_len as usize,
                },
            )
        } else {
            None
        },
    }
}

/// The mismatch between a network of the given shape and the first example that does not go
/// with it.
pub open spec fn examples_unfit<T>(
    shape: Seq<Seq<nat>>,
    inputs: Seq<Seq<T>>,
    targets: Seq<Seq<T>>,
) -> Option<DimensionMismatch>
    recommends
        inputs.len() == targets.len(),
    decreases inputs.len(),
{
    if inputs.len() == 0 {
        None
    } else {
        match example_unfit(shape, inputs[0].len(), targets[0].len()) {
            Some(e) => Some(e),
            None => examples_unfit(shape, inputs.drop_first(), targets.drop_first()),
        }
    }
}

/// The mismatch that an epoch meets, if any: between the numbers of inputs and of targets, or
/// else between the network and the first example that does not go with it.
pub open spec fn epoch_unfit<T>(
    shape: Seq<Seq<nat>>,
    inputs: Seq<Seq<T>>,
    targets: Seq<Seq<T>>,
) -> Option<DimensionMismatch> {
    if inputs.len() != targets.len() {
        Some(DimensionMismatch { expected: inputs.len() as usize, found: targets.len() as usize })
    } else {
        examples_unfit(shape, inputs, targets)
    }
}

/// Layer `i` after the first half of the backward pass: its errors are set from `target`, if
/// it is the last layer, and else from the weights of layer `i + 1` and the errors that this
/// half has given to that layer; its gradients are set from what it read in the forward pass.
pub open spec fn backward<T: Scalar>(
    layers: Seq<LayerView<T>>,
    input: Seq<T>,
    target: Seq<T>,
    i: int,
) -> LayerView<T>
    recommends
        0 <= i < layers.len(),
    decreases layers.len() - i,
{
    let read = if i == 0 {
        input
    } else {
        layers[i - 1].activations
    };
    let with_errors = if i >= layers.len() - 1 {
        layers[i].with_errors_output(target)
    } else {
        layers[i].with_errors_hidden(
            layers[i + 1].weights(),
            backward(layers, input, target, i + 1).errors,
        )
    };
    with_errors.with_gradients(read)
}

/// The first half of the backward pass changes neither the units' weights nor what the
/// forward pass left behind, and gives every unit one error.
pub proof fn lemma_backward_keeps<T: Scalar>(
    layers: Seq<LayerView<T>>,
    input: Seq<T>,
    target: Seq<T>,
    i: int,
)
    requires
        0 <= i < layers.len(),
    ensures
        backward(layers, input, target, i).nodes.len() == layers[i].nodes.len(),
        backward(layers, input, target, i).activations == layers[i].activations,
        backward(layers, input, target, i).errors.len() == layers[i].nodes.len(),
        backward(layers, input, target, i).widths() == layers[i].widths(),
        backward(layers, input, target, i).weights() == layers[i].weights(),
        backward(layers, input, target, i).outputs() == layers[i].outputs(),
{
    let after = backward(layers, input, target, i);
    assert(after.widths() =~= layers[i].widths());
    assert(after.weights() =~= layers[i].weights());
    assert(after.outputs() =~= layers[i].outputs());
}

/// The mismatch that the backward pass meets at layer `i`, if any: first between the layer
/// and what comes after it (the targets, or the rows of weights of the next layer), then
/// between its units and what the layer read in the forward pass.
pub open spec fn backward_unfit_at<T: Scalar>(
    layers: Seq<LayerView<T>>,
    input_len: nat,
    target_len: nat,
    i: int,
) -> Option<DimensionMismatch>
    recommends
        0 <= i < layers.len(),
{
    let after = if i >= layers.len() - 1 {
        if layers[i].nodes.len() != target_len {
            Some(
                DimensionMismatch {
                    expected: layers[i].nodes.len() as usize,
                    found: target_len as usize,
                },
            )
        } else {
            None
        }
    } else {
        unfit_row(layers[i + 1].widths(), layers[i].nodes.len())
    };
    match after {
        Some(e) => Some(e),
        None => unfit_unit(
            layers[i].widths(),
            if i == 0 {
                input_len
            } else {
                layers[i - 1].activations.len()
            },
        ),
    }
}

/// The first mismatch that the backward pass meets on its way from layer `i` down to the
/// first layer.
pub open spec fn backward_unfit<T: Scalar>(
    layers: Seq<LayerView<T>>,
    input_len: nat,
    target_len: nat,
    i: int,
) -> Option<DimensionMismatch>
    decreases i + 1,
{
    if i < 0 {
        None
    } else {
        match backward_unfit_at(layers, input_len, target_len, i) {
            Some(e) => Some(e),
            None => backward_unfit(layers, input_len, target_len, i - 1),
        }
    }
}

impl<T: Scalar> NetworkView<T> {
    /// The state of a network that has not been activated yet.
    pub open spec fn fresh(layers: Seq<LayerView<T>>) -> Self {
        NetworkView { layers: layers, output: Seq::empty() }
    }

    /// The number of weights of each unit of each layer.
    pub open spec fn shape(self) -> Seq<Seq<nat>> {
        shape_of(self.layers)
    }

    /// The first mismatch that a forward pass on `len` numbers meets.
    pub open spec fn unfit(self, len: nat) -> Option<DimensionMismatch> {
        forward_unfit(self.shape(), len)
    }

    /// The network after a forward pass on `input`.
    pub open spec fn activated<A: Activation<T>>(self, input: Seq<T>) -> Self {
        NetworkView {
            layers: forward::<T, A>(self.layers, input),
            output: signal(forward::<T, A>(self.layers, input), input),
        }
    }

    /// The first mismatch that a backward pass for an input of `input_len` numbers and a
    /// target of `target_len` numbers meets.
    pub open spec fn backprop_unfit(self, input_len: nat, target_len: nat) -> Option<
        DimensionMismatch,
    > {
        backward_unfit(self.layers, input_len, target_len, self.layers.len() - 1)
    }

    /// The network after it has learnt from one example: a forward pass on `input`, then a
    /// backward pass towards `target`.
    pub open spec fn trained_on<A: Activation<T>>(self, input: Seq<T>, target: Seq<T>) -> Self {
        self.activated::<A>(input).backpropagated(input, target)
    }

    /// The network after it has learnt from each example once, in order.
    pub open spec fn after_epoch<A: Activation<T>>(
        self,
        inputs: Seq<Seq<T>>,
        targets: Seq<Seq<T>>,
    ) -> Self
        recommends
            inputs.len() == targets.len(),
        decreases inputs.len(),
    {
        if inputs.len() == 0 {
            self
        } else {
            self.after_epoch::<A>(inputs.drop_last(), targets.drop_last()).trained_on::<A>(
                inputs.last(),
                targets.last(),
            )
        }
    }

    /// The network after `epochs` epochs on the same examples.
    pub open spec fn after_training<A: Activation<T>>(
        self,
        inputs: Seq<Seq<T>>,
        targets: Seq<Seq<T>>,
        epochs: nat,
    ) -> Self
        decreases epochs,
    {
        if epochs == 0 {
            self
        } else {
            self.after_training::<A>(inputs, targets, (epochs - 1) as nat).after_epoch::<A>(
                inputs,
                targets,
            )
        }
    }

    /// The network after a backward pass: every layer's errors and gradients are set, last
    /// layer first, and after that every unit takes one descent step.
    pub open spec fn backpropagated(self, input: Seq<T>, target: Seq<T>) -> Self {
        NetworkView {
            layers: Seq::new(
                self.layers.len(),
                |i: int| backward(self.layers, input, target, i).descended(),
            ),
            ..self
        }
    }
}

} // verus!
