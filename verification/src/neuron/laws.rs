use crate::activation::Activation;
use crate::neuron::model::{
    backward, backward_unfit, backward_unfit_at, example_unfit, forward, forward_unfit,
    lemma_backward_keeps, lemma_unfit_row_none, lemma_unfit_unit_none, shape_of, signal,
    LayerView, NetworkView, NodeView,
};
use crate::scalar::{dot_spec, Scalar};
use vstd::prelude::*;

verus! {

/// A unit with the one weight `w` and the bias `b` puts out, on the one input `x`, the
/// activation of `w * x + b`, the product being added to zero first.
pub proof fn lemma_single_input_output<T: Scalar, A: Activation<T>>(
    node: NodeView<T>,
    w: T,
    b: T,
    x: T,
)
    requires
        node.weights == seq![w],
        node.bias == b,
    ensures
        node.activated::<A>(seq![x]).output == A::apply_spec(
            T::zero_spec().plus_spec(w.times_spec(x)).plus_spec(b),
        ),
{
    assert(seq![w].drop_last() =~= Seq::<T>::empty());
    assert(seq![x].drop_last() =~= Seq::<T>::empty());
    reveal_with_fuel(dot_spec, 2);
}

/// Activating a unit twice on the same input leaves it as activating it once does: the
/// second output is the first.
pub proof fn lemma_node_activate_idempotent<T: Scalar, A: Activation<T>>(
    node: NodeView<T>,
    input: Seq<T>,
)
    ensures
        node.activated::<A>(input).activated::<A>(input) == node.activated::<A>(input),
{
}

/// Activating a layer twice on the same input leaves it as activating it once does: the
/// second outputs are the first.
pub proof fn lemma_layer_activate_idempotent<T: Scalar, A: Activation<T>>(
    layer: LayerView<T>,
    input: Seq<T>,
)
    ensures
        layer.activated::<A>(input).activated::<A>(input) == layer.activated::<A>(input),
{
    let once = layer.activated::<A>(input);
    let twice = once.activated::<A>(input);
    assert(twice.nodes =~= once.nodes);
    assert(twice.activations =~= once.activations);
}

/// A forward pass keeps the number of layers, the number of units of each layer and the number
/// of weights of each unit, and leaves in each layer one output for each unit.
pub proof fn lemma_forward_keeps<T: Scalar, A: Activation<T>>(
    layers: Seq<LayerView<T>>,
    input: Seq<T>,
)
    ensures
        forward::<T, A>(layers, input).len() == layers.len(),
        forall|k: int|
            0 <= k < layers.len() ==> (#[trigger] forward::<T, A>(layers, input)[k]).widths()
                == layers[k].widths() && forward::<T, A>(layers, input)[k].nodes.len()
                == layers[k].nodes.len() && forward::<T, A>(layers, input)[k].activations.len()
                == layers[k].nodes.len() && forward::<T, A>(layers, input)[k].errors
                == layers[k].errors,
    decreases layers.len(),
{
    if layers.len() > 0 {
        let front = layers.drop_last();
        lemma_forward_keeps::<T, A>(front, input);
        let before = forward::<T, A>(front, input);
        let last = layers.last().activated::<A>(signal(before, input));
        assert(last.widths() =~= layers.last().widths());
        assert forall|k: int| 0 <= k < layers.len() implies (#[trigger] forward::<T, A>(
            layers,
            input,
        )[k]).widths() == layers[k].widths() && forward::<T, A>(layers, input)[k].nodes.len()
            == layers[k].nodes.len() && forward::<T, A>(layers, input)[k].activations.len()
            == layers[k].nodes.len() && forward::<T, A>(layers, input)[k].errors
            == layers[k].errors by {
            if k < layers.len() - 1 {
                assert(forward::<T, A>(layers, input)[k] == before[k]);
                assert(front[k] == layers[k]);
            }
        }
    }
}

/// A forward pass on the input of the forward pass before it changes nothing: the second
/// output is the first.
pub proof fn lemma_forward_idempotent<T: Scalar, A: Activation<T>>(
    layers: Seq<LayerView<T>>,
    input: Seq<T>,
)
    ensures
        forward::<T, A>(forward::<T, A>(layers, input), input) == forward::<T, A>(layers, input),
    decreases layers.len(),
{
    let once = forward::<T, A>(layers, input);
    lemma_forward_keeps::<T, A>(layers, input);
    if layers.len() > 0 {
        let front = layers.drop_last();
        let before = forward::<T, A>(front, input);
        lemma_forward_idempotent::<T, A>(front, input);
        lemma_forward_keeps::<T, A>(front, input);
        assert(once.drop_last() =~= before);
        lemma_layer_activate_idempotent::<T, A>(layers.last(), signal(before, input));
    } else {
        assert(forward::<T, A>(once, input) =~= once);
    }
}

/// Activating a network twice on the same input leaves it as activating it once does: the
/// second output is the first.
pub proof fn lemma_activate_idempotent<T: Scalar, A: Activation<T>>(
    net: NetworkView<T>,
    input: Seq<T>,
)
    ensures
        net.activated::<A>(input).activated::<A>(input) == net.activated::<A>(input),
        net.activated::<A>(input).activated::<A>(input).output == net.activated::<A>(
            input,
        ).output,
{
    lemma_forward_idempotent::<T, A>(net.layers, input);
}

/// Where a forward pass on `len` numbers meets no mismatch, every unit of the first layer has
/// `len` weights, and every unit of a later layer has one weight for each unit of the layer
/// before it.
pub proof fn lemma_forward_fit(shape: Seq<Seq<nat>>, len: nat)
    requires
        forward_unfit(shape, len) is None,
    ensures
        forall|k: int, m: int|
            0 <= k < shape.len() && 0 <= m < shape[k].len() ==> #[trigger] shape[k][m] == (if k
                == 0 {
                len
            } else {
                shape[k - 1].len()
            }),
    decreases shape.len(),
{
    if shape.len() > 0 {
        let rest = shape.drop_first();
        lemma_unfit_unit_none(shape[0], len);
        lemma_forward_fit(rest, shape[0].len());
        assert forall|k: int, m: int|
            0 <= k < shape.len() && 0 <= m < shape[k].len() implies #[trigger] shape[k][m] == (if k
            == 0 {
            len
        } else {
            shape[k - 1].len()
        }) by {
            if k > 0 {
                assert(rest[k - 1] == shape[k]);
                assert(rest[k - 1][m] == shape[k][m]);
                if k > 1 {
                    assert(rest[k - 2] == shape[k - 1]);
                }
            }
        }
    }
}

/// Where no layer up to layer `i` meets a mismatch, the backward pass from layer `i` down
/// meets none.
proof fn lemma_backward_fit_below<T: Scalar>(
    layers: Seq<LayerView<T>>,
    input_len: nat,
    target_len: nat,
    i: int,
)
    requires
        -1 <= i < layers.len(),
        forall|k: int|
            0 <= k <= i ==> backward_unfit_at(layers, input_len, target_len, k) is None,
    ensures
        backward_unfit(layers, input_len, target_len, i) is None,
    decreases i + 1,
{
    if i >= 0 {
        lemma_backward_fit_below(layers, input_len, target_len, i - 1);
    }
}

/// After a forward pass that met no mismatch, the only mismatch that the backward pass for the
/// same input can meet is the one between the last layer and the target.
pub proof fn lemma_fit_after_forward<T: Scalar, A: Activation<T>>(
    net: NetworkView<T>,
    input: Seq<T>,
    target_len: nat,
)
    requires
        net.unfit(input.len()) is None,
    ensures
        net.activated::<A>(input).backprop_unfit(input.len(), target_len) == example_unfit(
            net.shape(),
            input.len(),
            target_len,
        ),
{
    let shape = net.shape();
    let after = forward::<T, A>(net.layers, input);
    let n = net.layers.len() as int;
    lemma_forward_keeps::<T, A>(net.layers, input);
    lemma_forward_fit(shape, input.len());
    assert forall|k: int| 0 <= k < n - 1 implies backward_unfit_at(
        after,
        input.len(),
        target_len,
        k,
    ) is None by {
        lemma_fit_at::<T, A>(net, input, target_len, k);
    }
    if n > 0 {
        lemma_fit_at::<T, A>(net, input, target_len, n - 1);
        lemma_backward_fit_below(after, input.len(), target_len, n - 2);
    }
}

/// After a forward pass that met no mismatch, the units of layer `k` go with what the layer
/// read, and the units of the layer after it go with the units of layer `k`.
proof fn lemma_fit_at<T: Scalar, A: Activation<T>>(
    net: NetworkView<T>,
    input: Seq<T>,
    target_len: nat,
    k: int,
)
    requires
        net.unfit(input.len()) is None,
        0 <= k < net.layers.len(),
    ensures
        k < net.layers.len() - 1 ==> backward_unfit_at(
            forward::<T, A>(net.layers, input),
            input.len(),
            target_len,
            k,
        ) is None,
        k == net.layers.len() - 1 ==> backward_unfit_at(
            forward::<T, A>(net.layers, input),
            input.len(),
            target_len,
            k,
        ) == example_unfit(net.shape(), input.len(), target_len),
{
    let shape = net.shape();
    let after = forward::<T, A>(net.layers, input);
    lemma_forward_keeps::<T, A>(net.layers, input);
    lemma_forward_fit(shape, input.len());
    let read: nat = if k == 0 {
        input.len()
    } else {
        after[k - 1].activations.len()
    };
    assert(after[k].widths() == shape[k]);
    assert(shape[k].len() == net.layers[k].nodes.len());
    if k > 0 {
        assert(after[k - 1].widths() == shape[k - 1]);
        assert(shape[k - 1].len() == net.layers[k - 1].nodes.len());
    }
    let here = shape[k];
    assert forall|m: int| 0 <= m < here.len() implies #[trigger] here[m] == read by {
        assert(shape[k][m] == (if k == 0 {
            input.len()
        } else {
            shape[k - 1].len()
        }));
    }
    lemma_unfit_unit_none(here, read);
    if k < net.layers.len() - 1 {
        let next = shape[k + 1];
        assert(after[k + 1].widths() == next);
        assert forall|m: int| 0 <= m < next.len() implies #[trigger] next[m] == here.len() by {
            assert(shape[k + 1][m] == shape[k].len());
        }
        lemma_unfit_row_none(next, here.len());
    } else {
        assert(shape.last() == here);
    }
}

/// Neither a forward pass nor a backward pass, nor both in turn, changes the number of layers,
/// of units in a layer, or of weights of a unit.
pub proof fn lemma_learning_keeps_shape<T: Scalar, A: Activation<T>>(
    net: NetworkView<T>,
    input: Seq<T>,
    target: Seq<T>,
)
    ensures
        net.activated::<A>(input).shape() == net.shape(),
        net.backpropagated(input, target).shape() == net.shape(),
        net.trained_on::<A>(input, target).shape() == net.shape(),
{
    lemma_forward_keeps::<T, A>(net.layers, input);
    assert(net.activated::<A>(input).shape() =~= net.shape());
    lemma_backprop_keeps_shape(net, input, target);
    lemma_backprop_keeps_shape(net.activated::<A>(input), input, target);
}

/// A backward pass changes neither the number of layers, nor of units in a layer, nor of
/// weights of a unit.
pub proof fn lemma_backprop_keeps_shape<T: Scalar>(
    net: NetworkView<T>,
    input: Seq<T>,
    target: Seq<T>,
)
    ensures
        net.backpropagated(input, target).shape() == net.shape(),
{
    let after = net.backpropagated(input, target);
    assert forall|k: int| 0 <= k < net.layers.len() implies after.layers[k].widths()
        == net.layers[k].widths() by {
        lemma_backward_keeps(net.layers, input, target, k);
        assert(after.layers[k].widths() =~= backward(net.layers, input, target, k).widths());
    }
    assert(after.shape() =~= net.shape());
}

/// An epoch changes neither the number of layers, nor of units in a layer, nor of weights of
/// a unit.
pub proof fn lemma_epoch_keeps_shape<T: Scalar, A: Activation<T>>(
    net: NetworkView<T>,
    inputs: Seq<Seq<T>>,
    targets: Seq<Seq<T>>,
)
    ensures
        net.after_epoch::<A>(inputs, targets).shape() == net.shape(),
    decreases inputs.len(),
{
    if inputs.len() > 0 {
        lemma_epoch_keeps_shape::<T, A>(net, inputs.drop_last(), targets.drop_last());
        lemma_learning_keeps_shape::<T, A>(
            net.after_epoch::<A>(inputs.drop_last(), targets.drop_last()),
            inputs.last(),
            targets.last(),
        );
    }
}

/// Training changes neither the number of layers, nor of units in a layer, nor of weights of
/// a unit.
pub proof fn lemma_training_keeps_shape<T: Scalar, A: Activation<T>>(
    net: NetworkView<T>,
    inputs: Seq<Seq<T>>,
    targets: Seq<Seq<T>>,
    epochs: nat,
)
    ensures
        net.after_training::<A>(inputs, targets, epochs).shape() == net.shape(),
    decreases epochs,
{
    if epochs > 0 {
        lemma_training_keeps_shape::<T, A>(net, inputs, targets, (epochs - 1) as nat);
        lemma_epoch_keeps_shape::<T, A>(
            net.after_training::<A>(inputs, targets, (epochs - 1) as nat),
            inputs,
            targets,
        );
    }
}

} // verus!
