use crate::activation::Activation;
use crate::error::DimensionMismatch;
use crate::neuron::laws::{
    lemma_epoch_keeps_shape, lemma_fit_after_forward, lemma_learning_keeps_shape,
};
use crate::neuron::layer::{copy_of, grid, Layer};
use crate::neuron::model::{
    backward, backward_unfit, backward_unfit_at, epoch_unfit, example_unfit, examples_unfit,
    forward, forward_unfit, lemma_backward_keeps, lemma_unfit_unit_none, row_lengths, shape_of,
    signal, LayerView, NetworkView,
};
use crate::scalar::Scalar;
use vstd::prelude::*;

verus! {

/// Layers in a row, each reading what the one before it put out, and what the last forward
/// pass put out at the end.
pub struct Network<T, A> {
    /// The layers, the one that reads the input first.
    pub layers: Vec<Layer<T, A>>,
    /// What the last layer put out at the last activation.
    pub output: Vec<T>,
}

/// The layers of `layers` as plain values.
pub open spec fn layer_views<T, A>(layers: Seq<Layer<T, A>>) -> Seq<LayerView<T>> {
    Seq::new(layers.len(), |i: int| layers[i]@)
}

/// The vectors that `rows` refers to, as plain values.
pub open spec fn examples<T>(rows: Seq<&Vec<T>>) -> Seq<Seq<T>> {
    Seq::new(rows.len(), |i: int| rows[i]@)
}

impl<T, A> View for Network<T, A> {
    type V = NetworkView<T>;

    open spec fn view(&self) -> NetworkView<T> {
        NetworkView { layers: layer_views(self.layers@), output: self.output@ }
    }
}

impl<T: Scalar, A: Activation<T>> Network<T, A> {
    /// A network of the given layers that has not been activated yet.
    pub fn new(layers: Vec<Layer<T, A>>) -> (r: Network<T, A>)
        ensures
            r@ == NetworkView::fresh(layer_views(layers@)),
            r.layers == layers,
    {
        Network { layers: layers, output: Vec::new() }
    }

    /// Checks that a forward pass on `len` numbers meets no mismatch.
    fn check_forward(&self, len: usize) -> (r: Result<(), DimensionMismatch>)
        ensures
            match self@.unfit(len as nat) {
                Some(e) => r == Err::<(), DimensionMismatch>(e),
                None => r is Ok,
            },
    {
        let ghost shape = self@.shape();
        let mut read: usize = len;
        let mut i: usize = 0;
        assert(shape.skip(0) =~= shape);
        while i < self.layers.len()
            invariant
                i <= self.layers.len(),
                shape == self@.shape(),
                forward_unfit(shape, len as nat) == forward_unfit(
                    shape.skip(i as int),
                    read as nat,
                ),
            decreases self.layers.len() - i,
        {
            assert(shape.skip(i as int).drop_first() =~= shape.skip(i + 1));
            assert(shape.skip(i as int)[0] == self.layers@[i as int]@.widths());
            match self.layers[i].check_units(read) {
                Err(e) => {
                    return Err(e);
                },
                Ok(_) => {},
            }
            read = self.layers[i].nodes.len();
            i += 1;
        }
        Ok(())
    }

    /// Feeds `input` through the layers in order, each layer reading what the one before it put
    /// out, keeps every layer's outputs for the backward pass, and returns what the last layer
    /// put out. Fails, and changes nothing, if a unit does not have one weight for each number
    /// that it is to read.
    pub fn activate(&mut self, input: &Vec<T>) -> (r: Result<&Vec<T>, DimensionMismatch>)
        ensures
            match old(self)@.unfit(input@.len()) {
                Some(e) => r == Err::<&Vec<T>, DimensionMismatch>(e) && final(self)@ == old(
                    self,
                )@,
                None => r is Ok && final(self)@ == old(self)@.activated::<A>(input@) && r->Ok_0@
                    == final(self).output@,
            },
    {
        match self.check_forward(input.len()) {
            Err(e) => {
                return Err(e);
            },
            Ok(_) => {},
        }
        let ghost before = self@.layers;
        let ghost shape = self@.shape();
        let mut read: Vec<T> = copy_of(input);
        let mut i: usize = 0;
        assert(shape.skip(0) =~= shape);
        assert(layer_views(self.layers@).take(0) =~= forward::<T, A>(before.take(0), input@));
        while i < self.layers.len()
            invariant
                i <= self.layers.len(),
                before == old(self)@.layers,
                self.layers@.len() == before.len(),
                self.output == old(self).output,
                forall|k: int|
                    i <= k < before.len() ==> (#[trigger] self.layers@[k])@ == before[k],
                layer_views(self.layers@).take(i as int) == forward::<T, A>(
                    before.take(i as int),
                    input@,
                ),
                read@ == signal(forward::<T, A>(before.take(i as int), input@), input@),
                shape == shape_of(before),
                forward_unfit(shape.skip(i as int), read@.len()) is None,
            decreases self.layers.len() - i,
        {
            let ghost done = forward::<T, A>(before.take(i as int), input@);
            assert(shape.skip(i as int).drop_first() =~= shape.skip(i + 1));
            assert(shape.skip(i as int)[0] == before[i as int].widths());
            assert(before.take(i + 1).drop_last() =~= before.take(i as int));
            assert(before.take(i + 1).last() == before[i as int]);
            match self.layers[i].activate(&read) {
                Ok(outputs) => {
                    read = copy_of(outputs);
                },
                Err(e) => {
                    return Err(e);
                },
            }
            assert(layer_views(self.layers@).take(i + 1) =~= done.push(
                before[i as int].activated::<A>(signal(done, input@)),
            ));
            i += 1;
        }
        self.output = read;
        assert(before.take(i as int) =~= before);
        assert(layer_views(self.layers@).take(i as int) =~= layer_views(self.layers@));
        Ok(&self.output)
    }

    /// Checks that a backward pass for an input of `input_len` numbers and a target of
    /// `target_len` numbers meets no mismatch.
    fn check_backward(&self, input_len: usize, target_len: usize) -> (r: Result<
        (),
        DimensionMismatch,
    >)
        ensures
            match self@.backprop_unfit(input_len as nat, target_len as nat) {
                Some(e) => r == Err::<(), DimensionMismatch>(e),
                None => r is Ok,
            },
    {
        let ghost layers = self@.layers;
        let n: usize = self.layers.len();
        let mut above: usize = n;
        while above > 0
            invariant
                above <= n,
                n == self.layers.len(),
                layers == self@.layers,
                backward_unfit(layers, input_len as nat, target_len as nat, n - 1)
                    == backward_unfit(layers, input_len as nat, target_len as nat, above - 1),
            decreases above,
        {
            let i: usize = above - 1;
            if i == n - 1 {
                if self.layers[i].nodes.len() != target_len {
                    return Err(
                        DimensionMismatch {
                            expected: self.layers[i].nodes.len(),
                            found: target_len,
                        },
                    );
                }
            } else {
                match self.layers[i + 1].check_rows_of(self.layers[i].nodes.len()) {
                    Err(e) => {
                        return Err(e);
                    },
                    Ok(_) => {},
                }
            }
            let read: usize = if i == 0 {
                input_len
            } else {
                self.layers[i - 1].activations.len()
            };
            match self.layers[i].check_units(read) {
                Err(e) => {
                    return Err(e);
                },
                Ok(_) => {},
            }
            above = i;
        }
        Ok(())
    }

    /// Lets the network learn from one example, after a forward pass on `input`: sets the
    /// errors and the gradients of every layer, from the last layer to the first, and only then
    /// lets every unit take its descent step, so that every error is computed from weights
    /// that have not moved yet. Fails, and changes nothing, if the lengths of `target`, of what
    /// the layers read in the forward pass and of the units' weights do not go together.
    pub fn backprop(&mut self, input: &Vec<T>, target: &Vec<T>) -> (r: Result<
        (),
        DimensionMismatch,
    >)
        ensures
            match old(self)@.backprop_unfit(input@.len(), target@.len()) {
                Some(e) => r == Err::<(), DimensionMismatch>(e) && final(self)@ == old(self)@,
                None => r is Ok && final(self)@ == old(self)@.backpropagated(input@, target@),
            },
    {
        match self.check_backward(input.len(), target.len()) {
            Err(e) => {
                return Err(e);
            },
            Ok(_) => {},
        }
        let ghost before = self@.layers;
        let n: usize = self.layers.len();
        let mut above: usize = n;
        while above > 0
            invariant
                above <= n,
                n == self.layers.len(),
                before == old(self)@.layers,
                before.len() == n,
                self.output == old(self).output,
                backward_unfit(before, input@.len(), target@.len(), above - 1) is None,
                forall|k: int| 0 <= k < above ==> (#[trigger] self.layers@[k])@ == before[k],
                forall|k: int|
                    above <= k < n ==> (#[trigger] self.layers@[k])@ == backward(
                        before,
                        input@,
                        target@,
                        k,
                    ),
                forall|k: int| above <= k < n ==> (#[trigger] self.layers@[k])@.can_descend(),
            decreases above,
        {
            let i: usize = above - 1;
            assert(backward_unfit_at(before, input@.len(), target@.len(), i as int) is None);
            let prev_output: Vec<T> = if i == 0 {
                copy_of(input)
            } else {
                copy_of(&self.layers[i - 1].activations)
            };
            if i == n - 1 {
                match self.layers[i].errors_output(target) {
                    Err(e) => {
                        return Err(e);
                    },
                    Ok(_) => {},
                }
            } else {
                let next_weights: Vec<Vec<T>> = self.layers[i + 1].weights();
                let next_errors: Vec<T> = copy_of(&self.layers[i + 1].errors);
                proof {
                    lemma_backward_keeps(before, input@, target@, i + 1);
                    assert(row_lengths(grid(next_weights@)) =~= before[i + 1].widths());
                }
                match self.layers[i].errors_hidden(&next_weights, &next_errors) {
                    Err(e) => {
                        return Err(e);
                    },
                    Ok(_) => {},
                }
            }
            let ghost with_errors = self.layers@[i as int]@;
            assert(with_errors.widths() =~= before[i as int].widths());
            match self.layers[i].calculcate_gradients(&prev_output) {
                Err(e) => {
                    return Err(e);
                },
                Ok(_) => {},
            }
            proof {
                lemma_unfit_unit_none(before[i as int].widths(), prev_output@.len());
                assert forall|m: int| 0 <= m < self.layers@[i as int]@.nodes.len() implies (
                #[trigger] self.layers@[i as int]@.nodes[m]).gradients.len()
                    == self.layers@[i as int]@.nodes[m].weights.len() by {
                    assert(before[i as int].widths()[m] == prev_output@.len());
                }
            }
            above = i;
        }
        let mut l: usize = 0;
        while l < n
            invariant
                l <= n,
                n == self.layers.len(),
                before.len() == n,
                self.output == old(self).output,
                forall|k: int|
                    0 <= k < l ==> (#[trigger] self.layers@[k])@ == backward(
                        before,
                        input@,
                        target@,
                        k,
                    ).descended(),
                forall|k: int|
                    l <= k < n ==> (#[trigger] self.layers@[k])@ == backward(
                        before,
                        input@,
                        target@,
                        k,
                    ),
                forall|k: int| l <= k < n ==> (#[trigger] self.layers@[k])@.can_descend(),
            decreases n - l,
        {
            match self.layers[l].descend() {
                Err(e) => {
                    return Err(e);
                },
                Ok(_) => {},
            }
            l += 1;
        }
        assert(self@.layers =~= old(self)@.backpropagated(input@, target@).layers);
        Ok(())
    }

    /// Checks that an example with an input of `input_len` numbers and a target of `target_len`
    /// numbers goes with the network.
    fn check_example(&self, input_len: usize, target_len: usize) -> (r: Result<
        (),
        DimensionMismatch,
    >)
        ensures
            match example_unfit(self@.shape(), input_len as nat, target_len as nat) {
                Some(e) => r == Err::<(), DimensionMismatch>(e),
                None => r is Ok,
            },
    {
        match self.check_forward(input_len) {
            Err(e) => {
                return Err(e);
            },
            Ok(_) => {},
        }
        let n: usize = self.layers.len();
        if n > 0 && self.layers[n - 1].nodes.len() != target_len {
            return Err(
                DimensionMismatch { expected: self.layers[n - 1].nodes.len(), found: target_len },
            );
        }
        Ok(())
    }

    /// Lets the network learn from each example once, in order: a forward pass on the input,
    /// then a backward pass towards the target that stands at the same place. Fails, and
    /// changes nothing, unless there is one target for each input and every example goes with
    /// the network.
    pub fn epoch(&mut self, inputs: &Vec<&Vec<T>>, targets: &Vec<&Vec<T>>) -> (r: Result<
        (),
        DimensionMismatch,
    >)
        ensures
            match epoch_unfit(old(self)@.shape(), examples(inputs@), examples(targets@)) {
                Some(e) => r == Err::<(), DimensionMismatch>(e) && final(self)@ == old(self)@,
                None => r is Ok && final(self)@ == old(self)@.after_epoch::<A>(
                    examples(inputs@),
                    examples(targets@),
                ),
            },
    {
        if inputs.len() != targets.len() {
            return Err(DimensionMismatch { expected: inputs.len(), found: targets.len() });
        }
        let ghost shape = self@.shape();
        let ghost ins = examples(inputs@);
        let ghost outs = examples(targets@);
        let mut i: usize = 0;
        assert(ins.skip(0) =~= ins);
        assert(outs.skip(0) =~= outs);
        while i < inputs.len()
            invariant
                i <= inputs.len(),
                inputs.len() == targets.len(),
                shape == self@.shape(),
                ins == examples(inputs@),
                outs == examples(targets@),
                examples_unfit(shape, ins, outs) == examples_unfit(
                    shape,
                    ins.skip(i as int),
                    outs.skip(i as int),
                ),
            decreases inputs.len() - i,
        {
            assert(ins.skip(i as int).drop_first() =~= ins.skip(i + 1));
            assert(outs.skip(i as int).drop_first() =~= outs.skip(i + 1));
            match self.check_example(inputs[i].len(), targets[i].len()) {
                Err(e) => {
                    return Err(e);
                },
                Ok(_) => {},
            }
            i += 1;
        }
        i = 0;
        assert(ins.take(0) =~= Seq::<Seq<T>>::empty());
        while i < inputs.len()
            invariant
                i <= inputs.len(),
                inputs.len() == targets.len(),
                shape == self@.shape(),
                ins == examples(inputs@),
                outs == examples(targets@),
                examples_unfit(shape, ins.skip(i as int), outs.skip(i as int)) is None,
                self@ == old(self)@.after_epoch::<A>(ins.take(i as int), outs.take(i as int)),
            decreases inputs.len() - i,
        {
            let ghost learnt = self@;
            proof {
                assert(ins.skip(i as int).drop_first() =~= ins.skip(i + 1));
                assert(outs.skip(i as int).drop_first() =~= outs.skip(i + 1));
                assert(ins.take(i + 1).drop_last() =~= ins.take(i as int));
                assert(outs.take(i + 1).drop_last() =~= outs.take(i as int));
                lemma_fit_after_forward::<T, A>(learnt, inputs@[i as int]@, targets@[i as int]@.len());
                lemma_learning_keeps_shape::<T, A>(learnt, inputs@[i as int]@, targets@[i as int]@);
            }
            match self.activate(inputs[i]) {
                Err(e) => {
                    return Err(e);
                },
                Ok(_) => {},
            }
            match self.backprop(inputs[i], targets[i]) {
                Err(e) => {
                    return Err(e);
                },
                Ok(_) => {},
            }
            i += 1;
        }
        assert(ins.take(i as int) =~= ins);
        assert(outs.take(i as int) =~= outs);
        Ok(())
    }

    /// Runs `epochs` epochs on the same examples, one after the other. Fails, and changes
    /// nothing, if there is an epoch to run and it would fail.
    pub fn train(&mut self, inputs: &Vec<&Vec<T>>, targets: &Vec<&Vec<T>>, epochs: u128) -> (r:
        Result<(), DimensionMismatch>)
        ensures
            epochs == 0 ==> r is Ok && final(self)@ == old(self)@,
            epochs > 0 ==> match epoch_unfit(
                old(self)@.shape(),
                examples(inputs@),
                examples(targets@),
            ) {
                Some(e) => r == Err::<(), DimensionMismatch>(e) && final(self)@ == old(self)@,
                None => r is Ok && final(self)@ == old(self)@.after_training::<A>(
                    examples(inputs@),
                    examples(targets@),
                    epochs as nat,
                ),
            },
    {
        let mut done: u128 = 0;
        while done < epochs
            invariant
                done <= epochs,
                self@.shape() == old(self)@.shape(),
                self@ == old(self)@.after_training::<A>(
                    examples(inputs@),
                    examples(targets@),
                    done as nat,
                ),
                done > 0 ==> epoch_unfit(
                    old(self)@.shape(),
                    examples(inputs@),
                    examples(targets@),
                ) is None,
            decreases epochs - done,
        {
            proof {
                lemma_epoch_keeps_shape::<T, A>(self@, examples(inputs@), examples(targets@));
            }
            match self.epoch(inputs, targets) {
                Err(e) => {
                    return Err(e);
                },
                Ok(_) => {},
            }
            done += 1;
        }
        Ok(())
    }
}

} // verus!
