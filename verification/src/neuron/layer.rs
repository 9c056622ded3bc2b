use crate::activation::Activation;
use crate::error::DimensionMismatch;
use crate::neuron::model::{
    column, lemma_unfit_row_none, lemma_unfit_unit_none, row_lengths, unfit_row, unfit_unit,
    LayerView, NodeView,
};
use crate::neuron::node::Node;
use crate::scalar::Scalar;
use vstd::prelude::*;

verus! {

/// Units that all read the same input, and what their last forward and backward pass left
/// behind.
pub struct Layer<T, A> {
    /// The units, in the order of their outputs.
    pub nodes: Vec<Node<T, A>>,
    /// The outputs of the units at the last activation.
    pub activations: Vec<T>,
    /// The error terms of the units at the last backward pass.
    pub errors: Vec<T>,
}

/// The units of `nodes` as plain values.
pub open spec fn node_views<T, A>(nodes: Seq<Node<T, A>>) -> Seq<NodeView<T>> {
    Seq::new(nodes.len(), |i: int| nodes[i]@)
}

/// The rows of `rows` as plain values.
pub open spec fn grid<T>(rows: Seq<Vec<T>>) -> Seq<Seq<T>> {
    Seq::new(rows.len(), |i: int| rows[i]@)
}

impl<T, A> View for Layer<T, A> {
    type V = LayerView<T>;

    open spec fn view(&self) -> LayerView<T> {
        LayerView {
            nodes: node_views(self.nodes@),
            activations: self.activations@,
            errors: self.errors@,
        }
    }
}

/// A copy of `v`.
pub(crate) fn copy_of<T: Copy>(v: &Vec<T>) -> (r: Vec<T>)
    ensures
        r@ == v@,
{
    let mut out: Vec<T> = Vec::new();
    let mut i: usize = 0;
    while i < v.len()
        invariant
            i <= v.len(),
            out@ == v@.take(i as int),
        decreases v.len() - i,
    {
        out.push(v[i]);
        assert(v@.take(i + 1) =~= v@.take(i as int).push(v@[i as int]));
        i += 1;
    }
    assert(v@.take(i as int) =~= v@);
    out
}

/// Checks that every row of `rows` holds `len` numbers.
fn check_rows<T>(rows: &Vec<Vec<T>>, len: usize) -> (r: Result<(), DimensionMismatch>)
    ensures
        match unfit_row(row_lengths(grid(rows@)), len as nat) {
            Some(e) => r == Err::<(), DimensionMismatch>(e),
            None => r is Ok,
        },
{
    let ghost widths = row_lengths(grid(rows@));
    let mut i: usize = 0;
    assert(widths.skip(0) =~= widths);
    while i < rows.len()
        invariant
            i <= rows.len(),
            widths == row_lengths(grid(rows@)),
            unfit_row(widths, len as nat) == unfit_row(widths.skip(i as int), len as nat),
        decreases rows.len() - i,
    {
        assert(widths.skip(i as int).drop_first() =~= widths.skip(i + 1));
        if rows[i].len() != len {
            return Err(DimensionMismatch { expected: len, found: rows[i].len() });
        }
        i += 1;
    }
    Ok(())
}

/// The numbers at place `i` of the rows of `rows`, in the order of the rows.
fn column_of<T: Copy>(rows: &Vec<Vec<T>>, i: usize) -> (r: Vec<T>)
    requires
        forall|k: int| 0 <= k < rows@.len() ==> i < (#[trigger] rows@[k])@.len(),
    ensures
        r@ == column(grid(rows@), i as int),
{
    let mut out: Vec<T> = Vec::new();
    let mut k: usize = 0;
    while k < rows.len()
        invariant
            k <= rows.len(),
            out@.len() == k,
            forall|j: int| 0 <= j < rows@.len() ==> i < (#[trigger] rows@[j])@.len(),
            forall|j: int| 0 <= j < k ==> #[trigger] out@[j] == rows@[j]@[i as int],
        decreases rows.len() - k,
    {
        assert(i < rows@[k as int]@.len());
        out.push(rows[k][i]);
        k += 1;
    }
    assert(out@ =~= column(grid(rows@), i as int));
    out
}

impl<T: Scalar, A: Activation<T>> Layer<T, A> {
    /// A layer of the given units that has not been activated yet.
    pub fn new(nodes: Vec<Node<T, A>>) -> (r: Layer<T, A>)
        ensures
            r@ == LayerView::fresh(node_views(nodes@)),
            r.nodes == nodes,
    {
        Layer { nodes: nodes, activations: Vec::new(), errors: Vec::new() }
    }

    /// Checks that every unit has `len` weights.
    pub(crate) fn check_units(&self, len: usize) -> (r: Result<(), DimensionMismatch>)
        ensures
            match unfit_unit(self@.widths(), len as nat) {
                Some(e) => r == Err::<(), DimensionMismatch>(e),
                None => r is Ok,
            },
    {
        let ghost widths = self@.widths();
        let mut i: usize = 0;
        assert(widths.skip(0) =~= widths);
        while i < self.nodes.len()
            invariant
                i <= self.nodes.len(),
                widths == self@.widths(),
                unfit_unit(widths, len as nat) == unfit_unit(widths.skip(i as int), len as nat),
            decreases self.nodes.len() - i,
        {
            assert(widths.skip(i as int).drop_first() =~= widths.skip(i + 1));
            if self.nodes[i].weights.len() != len {
                return Err(
                    DimensionMismatch { expected: self.nodes[i].weights.len(), found: len },
                );
            }
            i += 1;
        }
        Ok(())
    }

    /// Activates every unit on `input`, keeps the outputs for the backward pass and returns
    /// them in the order of the units. Fails, and changes nothing, if a unit does not have one
    /// weight for each number of `input`.
    pub fn activate(&mut self, input: &Vec<T>) -> (r: Result<&Vec<T>, DimensionMismatch>)
        ensures
            match unfit_unit(old(self)@.widths(), input@.len()) {
                Some(e) => r == Err::<&Vec<T>, DimensionMismatch>(e) && final(self)@ == old(
                    self,
                )@,
                None => r is Ok && final(self)@ == old(self)@.activated::<A>(input@) && r->Ok_0@
                    == final(self).activations@,
            },
    {
        match self.check_units(input.len()) {
            Err(e) => {
                return Err(e);
            },
            Ok(_) => {},
        }
        proof {
            lemma_unfit_unit_none(self@.widths(), input@.len());
        }
        let mut outputs: Vec<T> = Vec::new();
        let mut i: usize = 0;
        while i < self.nodes.len()
            invariant
                i <= self.nodes.len(),
                self.nodes@.len() == old(self).nodes@.len(),
                self.activations == old(self).activations,
                self.errors == old(self).errors,
                outputs@.len() == i,
                forall|k: int|
                    0 <= k < self.nodes@.len() ==> #[trigger] old(self)@.widths()[k]
                        == input@.len(),
                forall|k: int|
                    0 <= k < i ==> (#[trigger] self.nodes@[k])@ == old(
                        self,
                    ).nodes@[k]@.activated::<A>(input@),
                forall|k: int|
                    0 <= k < i ==> #[trigger] outputs@[k] == old(self).nodes@[k]@.activated::<A>(
                        input@,
                    ).output,
                forall|k: int|
                    i <= k < self.nodes@.len() ==> #[trigger] self.nodes@[k] == old(
                        self,
                    ).nodes@[k],
            decreases self.nodes.len() - i,
        {
            assert(old(self)@.widths()[i as int] == input@.len());
            match self.nodes[i].activate(input) {
                Ok(output) => {
                    outputs.push(output);
                },
                Err(e) => {
                    return Err(e);
                },
            }
            i += 1;
        }
        self.activations = outputs;
        assert(self@.nodes =~= old(self)@.activated::<A>(input@).nodes);
        assert(self@.activations =~= old(self)@.activated::<A>(input@).activations);
        Ok(&self.activations)
    }

    /// The weights of each unit, in the order of the units.
    pub fn weights(&self) -> (r: Vec<Vec<T>>)
        ensures
            grid(r@) == self@.weights(),
    {
        let mut rows: Vec<Vec<T>> = Vec::new();
        let mut i: usize = 0;
        while i < self.nodes.len()
            invariant
                i <= self.nodes.len(),
                rows@.len() == i,
                forall|k: int| 0 <= k < i ==> #[trigger] rows@[k]@ == self.nodes@[k].weights@,
            decreases self.nodes.len() - i,
        {
            rows.push(copy_of(&self.nodes[i].weights));
            i += 1;
        }
        assert(grid(rows@) =~= self@.weights());
        rows
    }

    /// Sets the error of each unit of the last layer from the target at its place, and keeps
    /// the errors for the layer before. Fails, and changes nothing, unless there is one target
    /// for each unit.
    pub fn errors_output(&mut self, target: &Vec<T>) -> (r: Result<(), DimensionMismatch>)
        ensures
            target.len() == old(self).nodes.len() ==> r is Ok && final(self)@ == old(
                self,
            )@.with_errors_output(target@),
            target.len() != old(self).nodes.len() ==> final(self)@ == old(self)@ && r == Err::<
                (),
                DimensionMismatch,
            >(DimensionMismatch { expected: old(self).nodes.len(), found: target.len() }),
    {
        if self.nodes.len() != target.len() {
            return Err(DimensionMismatch { expected: self.nodes.len(), found: target.len() });
        }
        let mut errors: Vec<T> = Vec::new();
        let mut i: usize = 0;
        while i < self.nodes.len()
            invariant
                i <= self.nodes.len(),
                self.nodes@.len() == old(self).nodes@.len(),
                self.nodes@.len() == target@.len(),
                self.activations == old(self).activations,
                self.errors == old(self).errors,
                errors@.len() == i,
                forall|k: int|
                    0 <= k < i ==> (#[trigger] self.nodes@[k])@ == old(
                        self,
                    ).nodes@[k]@.with_error_output(target@[k]),
                forall|k: int|
                    0 <= k < i ==> #[trigger] errors@[k] == old(
                        self,
                    ).nodes@[k]@.with_error_output(target@[k]).error,
                forall|k: int|
                    i <= k < self.nodes@.len() ==> #[trigger] self.nodes@[k] == old(
                        self,
                    ).nodes@[k],
            decreases self.nodes.len() - i,
        {
            self.nodes[i].error_output(&target[i]);
            errors.push(self.nodes[i].error);
            i += 1;
        }
        self.errors = errors;
        assert(self@.nodes =~= old(self)@.with_errors_output(target@).nodes);
        assert(self@.errors =~= old(self)@.with_errors_output(target@).errors);
        Ok(())
    }

    /// Sets the error of each unit of an inner layer from the weights and the errors of the
    /// next layer, and keeps the errors for the layer before: unit `i` reads the weight at
    /// place `i` of every unit of the next layer. Fails, and changes nothing, if a row of
    /// `weights` does not hold one weight for each unit of this layer, or if this layer has
    /// units and there is not one error for each row.
    pub fn errors_hidden(&mut self, weights: &Vec<Vec<T>>, errors: &Vec<T>) -> (r: Result<
        (),
        DimensionMismatch,
    >)
        ensures
            match unfit_row(row_lengths(grid(weights@)), old(self).nodes@.len()) {
                Some(e) => r == Err::<(), DimensionMismatch>(e) && final(self)@ == old(self)@,
                None => if old(self).nodes.len() > 0 && weights.len() != errors.len() {
                    r == Err::<(), DimensionMismatch>(
                        DimensionMismatch { expected: weights.len(), found: errors.len() },
                    ) && final(self)@ == old(self)@
                } else {
                    r is Ok && final(self)@ == old(self)@.with_errors_hidden(
                        grid(weights@),
                        errors@,
                    )
                },
            },
    {
        match check_rows(weights, self.nodes.len()) {
            Err(e) => {
                return Err(e);
            },
            Ok(_) => {},
        }
        if self.nodes.len() > 0 && weights.len() != errors.len() {
            return Err(DimensionMismatch { expected: weights.len(), found: errors.len() });
        }
        proof {
            lemma_unfit_row_none(
                row_lengths(grid(weights@)),
                self.nodes@.len(),
            );
            assert forall|k: int| 0 <= k < weights@.len() implies (#[trigger] weights@[k])@.len()
                == self.nodes@.len() by {
                assert(row_lengths(grid(weights@))[k] == self.nodes@.len());
            }
        }
        let mut own_errors: Vec<T> = Vec::new();
        let mut i: usize = 0;
        while i < self.nodes.len()
            invariant
                i <= self.nodes.len(),
                self.nodes@.len() == old(self).nodes@.len(),
                self.nodes@.len() > 0 ==> weights.len() == errors.len(),
                self.activations == old(self).activations,
                self.errors == old(self).errors,
                own_errors@.len() == i,
                forall|k: int|
                    0 <= k < weights@.len() ==> (#[trigger] weights@[k])@.len()
                        == self.nodes@.len(),
                forall|k: int|
                    0 <= k < i ==> (#[trigger] self.nodes@[k])@ == old(
                        self,
                    ).nodes@[k]@.with_error_hidden(column(grid(weights@), k), errors@),
                forall|k: int|
                    0 <= k < i ==> #[trigger] own_errors@[k] == old(
                        self,
                    ).nodes@[k]@.with_error_hidden(column(grid(weights@), k), errors@).error,
                forall|k: int|
                    i <= k < self.nodes@.len() ==> #[trigger] self.nodes@[k] == old(
                        self,
                    ).nodes@[k],
            decreases self.nodes.len() - i,
        {
            let next_weights: Vec<T> = column_of(weights, i);
            match self.nodes[i].error_hidden(&next_weights, errors) {
                Ok(_) => {},
                Err(e) => {
                    return Err(e);
                },
            }
            own_errors.push(self.nodes[i].error);
            i += 1;
        }
        self.errors = own_errors;
        assert(self@.nodes =~= old(self)@.with_errors_hidden(grid(weights@), errors@).nodes);
        assert(self@.errors =~= old(self)@.with_errors_hidden(grid(weights@), errors@).errors);
        Ok(())
    }

    /// Checks that every unit has `len` weights, as a layer of `len` units before this one
    /// needs it.
    pub(crate) fn check_rows_of(&self, len: usize) -> (r: Result<(), DimensionMismatch>)
        ensures
            match unfit_row(self@.widths(), len as nat) {
                Some(e) => r == Err::<(), DimensionMismatch>(e),
                None => r is Ok,
            },
    {
        let ghost widths = self@.widths();
        let mut i: usize = 0;
        assert(widths.skip(0) =~= widths);
        while i < self.nodes.len()
            invariant
                i <= self.nodes.len(),
                widths == self@.widths(),
                unfit_row(widths, len as nat) == unfit_row(widths.skip(i as int), len as nat),
            decreases self.nodes.len() - i,
        {
            assert(widths.skip(i as int).drop_first() =~= widths.skip(i + 1));
            if self.nodes[i].weights.len() != len {
                return Err(
                    DimensionMismatch { expected: len, found: self.nodes[i].weights.len() },
                );
            }
            i += 1;
        }
        Ok(())
    }

    /// Lets every unit take one descent step. Fails if a unit does not have one gradient for
    /// each weight.
    pub(crate) fn descend(&mut self) -> (r: Result<(), DimensionMismatch>)
        requires
            old(self)@.can_descend(),
        ensures
            r is Ok,
            final(self)@ == old(self)@.descended(),
    {
        let mut i: usize = 0;
        while i < self.nodes.len()
            invariant
                i <= self.nodes.len(),
                old(self)@.can_descend(),
                self.nodes@.len() == old(self).nodes@.len(),
                self.activations == old(self).activations,
                self.errors == old(self).errors,
                forall|k: int|
                    0 <= k < i ==> (#[trigger] self.nodes@[k])@ == old(
                        self,
                    ).nodes@[k]@.descended(),
                forall|k: int|
                    i <= k < self.nodes@.len() ==> #[trigger] self.nodes@[k] == old(
                        self,
                    ).nodes@[k],
            decreases self.nodes.len() - i,
        {
            assert(old(self)@.nodes[i as int].gradients.len() == old(
                self,
            )@.nodes[i as int].weights.len());
            match self.nodes[i].descend() {
                Ok(_) => {},
                Err(e) => {
                    return Err(e);
                },
            }
            i += 1;
        }
        assert(self@.nodes =~= old(self)@.descended().nodes);
        Ok(())
    }

    /// Sets the gradients of every unit from `prev_outputs`, the numbers that the layer read.
    /// Fails, and changes nothing, if a unit does not have one weight for each of them.
    pub fn calculcate_gradients(&mut self, prev_outputs: &Vec<T>) -> (r: Result<
        (),
        DimensionMismatch,
    >)
        ensures
            match unfit_unit(old(self)@.widths(), prev_outputs@.len()) {
                Some(e) => r == Err::<(), DimensionMismatch>(e) && final(self)@ == old(self)@,
                None => r is Ok && final(self)@ == old(self)@.with_gradients(prev_outputs@),
            },
    {
        match self.check_units(prev_outputs.len()) {
            Err(e) => {
                return Err(e);
            },
            Ok(_) => {},
        }
        proof {
            lemma_unfit_unit_none(self@.widths(), prev_outputs@.len());
        }
        let mut i: usize = 0;
        while i < self.nodes.len()
            invariant
                i <= self.nodes.len(),
                self.nodes@.len() == old(self).nodes@.len(),
                self.activations == old(self).activations,
                self.errors == old(self).errors,
                forall|k: int|
                    0 <= k < self.nodes@.len() ==> #[trigger] old(self)@.widths()[k]
                        == prev_outputs@.len(),
                forall|k: int|
                    0 <= k < i ==> (#[trigger] self.nodes@[k])@ == old(
                        self,
                    ).nodes@[k]@.with_gradients(prev_outputs@),
                forall|k: int|
                    i <= k < self.nodes@.len() ==> #[trigger] self.nodes@[k] == old(
                        self,
                    ).nodes@[k],
            decreases self.nodes.len() - i,
        {
            assert(old(self)@.widths()[i as int] == prev_outputs@.len());
            match self.nodes[i].calculate_gradients(prev_outputs) {
                Ok(_) => {},
                Err(e) => {
                    return Err(e);
                },
            }
            i += 1;
        }
        assert(self@.nodes =~= old(self)@.with_gradients(prev_outputs@).nodes);
        Ok(())
    }
}

} // verus!
