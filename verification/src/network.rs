//! A feedforward network: an ordered sequence of sigmoid layers.
//!
//! The network owns its layers exclusively; topology is fixed at
//! construction and only weight values mutate.  The forward pass threads
//! each layer's cached output into the next layer; the backward pass
//! computes deltas from the last layer to the first and then accumulates
//! per-layer gradients; a flush applies the averaged step to every layer.

use crate::fixed::{fx_add_spec, fx_div_count_spec, fx_div_spec, fx_mul_spec, fx_sub_spec, Fix, FX_SCALE};
use crate::layer::{
    flush_cell_spec, grad_cell_spec, hidden_delta_spec, layer_out_spec, out_delta_spec, with_bias,
    Layer,
};
use crate::matrix::{ColumnVec, Matrix};
use crate::{NnError, ParamInit};
use vstd::prelude::*;

verus! {

broadcast use crate::matrix::lemma_matrix_view_shape;

/// The number of neurons a weight grid feeds.
pub open spec fn grid_out_size(w: Seq<Seq<int>>) -> int {
    w[0].len() as int
}

/// The activations entering layer `k` (so, for `k` equal to the layer
/// count, the network's final output): the input folded through the
/// first `k` layers.
#[verifier::opaque]
pub open spec fn forward_upto(input: Seq<int>, ws: Seq<Seq<Seq<int>>>, k: int) -> Seq<int>
    decreases k,
{
    if k <= 0 {
        input
    } else {
        layer_out_spec(forward_upto(input, ws, k - 1), ws[k - 1], grid_out_size(ws[k - 1]))
    }
}

/// The network's output for an input: the input folded through all layers.
pub open spec fn net_forward_spec(input: Seq<int>, ws: Seq<Seq<Seq<int>>>) -> Seq<int> {
    forward_upto(input, ws, ws.len() as int)
}

/// The error signal of layer `l` for one example: the output layer's delta
/// from the expected values, every other layer's backpropagated from the
/// layer after it.
pub open spec fn delta_at(
    input: Seq<int>,
    expected: Seq<int>,
    ws: Seq<Seq<Seq<int>>>,
    l: int,
) -> Seq<int>
    decreases ws.len() - l,
{
    let outs = forward_upto(input, ws, l + 1);
    if l >= ws.len() - 1 {
        Seq::new(outs.len(), |j: int| out_delta_spec(outs[j], expected[j]))
    } else {
        Seq::new(
            outs.len(),
            |i: int| hidden_delta_spec(outs[i], delta_at(input, expected, ws, l + 1), ws[l + 1], i),
        )
    }
}

/// A gradient accumulator grid after one example's contribution:
/// `delta[column] * input_with_bias[row]` added to every cell.
pub open spec fn accum_grid(g: Seq<Seq<int>>, delta: Seq<int>, prev: Seq<int>) -> Seq<Seq<int>> {
    Seq::new(
        g.len(),
        |r: int| Seq::new(g[r].len(), |c: int| grad_cell_spec(g[r][c], delta[c], with_bias(prev)[r])),
    )
}

/// A weight grid after a flush of the accumulator `g` over `n` examples.
pub open spec fn flush_grid(w: Seq<Seq<int>>, g: Seq<Seq<int>>, rate: int, n: int) -> Seq<
    Seq<int>,
> {
    Seq::new(w.len(), |r: int| Seq::new(w[r].len(), |c: int| flush_cell_spec(w[r][c], g[r][c], rate, n)))
}

/// An ordered sequence of (input vector, expected-output vector) pairs.
pub type Dataset = Vec<(ColumnVec, ColumnVec)>;

/// An ordered sequence of fully-connected sigmoid layers.
pub struct NeuronNetwork {
    layers: Vec<Layer>,
}

impl NeuronNetwork {
    /// Layer `i`, at the specification level.
    pub closed spec fn l(self, i: int) -> Layer {
        self.layers@[i]
    }

    /// Number of layer transitions.
    pub closed spec fn spec_num_layers(self) -> int {
        self.layers@.len() as int
    }

    /// The per-layer weight grids.
    pub open spec fn model(self) -> Seq<Seq<Seq<int>>> {
        Seq::new(self.spec_num_layers() as nat, |i: int| self.l(i).w())
    }

    /// The per-layer gradient accumulator grids.
    pub open spec fn grads(self) -> Seq<Seq<Seq<int>>> {
        Seq::new(self.spec_num_layers() as nat, |i: int| self.l(i).g())
    }

    /// Length of an input vector.
    pub open spec fn spec_in_size(self) -> int {
        self.l(0).in_size()
    }

    /// Length of the output vector.
    pub open spec fn spec_out_size(self) -> int {
        self.l(self.spec_num_layers() - 1).out_size()
    }

    /// Validity: at least one layer, every layer valid, and consecutive
    /// layers shape-compatible.
    pub open spec fn wf(self) -> bool {
        &&& self.spec_num_layers() >= 1
        &&& forall|i: int| 0 <= i < self.spec_num_layers() ==> (#[trigger] self.l(i)).wf()
        &&& forall|i: int|
            1 <= i < self.spec_num_layers() ==> (#[trigger] self.l(i)).in_size()
                == self.l(i - 1).out_size()
    }

    /// No gradient is pending: every accumulator is zero and no example
    /// has been counted since the last flush.
    pub open spec fn is_idle(self) -> bool {
        &&& forall|i: int| 0 <= i < self.spec_num_layers() ==> (#[trigger] self.l(i)).seen() == 0
        &&& forall|i: int, r: int, c: int|
            0 <= i < self.spec_num_layers() && 0 <= r < self.l(i).g().len() && 0 <= c
                < self.l(i).out_size() ==> #[trigger] self.l(i).g()[r][c] == 0
    }

    /// The weight grid layer `l` will hold after one full training step
    /// over `data` at learning rate `rate`: the batch-accumulated gradient
    /// flushed into the current weights, averaged over the examples seen.
    pub open spec fn step_result(self, data: Seq<(Seq<int>, Seq<int>)>, rate: int, l: int) -> Seq<Seq<int>> {
        flush_grid(
            self.l(l).w(),
            batch_grads(self.model(), data, self.grads(), data.len() as int)[l],
            rate,
            self.l(l).seen() + data.len(),
        )
    }

    /// Every layer's example counter can still take `extra` more examples
    /// without overflowing.
    pub open spec fn seen_budget(self, extra: int) -> bool {
        forall|i: int|
            0 <= i < self.spec_num_layers() ==> (#[trigger] self.l(i)).seen() + extra
                < usize::MAX
    }

    /// The caches of every layer hold exactly the forward pass of `input`
    /// under the current weights.
    pub open spec fn forwarded(self, input: Seq<int>) -> bool {
        forall|i: int|
            0 <= i < self.spec_num_layers() ==> (#[trigger] self.l(i)).outs() == forward_upto(
                input,
                self.model(),
                i + 1,
            )
    }

    /// A network with one layer per consecutive pair of declared sizes,
    /// rejected when fewer than two sizes or a zero size is declared.
    pub fn new(layers_sizes: &Vec<usize>, init: ParamInit) -> (r: Result<NeuronNetwork, NnError>)
        requires
            forall|i: int|
                0 <= i < layers_sizes@.len() - 1 ==> (layers_sizes@[i] + 1) * #[trigger] layers_sizes@[
                    i + 1
                ] <= usize::MAX,
            init matches ParamInit::Constant(v) ==> v.wf(),
        ensures
            r is Ok <==> (layers_sizes@.len() >= 2 && forall|i: int|
                0 <= i < layers_sizes@.len() ==> #[trigger] layers_sizes@[i] >= 1),
            r is Err ==> r == Err::<NeuronNetwork, NnError>(NnError::InvalidLayerSpec),
            r is Ok ==> ({
                let n = r.unwrap();
                &&& n.wf()
                &&& n.is_idle()
                &&& n.spec_num_layers() == layers_sizes@.len() - 1
                &&& forall|i: int|
                    0 <= i < n.spec_num_layers() ==> (#[trigger] n.l(i)).in_size()
                        == layers_sizes@[i] && n.l(i).out_size() == layers_sizes@[i + 1]
                &&& (init matches ParamInit::Constant(v) ==> forall|i: int, r2: int, c: int|
                    0 <= i < n.spec_num_layers() && 0 <= r2 < n.l(i).w().len() && 0 <= c < n.l(
                        i,
                    ).out_size() ==> #[trigger] n.l(i).w()[r2][c] == v@)
                &&& (init is RandomUniform ==> forall|i: int, r2: int, c: int|
                    0 <= i < n.spec_num_layers() && 0 <= r2 < n.l(i).w().len() && 0 <= c < n.l(
                        i,
                    ).out_size() ==> 0 <= #[trigger] n.l(i).w()[r2][c] < FX_SCALE)
            }),
    {
        if layers_sizes.len() < 2 {
            return Err(NnError::InvalidLayerSpec);
        }
        let mut i: usize = 0;
        while i < layers_sizes.len()
            invariant
                i <= layers_sizes@.len(),
                forall|j: int| 0 <= j < i ==> #[trigger] layers_sizes@[j] >= 1,
            decreases layers_sizes@.len() - i,
        {
            if layers_sizes[i] == 0 {
                return Err(NnError::InvalidLayerSpec);
            }
            i = i + 1;
        }
        let mut layers: Vec<Layer> = Vec::new();
        let mut k: usize = 0;
        while k < layers_sizes.len() - 1
            invariant
                layers_sizes@.len() >= 2,
                forall|j: int| 0 <= j < layers_sizes@.len() ==> #[trigger] layers_sizes@[j] >= 1,
                forall|j: int|
                    0 <= j < layers_sizes@.len() - 1 ==> (layers_sizes@[j] + 1)
                        * #[trigger] layers_sizes@[j + 1] <= usize::MAX,
                init matches ParamInit::Constant(v) ==> v.wf(),
                k <= layers_sizes@.len() - 1,
                layers@.len() == k,
                forall|j: int|
                    0 <= j < k ==> (#[trigger] layers@[j]).wf() && layers@[j].in_size()
                        == layers_sizes@[j] && layers@[j].out_size() == layers_sizes@[j + 1]
                        && layers@[j].seen() == 0,
                forall|j: int, r2: int, c: int|
                    0 <= j < k && 0 <= r2 < layers@[j].g().len() && 0 <= c < layers@[j].out_size()
                        ==> #[trigger] layers@[j].g()[r2][c] == 0,
                init matches ParamInit::Constant(v) ==> forall|j: int, r2: int, c: int|
                    0 <= j < k && 0 <= r2 < layers@[j].w().len() && 0 <= c < layers@[j].out_size()
                        ==> #[trigger] layers@[j].w()[r2][c] == v@,
                init is RandomUniform ==> forall|j: int, r2: int, c: int|
                    0 <= j < k && 0 <= r2 < layers@[j].w().len() && 0 <= c < layers@[j].out_size()
                        ==> 0 <= #[trigger] layers@[j].w()[r2][c] < FX_SCALE,
            decreases layers_sizes@.len() - 1 - k,
        {
            let layer = Layer::new(layers_sizes[k], layers_sizes[k + 1], init);
            layers.push(layer);
            k = k + 1;
        }
        Ok(NeuronNetwork { layers })
    }

    /// A network with weights drawn uniformly from `[0, 1)`.
    pub fn random(layers_sizes: &Vec<usize>) -> (r: Result<NeuronNetwork, NnError>)
        requires
            forall|i: int|
                0 <= i < layers_sizes@.len() - 1 ==> (layers_sizes@[i] + 1) * #[trigger] layers_sizes@[
                    i + 1
                ] <= usize::MAX,
        ensures
            r is Ok <==> (layers_sizes@.len() >= 2 && forall|i: int|
                0 <= i < layers_sizes@.len() ==> #[trigger] layers_sizes@[i] >= 1),
            r is Err ==> r == Err::<NeuronNetwork, NnError>(NnError::InvalidLayerSpec),
            r is Ok ==> ({
                let n = r.unwrap();
                &&& n.wf()
                &&& n.is_idle()
                &&& n.spec_num_layers() == layers_sizes@.len() - 1
                &&& forall|i: int|
                    0 <= i < n.spec_num_layers() ==> (#[trigger] n.l(i)).in_size()
                        == layers_sizes@[i] && n.l(i).out_size() == layers_sizes@[i + 1]
                &&& forall|i: int, r2: int, c: int|
                    0 <= i < n.spec_num_layers() && 0 <= r2 < n.l(i).w().len() && 0 <= c < n.l(
                        i,
                    ).out_size() ==> 0 <= #[trigger] n.l(i).w()[r2][c] < FX_SCALE
            }),
    {
        NeuronNetwork::new(layers_sizes, ParamInit::RandomUniform)
    }

    /// Number of layer transitions.
    pub fn num_layers(&self) -> (n: usize)
        ensures
            n as int == self.spec_num_layers(),
    {
        self.layers.len()
    }

    /// Layer `i`, for inspection.
    pub fn layer(&self, i: usize) -> (l: &Layer)
        requires
            i < self.spec_num_layers(),
        ensures
            *l == self.l(i as int),
    {
        &self.layers[i]
    }

    /// The per-layer weight matrices.
    pub fn get_model(&self) -> (model: Vec<&Matrix>)
        requires
            self.wf(),
        ensures
            model@.len() == self.spec_num_layers(),
            forall|i: int|
                0 <= i < self.spec_num_layers() ==> (#[trigger] model@[i])@ == self.model()[i],
    {
        let mut model: Vec<&Matrix> = Vec::new();
        let mut i: usize = 0;
        while i < self.layers.len()
            invariant
                self.wf(),
                i <= self.spec_num_layers(),
                model@.len() == i,
                forall|j: int| 0 <= j < i ==> (#[trigger] model@[j])@ == self.model()[j],
            decreases self.spec_num_layers() - i,
        {
            proof {
                assert(self.l(i as int).wf());
            }
            let m = self.layers[i].weights();
            model.push(m);
            i = i + 1;
        }
        model
    }

    /// Folds the input through every layer's `forward`, caching each
    /// layer's activations; the final output is the last layer's cache.
    #[verifier::rlimit(100)]
    pub fn forward_pass(&mut self, inputs: &ColumnVec)
        requires
            old(self).wf(),
            inputs.wf(),
            inputs@.len() == old(self).spec_in_size(),
        ensures
            final(self).wf(),
            final(self).spec_num_layers() == old(self).spec_num_layers(),
            final(self).model() == old(self).model(),
            final(self).spec_in_size() == old(self).spec_in_size(),
            final(self).spec_out_size() == old(self).spec_out_size(),
            forall|i: int|
                0 <= i < old(self).spec_num_layers() ==> (#[trigger] final(self).l(i)).g() == old(
                    self,
                ).l(i).g() && final(self).l(i).seen() == old(self).l(i).seen() && final(self).l(
                    i,
                ).ds() == old(self).l(i).ds() && final(self).l(i).in_size() == old(self).l(
                    i,
                ).in_size() && final(self).l(i).out_size() == old(self).l(i).out_size(),
            final(self).forwarded(inputs@),
    {
        let len = self.layers.len();
        let mut i: usize = 0;
        while i < len
            invariant
                self.wf(),
                inputs.wf(),
                len == self.spec_num_layers(),
                inputs@.len() == self.spec_in_size(),
                i <= len,
                self.model() == old(self).model(),
                self.spec_num_layers() == old(self).spec_num_layers(),
                forall|j: int|
                    0 <= j < len ==> (#[trigger] self.l(j)).g() == old(self).l(j).g() && self.l(
                        j,
                    ).seen() == old(self).l(j).seen() && self.l(j).ds() == old(self).l(j).ds()
                        && self.l(j).in_size() == old(self).l(j).in_size() && self.l(j).out_size()
                        == old(self).l(j).out_size(),
                forall|j: int|
                    0 <= j < i ==> (#[trigger] self.l(j)).outs() == forward_upto(
                        inputs@,
                        self.model(),
                        j + 1,
                    ),
            decreases len - i,
        {
            proof {
                self.l(i as int).lemma_wf_shapes();
                if i > 0 {
                    self.l(i as int - 1).lemma_wf_shapes();
                }
            }
            let ghost prev_net = *self;
            let s = self.layers.as_mut_slice();
            let (head, tail) = s.split_at_mut(i);
            proof {
                assert(tail@[0] == prev_net.l(i as int));
            }
            let cur_opt = tail.first_mut();
            let cur = cur_opt.unwrap();
            if i == 0 {
                cur.forward(inputs);
            } else {
                let prev = head[i - 1].outputs();
                proof {
                    assert(head@[i as int - 1] == prev_net.l(i as int - 1));
                    assert(prev@ == forward_upto(inputs@, prev_net.model(), i as int));
                }
                cur.forward(prev);
            }
            proof {
                reveal(crate::network::forward_upto);
                assert(self.layers@ =~= prev_net.layers@.update(i as int, self.layers@[i as int]));
                assert forall|j: int| 0 <= j < len && j != i as int implies self.l(j)
                    == prev_net.l(j) by {
                    assert(self.layers@[j] == prev_net.layers@[j]);
                }
                assert(self.model() =~~= prev_net.model());
                assert(self.model() == old(self).model());
                assert(self.l(i as int).wf());
                assert(self.l(i as int).in_size() == prev_net.l(i as int).in_size());
                assert(self.l(i as int).out_size() == prev_net.l(i as int).out_size());
                lemma_self_wf_after_update(*self, prev_net, i as int);
                assert forall|j: int| 0 <= j < len implies (#[trigger] self.l(j)).g()
                    == old(self).l(j).g() && self.l(j).seen() == old(self).l(j).seen()
                    && self.l(j).ds() == old(self).l(j).ds() && self.l(j).in_size()
                    == old(self).l(j).in_size() && self.l(j).out_size()
                    == old(self).l(j).out_size() by {
                    if j != i as int {
                        assert(self.l(j) == prev_net.l(j));
                    }
                }
                prev_net.l(i as int).lemma_wf_shapes();
                assert(grid_out_size(self.model()[i as int]) == prev_net.l(i as int).out_size());
                assert(forward_upto(inputs@, self.model(), i as int + 1) == layer_out_spec(
                    forward_upto(inputs@, self.model(), i as int),
                    self.model()[i as int],
                    grid_out_size(self.model()[i as int]),
                ));
                if i == 0 {
                    assert(forward_upto(inputs@, self.model(), 0) == inputs@);
                }
                assert(self.l(i as int).outs() == forward_upto(inputs@, self.model(), i as int + 1));
            }
            i = i + 1;
        }
    }

    /// Computes every layer's delta — the output layer's from the expected
    /// values, the others backpropagated from last to first — then walks the
    /// layers first to last accumulating each layer's gradient from the
    /// previous layer's output; the previous output of the first layer is
    /// the original input.  The caches must hold the forward pass of
    /// `inputs`: delta computation reuses the cached activations.
    #[verifier::rlimit(100)]
    pub fn backward_pass(&mut self, inputs: &ColumnVec, expected: &ColumnVec)
        requires
            old(self).wf(),
            inputs.wf(),
            expected.wf(),
            inputs@.len() == old(self).spec_in_size(),
            expected@.len() == old(self).spec_out_size(),
            old(self).forwarded(inputs@),
            forall|i: int|
                0 <= i < old(self).spec_num_layers() ==> (#[trigger] old(self).l(i)).seen()
                    < usize::MAX,
        ensures
            final(self).wf(),
            final(self).spec_num_layers() == old(self).spec_num_layers(),
            final(self).model() == old(self).model(),
            final(self).spec_in_size() == old(self).spec_in_size(),
            final(self).spec_out_size() == old(self).spec_out_size(),
            forall|i: int|
                0 <= i < old(self).spec_num_layers() ==> (#[trigger] final(self).l(i)).outs()
                    == old(self).l(i).outs() && final(self).l(i).seen() == old(self).l(i).seen()
                    + 1 && final(self).l(i).g().len() == old(self).l(i).g().len(),
            final(self).forwarded(inputs@),
            forall|i: int|
                0 <= i < old(self).spec_num_layers() ==> (#[trigger] final(self).l(i)).ds()
                    == delta_at(inputs@, expected@, old(self).model(), i),
            forall|i: int, r: int, c: int|
                0 <= i < old(self).spec_num_layers() && 0 <= r < old(self).l(i).g().len() && 0 <= c
                    < old(self).l(i).out_size() ==> #[trigger] final(self).l(i).g()[r][c]
                    == grad_cell_spec(
                    old(self).l(i).g()[r][c],
                    delta_at(inputs@, expected@, old(self).model(), i)[c],
                    with_bias(forward_upto(inputs@, old(self).model(), i))[r],
                ),
    {
        let len = self.layers.len();
        // Output layer delta.
        proof {
            self.l(len - 1).lemma_wf_shapes();
        }
        let ghost net0 = *self;
        let s = self.layers.as_mut_slice();
        let last_opt = s.last_mut();
        let last = last_opt.unwrap();
        last.compute_output_delta(expected);
        proof {
            assert(self.layers@ =~= net0.layers@.update(len - 1, self.layers@[len - 1]));
            assert forall|j: int| 0 <= j < len && j != len - 1 implies self.l(j) == net0.l(j) by {
                assert(self.layers@[j] == net0.layers@[j]);
            }
            assert(self.model() =~~= net0.model());
            assert(self.l(len - 1).wf());
            lemma_self_wf_after_update(*self, net0, len - 1);
            assert(self.l(len - 1).ds() =~= delta_at(inputs@, expected@, net0.model(), len - 1));
        }
        // Hidden layer deltas, last to first.
        let mut idx: usize = len - 1;
        while idx > 0
            invariant
                self.wf(),
                inputs.wf(),
                expected.wf(),
                len == self.spec_num_layers(),
                len >= 1,
                idx <= len - 1,
                old(self).wf(),
                old(self).forwarded(inputs@),
                len == old(self).spec_num_layers(),
                self.model() == old(self).model(),
                forall|j: int|
                    0 <= j < len ==> (#[trigger] self.l(j)).g() == old(self).l(j).g() && self.l(
                        j,
                    ).seen() == old(self).l(j).seen() && self.l(j).outs() == old(self).l(j).outs()
                        && self.l(j).in_size() == old(self).l(j).in_size() && self.l(j).out_size()
                        == old(self).l(j).out_size(),
                forall|j: int|
                    idx <= j < len ==> (#[trigger] self.l(j)).ds() == delta_at(
                        inputs@,
                        expected@,
                        old(self).model(),
                        j,
                    ),
            decreases idx,
        {
            proof {
                self.l(idx as int).lemma_wf_shapes();
                self.l(idx as int - 1).lemma_wf_shapes();
                assert(self.l(idx as int).in_size() == self.l(idx as int - 1).out_size());
            }
            let ghost net1 = *self;
            let s = self.layers.as_mut_slice();
            let (head, tail) = s.split_at_mut(idx);
            proof {
                assert(head@[idx as int - 1] == net1.l(idx as int - 1));
                assert(tail@[0] == net1.l(idx as int));
            }
            let cur_opt = head.last_mut();
            let cur = cur_opt.unwrap();
            let next = &tail[0];
            cur.compute_delta(next);
            proof {
                assert(self.layers@ =~= net1.layers@.update(idx as int - 1, self.layers@[idx as int - 1]));
                assert forall|j: int| 0 <= j < len && j != idx as int - 1 implies self.l(j)
                    == net1.l(j) by {
                    assert(self.layers@[j] == net1.layers@[j]);
                }
                assert(self.model() =~~= net1.model());
                lemma_self_wf_after_update(*self, net1, idx as int - 1);
                assert(net1.l(idx as int - 1).outs() == old(self).l(idx as int - 1).outs());
                assert(old(self).l(idx as int - 1).outs() == forward_upto(
                    inputs@,
                    old(self).model(),
                    idx as int,
                ));
                assert(net1.l(idx as int).ds() == delta_at(
                    inputs@,
                    expected@,
                    old(self).model(),
                    idx as int,
                ));
                assert(net1.l(idx as int).w() == old(self).model()[idx as int]);
                assert(self.l(idx as int - 1).ds() =~= delta_at(
                    inputs@,
                    expected@,
                    old(self).model(),
                    idx as int - 1,
                ));
                assert forall|j: int|
                    0 <= j < len implies (#[trigger] self.l(j)).g() == old(self).l(j).g()
                    && self.l(j).seen() == old(self).l(j).seen() && self.l(j).outs()
                    == old(self).l(j).outs() && self.l(j).in_size() == old(self).l(j).in_size()
                    && self.l(j).out_size() == old(self).l(j).out_size() by {
                    if j != idx as int - 1 {
                        assert(self.l(j) == net1.l(j));
                    }
                }
                assert forall|j: int|
                    idx as int - 1 <= j < len implies (#[trigger] self.l(j)).ds() == delta_at(
                    inputs@,
                    expected@,
                    old(self).model(),
                    j,
                ) by {
                    if j != idx as int - 1 {
                        assert(self.l(j) == net1.l(j));
                    }
                }
            }
            idx = idx - 1;
        }
        // Gradient accumulation, first to last.
        let ghost mid = *self;
        self.accumulate_example(inputs);
        proof {
            assert forall|i: int|
                0 <= i < old(self).spec_num_layers() implies (#[trigger] self.l(i)).ds()
                == delta_at(inputs@, expected@, old(self).model(), i) by {
                assert(self.l(i).ds() == mid.l(i).ds());
            }
        }
    }

    /// Accumulates every layer's gradient for one example from the cached
    /// activations and the already-computed deltas, counting the example.
    #[verifier::rlimit(100)]
    fn accumulate_example(&mut self, inputs: &ColumnVec)
        requires
            old(self).wf(),
            inputs.wf(),
            inputs@.len() == old(self).spec_in_size(),
            old(self).forwarded(inputs@),
            forall|i: int|
                0 <= i < old(self).spec_num_layers() ==> (#[trigger] old(self).l(i)).seen()
                    < usize::MAX,
        ensures
            final(self).wf(),
            final(self).spec_num_layers() == old(self).spec_num_layers(),
            final(self).model() == old(self).model(),
            final(self).spec_in_size() == old(self).spec_in_size(),
            final(self).spec_out_size() == old(self).spec_out_size(),
            final(self).forwarded(inputs@),
            forall|i: int|
                0 <= i < old(self).spec_num_layers() ==> (#[trigger] final(self).l(i)).outs()
                    == old(self).l(i).outs() && final(self).l(i).ds() == old(self).l(i).ds()
                    && final(self).l(i).seen() == old(self).l(i).seen() + 1 && final(self).l(
                    i,
                ).g().len() == old(self).l(i).g().len(),
            forall|i: int, r: int, c: int|
                0 <= i < old(self).spec_num_layers() && 0 <= r < old(self).l(i).g().len() && 0 <= c
                    < old(self).l(i).out_size() ==> #[trigger] final(self).l(i).g()[r][c]
                    == grad_cell_spec(
                    old(self).l(i).g()[r][c],
                    old(self).l(i).ds()[c],
                    with_bias(forward_upto(inputs@, old(self).model(), i))[r],
                ),
    {
        let len = self.layers.len();
        let mut i: usize = 0;
        while i < len
            invariant
                self.wf(),
                inputs.wf(),
                len == self.spec_num_layers(),
                inputs@.len() == self.spec_in_size(),
                i <= len,
                old(self).wf(),
                len == old(self).spec_num_layers(),
                self.model() == old(self).model(),
                self.forwarded(inputs@),
                forall|j: int|
                    0 <= j < len ==> (#[trigger] self.l(j)).outs() == old(self).l(j).outs()
                        && self.l(j).in_size() == old(self).l(j).in_size() && self.l(j).out_size()
                        == old(self).l(j).out_size() && self.l(j).ds() == old(self).l(j).ds()
                        && self.l(j).g().len() == old(self).l(j).g().len(),
                forall|j: int|
                    0 <= j < len ==> (#[trigger] old(self).l(j)).seen() < usize::MAX,
                forall|j: int|
                    i <= j < len ==> (#[trigger] self.l(j)).g() == old(self).l(j).g() && self.l(
                        j,
                    ).seen() == old(self).l(j).seen(),
                forall|j: int|
                    0 <= j < i ==> (#[trigger] self.l(j)).seen() == old(self).l(j).seen() + 1,
                forall|j: int, r: int, c: int|
                    0 <= j < i && 0 <= r < old(self).l(j).g().len() && 0 <= c < old(self).l(
                        j,
                    ).out_size() ==> #[trigger] self.l(j).g()[r][c] == grad_cell_spec(
                        old(self).l(j).g()[r][c],
                        old(self).l(j).ds()[c],
                        with_bias(forward_upto(inputs@, old(self).model(), j))[r],
                    ),
            decreases len - i,
        {
            proof {
                self.l(i as int).lemma_wf_shapes();
                if i > 0 {
                    self.l(i as int - 1).lemma_wf_shapes();
                }
            }
            let ghost net2 = *self;
            let s = self.layers.as_mut_slice();
            let (head, tail) = s.split_at_mut(i);
            proof {
                assert(tail@[0] == net2.l(i as int));
            }
            let cur_opt = tail.first_mut();
            let cur = cur_opt.unwrap();
            if i == 0 {
                cur.accumulate_gradient(inputs);
            } else {
                let prev = head[i - 1].outputs();
                proof {
                    assert(head@[i as int - 1] == net2.l(i as int - 1));
                    assert(prev@ == forward_upto(inputs@, net2.model(), i as int));
                }
                cur.accumulate_gradient(prev);
            }
            proof {
                assert(self.layers@ =~= net2.layers@.update(i as int, self.layers@[i as int]));
                assert forall|j: int| 0 <= j < len && j != i as int implies self.l(j) == net2.l(
                    j,
                ) by {
                    assert(self.layers@[j] == net2.layers@[j]);
                }
                assert(self.model() =~~= net2.model());
                lemma_self_wf_after_update(*self, net2, i as int);
                if i == 0 {
                    assert(forward_upto(inputs@, old(self).model(), 0) == inputs@) by {
                        reveal(crate::network::forward_upto);
                    }
                }
                assert(self.l(i as int).seen() == old(self).l(i as int).seen() + 1);
                assert(self.l(i as int).ds() == net2.l(i as int).ds());
                assert(self.l(i as int).outs() == net2.l(i as int).outs());
                assert forall|r: int, c: int|
                    0 <= r < old(self).l(i as int).g().len() && 0 <= c < old(self).l(
                    i as int).out_size() implies #[trigger] self.l(i as int).g()[r][c]
                    == grad_cell_spec(
                    old(self).l(i as int).g()[r][c],
                    old(self).l(i as int).ds()[c],
                    with_bias(forward_upto(inputs@, old(self).model(), i as int))[r],
                ) by {
                    assert(net2.l(i as int).g() == old(self).l(i as int).g());
                    assert(net2.l(i as int).ds() == old(self).l(i as int).ds());
                }
                assert forall|j: int|
                    0 <= j < len implies (#[trigger] self.l(j)).outs() == old(self).l(j).outs()
                    && self.l(j).in_size() == old(self).l(j).in_size() && self.l(j).out_size()
                    == old(self).l(j).out_size() && self.l(j).ds() == old(self).l(j).ds()
                    && self.l(j).g().len() == old(self).l(j).g().len() by {
                    if j != i as int {
                        assert(self.l(j) == net2.l(j));
                    }
                }
                assert forall|j: int|
                    i as int + 1 <= j < len implies (#[trigger] self.l(j)).g() == old(self).l(
                    j,
                ).g() && self.l(j).seen() == old(self).l(j).seen() by {
                    assert(self.l(j) == net2.l(j));
                }
                assert forall|j: int|
                    0 <= j < i as int + 1 implies (#[trigger] self.l(j)).seen() == old(self).l(
                    j,
                ).seen() + 1 by {
                    if j != i as int {
                        assert(self.l(j) == net2.l(j));
                    }
                }
                assert forall|j: int, r: int, c: int|
                    0 <= j < i as int + 1 && 0 <= r < old(self).l(j).g().len() && 0 <= c < old(
                    self,
                ).l(j).out_size() implies #[trigger] self.l(j).g()[r][c] == grad_cell_spec(
                    old(self).l(j).g()[r][c],
                    old(self).l(j).ds()[c],
                    with_bias(forward_upto(inputs@, old(self).model(), j))[r],
                ) by {
                    if j != i as int {
                        assert(self.l(j) == net2.l(j));
                    }
                }
                assert forall|j: int|
                    0 <= j < len implies (#[trigger] self.l(j)).outs() == forward_upto(
                    inputs@,
                    self.model(),
                    j + 1,
                ) by {
                    if j != i as int {
                        assert(self.l(j) == net2.l(j));
                    }
                    assert(self.l(j).outs() == net2.l(j).outs());
                    assert(net2.l(j).outs() == forward_upto(inputs@, net2.model(), j + 1));
                }
            }
            i = i + 1;
        }
    }

    /// Length of an input vector.
    pub fn input_size(&self) -> (n: usize)
        requires
            self.wf(),
        ensures
            n as int == self.spec_in_size(),
    {
        proof {
            self.l(0).lemma_wf_shapes();
        }
        self.layers[0].weights().num_rows() - 1
    }

    /// Length of the output vector.
    pub fn output_size(&self) -> (n: usize)
        requires
            self.wf(),
        ensures
            n as int == self.spec_out_size(),
    {
        let last = self.layers.len() - 1;
        proof {
            assert(self.l(last as int).wf());
        }
        self.layers[last].weights().num_columns()
    }

    /// The last layer's cached activations: the network's output for the
    /// most recently forwarded input.
    pub fn output(&self) -> (v: &ColumnVec)
        requires
            self.wf(),
        ensures
            v@ == self.l(self.spec_num_layers() - 1).outs(),
            v.wf(),
    {
        let last = self.layers.len() - 1;
        proof {
            assert(self.l(last as int).wf());
        }
        self.layers[last].outputs()
    }

    /// Mean squared error over the dataset: each example is forwarded
    /// through the network and its output compared with the expectation.
    /// Rejected on an empty dataset or on an example of the wrong shape,
    /// leaving the network untouched.
    #[verifier::rlimit(100)]
    pub fn cost(&mut self, data: &Dataset) -> (res: Result<Fix, NnError>)
        requires
            old(self).wf(),
            dataset_wf(data@),
        ensures
            res is Ok <==> (data@.len() > 0 && dataset_shaped(
                data@,
                old(self).spec_in_size(),
                old(self).spec_out_size(),
            )),
            data@.len() == 0 ==> res == Err::<Fix, NnError>(NnError::EmptyDataset),
            data@.len() > 0 && !dataset_shaped(
                data@,
                old(self).spec_in_size(),
                old(self).spec_out_size(),
            ) ==> res == Err::<Fix, NnError>(NnError::ShapeMismatch),
            res is Err ==> *final(self) == *old(self),
            res is Ok ==> ({
                &&& res.unwrap().wf()
                &&& res.unwrap()@ == cost_spec(old(self).model(), dataset_views(data@))
                &&& final(self).wf()
                &&& final(self).spec_num_layers() == old(self).spec_num_layers()
                &&& final(self).model() == old(self).model()
                &&& final(self).spec_in_size() == old(self).spec_in_size()
                &&& final(self).spec_out_size() == old(self).spec_out_size()
                &&& forall|i: int|
                    0 <= i < old(self).spec_num_layers() ==> (#[trigger] final(self).l(i)).g()
                        == old(self).l(i).g() && final(self).l(i).seen() == old(self).l(i).seen()
                        && final(self).l(i).ds() == old(self).l(i).ds() && final(self).l(
                        i,
                    ).in_size() == old(self).l(i).in_size() && final(self).l(i).out_size() == old(
                        self,
                    ).l(i).out_size()
                &&& final(self).forwarded(data@[data@.len() - 1].0@)
            }),
    {
        let n = data.len();
        if n == 0 {
            return Err(NnError::EmptyDataset);
        }
        let in_size = self.input_size();
        let out_size = self.output_size();
        let mut i: usize = 0;
        while i < n
            invariant
                self.wf(),
                *self == *old(self),
                n == data@.len(),
                in_size as int == self.spec_in_size(),
                out_size as int == self.spec_out_size(),
                i <= n,
                forall|j: int|
                    0 <= j < i ==> (#[trigger] data@[j]).0@.len() == in_size && data@[j].1@.len()
                        == out_size,
            decreases n - i,
        {
            if data[i].0.len() != in_size || data[i].1.len() != out_size {
                return Err(NnError::ShapeMismatch);
            }
            i = i + 1;
        }
        let len = self.layers.len();
        let mut acc = Fix::zero();
        let mut k: usize = 0;
        while k < n
            invariant
                self.wf(),
                old(self).wf(),
                dataset_wf(data@),
                dataset_shaped(data@, old(self).spec_in_size(), old(self).spec_out_size()),
                n == data@.len(),
                n >= 1,
                len == self.spec_num_layers(),
                len == old(self).spec_num_layers(),
                self.model() == old(self).model(),
                self.spec_in_size() == old(self).spec_in_size(),
                self.spec_out_size() == old(self).spec_out_size(),
                in_size as int == self.spec_in_size(),
                out_size as int == self.spec_out_size(),
                forall|j: int|
                    0 <= j < len ==> (#[trigger] self.l(j)).g() == old(self).l(j).g() && self.l(
                        j,
                    ).seen() == old(self).l(j).seen() && self.l(j).ds() == old(self).l(j).ds()
                        && self.l(j).in_size() == old(self).l(j).in_size() && self.l(j).out_size()
                        == old(self).l(j).out_size(),
                k <= n,
                acc.wf(),
                acc@ == cost_prefix(old(self).model(), dataset_views(data@), k as int),
                k >= 1 ==> self.forwarded(data@[k - 1].0@),
            decreases n - k,
        {
            self.forward_pass(&data[k].0);
            proof {
                self.l(len - 1).lemma_wf_shapes();
                assert(data@[k as int].1@.len() == out_size);
                assert(self.l(len - 1).outs() == forward_upto(data@[k as int].0@, self.model(), len as int));
            }
            let mut err = Fix::zero();
            let mut j: usize = 0;
            while j < out_size
                invariant
                    self.wf(),
                    dataset_wf(data@),
                    n == data@.len(),
                    k < n,
                    len == self.spec_num_layers(),
                    out_size as int == self.spec_out_size(),
                    data@[k as int].1@.len() == out_size,
                    self.l(len - 1).outs().len() == out_size,
                    j <= out_size,
                    err.wf(),
                    err@ == err_prefix(self.l(len - 1).outs(), data@[k as int].1@, j as int),
                decreases out_size - j,
            {
                let o = self.output().get(j);
                let expect = &data[k].1;
                let y = expect.get(j);
                let d = o.sub(y);
                err = err.add(d.mul(d));
                j = j + 1;
            }
            let ec = err.div_count(out_size);
            acc = acc.add(ec);
            proof {
                let views = dataset_views(data@);
                assert(views[k as int].0 == data@[k as int].0@);
                assert(views[k as int].1 == data@[k as int].1@);
                assert(self.model().len() == len as int);
                assert(net_forward_spec(views[k as int].0, old(self).model()) == forward_upto(
                    data@[k as int].0@,
                    old(self).model(),
                    len as int,
                ));
                assert(ec@ == example_cost_spec(
                    net_forward_spec(views[k as int].0, old(self).model()),
                    views[k as int].1,
                ));
                assert(acc@ == cost_prefix(old(self).model(), views, k as int + 1));
            }
            k = k + 1;
        }
        let total = acc.div_count(n);
        Ok(total)
    }

    /// Calls `flush` on every layer; rejected, with no layer changed, when
    /// any layer has no accumulated gradient.
    #[verifier::rlimit(100)]
    pub fn flush_weights(&mut self, rate: Fix) -> (res: Result<(), NnError>)
        requires
            old(self).wf(),
            rate.wf(),
        ensures
            res is Ok <==> (forall|i: int|
                0 <= i < old(self).spec_num_layers() ==> (#[trigger] old(self).l(i)).seen() > 0),
            res is Err ==> *final(self) == *old(self) && res == Err::<(), NnError>(
                NnError::EmptyGradient,
            ),
            res is Ok ==> ({
                &&& final(self).wf()
                &&& final(self).spec_num_layers() == old(self).spec_num_layers()
                &&& final(self).spec_in_size() == old(self).spec_in_size()
                &&& final(self).spec_out_size() == old(self).spec_out_size()
                &&& final(self).is_idle()
                &&& forall|i: int|
                    0 <= i < old(self).spec_num_layers() ==> (#[trigger] final(self).l(i)).outs()
                        == old(self).l(i).outs() && final(self).l(i).ds() == old(self).l(i).ds()
                        && final(self).l(i).g().len() == old(self).l(i).g().len()
                &&& forall|i: int|
                    0 <= i < old(self).spec_num_layers() ==> #[trigger] final(self).l(i).w()
                        == flush_grid(
                        old(self).l(i).w(),
                        old(self).l(i).g(),
                        rate@,
                        old(self).l(i).seen(),
                    )
            }),
    {
        let len = self.layers.len();
        let mut i: usize = 0;
        while i < len
            invariant
                self.wf(),
                len == self.spec_num_layers(),
                i <= len,
                *self == *old(self),
                forall|j: int| 0 <= j < i ==> (#[trigger] self.l(j)).seen() > 0,
            decreases len - i,
        {
            if self.layers[i].examples_seen() == 0 {
                proof {
                    assert(old(self).l(i as int).seen() == 0);
                }
                return Err(NnError::EmptyGradient);
            }
            i = i + 1;
        }
        let mut k: usize = 0;
        while k < len
            invariant
                self.wf(),
                rate.wf(),
                len == self.spec_num_layers(),
                k <= len,
                forall|j: int| 0 <= j < len ==> (#[trigger] old(self).l(j)).seen() > 0,
                forall|j: int|
                    0 <= j < len ==> (#[trigger] self.l(j)).outs() == old(self).l(j).outs()
                        && self.l(j).ds() == old(self).l(j).ds() && self.l(j).in_size() == old(
                        self,
                    ).l(j).in_size() && self.l(j).out_size() == old(self).l(j).out_size() && self.l(
                        j,
                    ).g().len() == old(self).l(j).g().len(),
                forall|j: int|
                    k <= j < len ==> (#[trigger] self.l(j)).w() == old(self).l(j).w() && self.l(
                        j,
                    ).g() == old(self).l(j).g() && self.l(j).seen() == old(self).l(j).seen(),
                forall|j: int|
                    0 <= j < k ==> (#[trigger] self.l(j)).seen() == 0 && self.l(j).w()
                        == flush_grid(
                        old(self).l(j).w(),
                        old(self).l(j).g(),
                        rate@,
                        old(self).l(j).seen(),
                    ),
                forall|j: int, r: int, c: int|
                    0 <= j < k && 0 <= r < self.l(j).g().len() && 0 <= c < self.l(j).out_size()
                        ==> #[trigger] self.l(j).g()[r][c] == 0,
            decreases len - k,
        {
            proof {
                self.l(k as int).lemma_wf_shapes();
            }
            let ghost net3 = *self;
            let s = self.layers.as_mut_slice();
            let (_, tail) = s.split_at_mut(k);
            proof {
                assert(tail@[0] == net3.l(k as int));
            }
            let cur_opt = tail.first_mut();
            let cur = cur_opt.unwrap();
            let res = cur.flush(rate);
            proof {
                assert(res is Ok);
                assert(self.layers@ =~= net3.layers@.update(k as int, self.layers@[k as int]));
                assert forall|j: int| 0 <= j < len && j != k as int implies self.l(j) == net3.l(
                    j,
                ) by {
                    assert(self.layers@[j] == net3.layers@[j]);
                }
                lemma_self_wf_after_update(*self, net3, k as int);
                net3.l(k as int).lemma_wf_shapes();
                self.l(k as int).lemma_wf_shapes();
                assert(net3.l(k as int).w() == old(self).l(k as int).w());
                assert(net3.l(k as int).g() == old(self).l(k as int).g());
                assert(net3.l(k as int).seen() == old(self).l(k as int).seen());
                assert(self.l(k as int).w() =~~= flush_grid(
                    old(self).l(k as int).w(),
                    old(self).l(k as int).g(),
                    rate@,
                    old(self).l(k as int).seen(),
                ));
                assert(self.l(k as int).outs() == old(self).l(k as int).outs());
                assert(self.l(k as int).ds() == old(self).l(k as int).ds());
                assert forall|j: int|
                    0 <= j < len implies (#[trigger] self.l(j)).outs() == old(self).l(j).outs()
                    && self.l(j).ds() == old(self).l(j).ds() && self.l(j).in_size() == old(
                    self,
                ).l(j).in_size() && self.l(j).out_size() == old(self).l(j).out_size() && self.l(
                    j,
                ).g().len() == old(self).l(j).g().len() by {
                    if j != k as int {
                        assert(self.l(j) == net3.l(j));
                    }
                }
                assert forall|j: int|
                    k as int + 1 <= j < len implies (#[trigger] self.l(j)).w() == old(self).l(
                    j,
                ).w() && self.l(j).g() == old(self).l(j).g() && self.l(j).seen() == old(self).l(
                    j,
                ).seen() by {
                    assert(self.l(j) == net3.l(j));
                }
                assert forall|j: int|
                    0 <= j < k as int + 1 implies (#[trigger] self.l(j)).seen() == 0 && self.l(
                    j,
                ).w() == flush_grid(
                    old(self).l(j).w(),
                    old(self).l(j).g(),
                    rate@,
                    old(self).l(j).seen(),
                ) by {
                    if j != k as int {
                        assert(self.l(j) == net3.l(j));
                    }
                }
                assert forall|j: int, r: int, c: int|
                    0 <= j < k as int + 1 && 0 <= r < self.l(j).g().len() && 0 <= c < self.l(
                    j,
                ).out_size() implies #[trigger] self.l(j).g()[r][c] == 0 by {
                    if j != k as int {
                        assert(self.l(j) == net3.l(j));
                    }
                }
            }
            let _ = res;
            k = k + 1;
        }
        Ok(())
    }
    /// One training step over a batch: every example is forwarded and
    /// backpropagated, then the accumulated, averaged gradient is flushed
    /// into the weights once.  Rejected, leaving the network untouched, on
    /// an empty dataset or an example of the wrong shape.
    #[verifier::rlimit(100)]
    pub fn train_step(&mut self, data: &Dataset, rate: Fix) -> (res: Result<(), NnError>)
        requires
            old(self).wf(),
            rate.wf(),
            dataset_wf(data@),
            old(self).seen_budget(data@.len() as int),
        ensures
            res is Ok <==> (data@.len() > 0 && dataset_shaped(
                data@,
                old(self).spec_in_size(),
                old(self).spec_out_size(),
            )),
            data@.len() == 0 ==> res == Err::<(), NnError>(NnError::EmptyDataset),
            data@.len() > 0 && !dataset_shaped(
                data@,
                old(self).spec_in_size(),
                old(self).spec_out_size(),
            ) ==> res == Err::<(), NnError>(NnError::ShapeMismatch),
            res is Err ==> *final(self) == *old(self),
            res is Ok ==> ({
                &&& final(self).wf()
                &&& final(self).is_idle()
                &&& final(self).spec_num_layers() == old(self).spec_num_layers()
                &&& final(self).spec_in_size() == old(self).spec_in_size()
                &&& final(self).spec_out_size() == old(self).spec_out_size()
                &&& forall|l: int|
                    0 <= l < old(self).spec_num_layers() ==> #[trigger] final(self).l(l).w()
                        == old(self).step_result(dataset_views(data@), rate@, l)
            }),
    {
        let n = data.len();
        if n == 0 {
            return Err(NnError::EmptyDataset);
        }
        let in_size = self.input_size();
        let out_size = self.output_size();
        let mut i: usize = 0;
        while i < n
            invariant
                self.wf(),
                *self == *old(self),
                n == data@.len(),
                in_size as int == self.spec_in_size(),
                out_size as int == self.spec_out_size(),
                i <= n,
                forall|j: int|
                    0 <= j < i ==> (#[trigger] data@[j]).0@.len() == in_size && data@[j].1@.len()
                        == out_size,
            decreases n - i,
        {
            if data[i].0.len() != in_size || data[i].1.len() != out_size {
                return Err(NnError::ShapeMismatch);
            }
            i = i + 1;
        }
        let len = self.layers.len();
        let ghost views = dataset_views(data@);
        let mut k: usize = 0;
        while k < n
            invariant
                self.wf(),
                old(self).wf(),
                dataset_wf(data@),
                dataset_shaped(data@, old(self).spec_in_size(), old(self).spec_out_size()),
                rate.wf(),
                views == dataset_views(data@),
                n == data@.len(),
                n >= 1,
                len == self.spec_num_layers(),
                len == old(self).spec_num_layers(),
                self.model() == old(self).model(),
                self.spec_in_size() == old(self).spec_in_size(),
                self.spec_out_size() == old(self).spec_out_size(),
                in_size as int == self.spec_in_size(),
                out_size as int == self.spec_out_size(),
                k <= n,
                old(self).seen_budget(n as int),
                forall|j: int|
                    0 <= j < len ==> (#[trigger] self.l(j)).seen() == old(self).l(j).seen()
                        + k && self.l(j).g().len() == old(self).l(j).g().len(),
                forall|j: int|
                    0 <= j < len ==> #[trigger] self.l(j).g() == batch_grads(
                        old(self).model(),
                        views,
                        old(self).grads(),
                        k as int,
                    )[j],
            decreases n - k,
        {
            self.forward_pass(&data[k].0);
            let ghost mid = *self;
            self.backward_pass(&data[k].0, &data[k].1);
            proof {
                let ws = old(self).model();
                let gs = old(self).grads();
                let prev_g = batch_grads(ws, views, gs, k as int);
                let next_g = batch_grads(ws, views, gs, k as int + 1);
                lemma_batch_grads_len(ws, views, gs, k as int);
                lemma_batch_grads_len(ws, views, gs, k as int + 1);
                assert(gs.len() == len as int);
                assert(views[k as int].0 == data@[k as int].0@);
                assert(views[k as int].1 == data@[k as int].1@);
                assert forall|l: int| 0 <= l < len implies #[trigger] self.l(l).g() == next_g[l] by {
                    mid.l(l).lemma_wf_shapes();
                    self.l(l).lemma_wf_shapes();
                    assert(mid.l(l).g() == prev_g[l]);
                    let dl = delta_at(data@[k as int].0@, data@[k as int].1@, ws, l);
                    let pv = forward_upto(data@[k as int].0@, ws, l);
                    assert(next_g[l] == accum_grid(prev_g[l], dl, pv));
                    assert forall|r: int, c: int|
                        0 <= r < prev_g[l].len() && 0 <= c < prev_g[l][r].len() implies self.l(
                        l,
                    ).g()[r][c] == accum_grid(prev_g[l], dl, pv)[r][c] by {
                        assert(prev_g[l][r].len() == mid.l(l).out_size());
                        assert(self.l(l).g()[r][c] == grad_cell_spec(
                            mid.l(l).g()[r][c],
                            dl[c],
                            with_bias(pv)[r],
                        ));
                    }
                    assert(self.l(l).g() =~~= accum_grid(prev_g[l], dl, pv));
                }
                assert forall|j: int|
                    0 <= j < len implies (#[trigger] self.l(j)).seen() == old(self).l(j).seen() + (
                k as int + 1) by {
                    assert(self.l(j).seen() == mid.l(j).seen() + 1);
                }
            }
            k = k + 1;
        }
        proof {
            assert forall|j: int| 0 <= j < len implies (#[trigger] self.l(j)).seen() > 0 by {
                assert(old(self).l(j).wf());
                old(self).l(j).lemma_wf_shapes();
            }
        }
        let res = self.flush_weights(rate);
        proof {
            assert(res is Ok);
            assert forall|l: int| 0 <= l < len implies #[trigger] self.l(l).w() == old(
                self,
            ).step_result(views, rate@, l) by {
                assert(old(self).model()[l] == old(self).l(l).w());
                assert(views.len() == n);
            }
        }
        let _ = res;
        Ok(())
    }

    /// The full training loop: `iterations` batch steps over the dataset,
    /// reporting the cost after each step's weight update.  Starts from a
    /// clean gradient state and ends in one.  Rejected, leaving the network
    /// untouched, on an empty dataset or an example of the wrong shape.
    #[verifier::rlimit(100)]
    pub fn train(&mut self, data: &Dataset, iterations: usize, rate: Fix) -> (res: Result<Vec<Fix>, NnError>)
        requires
            old(self).wf(),
            old(self).is_idle(),
            rate.wf(),
            dataset_wf(data@),
            data@.len() < usize::MAX,
        ensures
            res is Ok <==> (data@.len() > 0 && dataset_shaped(
                data@,
                old(self).spec_in_size(),
                old(self).spec_out_size(),
            )),
            data@.len() == 0 ==> res == Err::<Vec<Fix>, NnError>(NnError::EmptyDataset),
            data@.len() > 0 && !dataset_shaped(
                data@,
                old(self).spec_in_size(),
                old(self).spec_out_size(),
            ) ==> res == Err::<Vec<Fix>, NnError>(NnError::ShapeMismatch),
            res is Err ==> *final(self) == *old(self),
            res is Ok ==> ({
                let costs = res.unwrap();
                &&& final(self).wf()
                &&& final(self).is_idle()
                &&& final(self).spec_num_layers() == old(self).spec_num_layers()
                &&& final(self).spec_in_size() == old(self).spec_in_size()
                &&& final(self).spec_out_size() == old(self).spec_out_size()
                &&& final(self).model() == iterate_model(
                    old(self).model(),
                    dataset_views(data@),
                    rate@,
                    iterations as int,
                )
                &&& costs@.len() == iterations
                &&& forall|k: int|
                    0 <= k < iterations ==> (#[trigger] costs@[k])@ == cost_spec(
                        iterate_model(old(self).model(), dataset_views(data@), rate@, k + 1),
                        dataset_views(data@),
                    ) && costs@[k].wf()
            }),
    {
        let n = data.len();
        if n == 0 {
            return Err(NnError::EmptyDataset);
        }
        let in_size = self.input_size();
        let out_size = self.output_size();
        let mut i: usize = 0;
        while i < n
            invariant
                self.wf(),
                *self == *old(self),
                n == data@.len(),
                in_size as int == self.spec_in_size(),
                out_size as int == self.spec_out_size(),
                i <= n,
                forall|j: int|
                    0 <= j < i ==> (#[trigger] data@[j]).0@.len() == in_size && data@[j].1@.len()
                        == out_size,
            decreases n - i,
        {
            if data[i].0.len() != in_size || data[i].1.len() != out_size {
                return Err(NnError::ShapeMismatch);
            }
            i = i + 1;
        }
        let ghost views = dataset_views(data@);
        let len = self.layers.len();
        let mut costs: Vec<Fix> = Vec::new();
        let mut it: usize = 0;
        while it < iterations
            invariant
                self.wf(),
                self.is_idle(),
                old(self).wf(),
                rate.wf(),
                dataset_wf(data@),
                dataset_shaped(data@, old(self).spec_in_size(), old(self).spec_out_size()),
                views == dataset_views(data@),
                n == data@.len(),
                1 <= n < usize::MAX,
                len == self.spec_num_layers(),
                len == old(self).spec_num_layers(),
                self.spec_in_size() == old(self).spec_in_size(),
                self.spec_out_size() == old(self).spec_out_size(),
                it <= iterations,
                self.model() == iterate_model(old(self).model(), views, rate@, it as int),
                costs@.len() == it,
                forall|k: int|
                    0 <= k < it ==> (#[trigger] costs@[k])@ == cost_spec(
                        iterate_model(old(self).model(), views, rate@, k + 1),
                        views,
                    ) && costs@[k].wf(),
            decreases iterations - it,
        {
            let ghost prev = *self;
            let step_res = self.train_step(data, rate);
            proof {
                assert(step_res is Ok);
                lemma_iterate_model_len(old(self).model(), views, rate@, it as int);
                lemma_idle_grads_zero_like(prev);
                lemma_batch_grads_len(prev.model(), views, prev.grads(), n as int);
                assert forall|l: int| 0 <= l < len implies #[trigger] self.l(l).w()
                    == iterate_model(old(self).model(), views, rate@, it as int + 1)[l] by {
                    assert(self.l(l).w() == prev.step_result(views, rate@, l));
                    assert(prev.l(l).seen() == 0);
                    assert(prev.l(l).w() == prev.model()[l]);
                }
                assert(self.model() =~= iterate_model(
                    old(self).model(),
                    views,
                    rate@,
                    it as int + 1,
                ));
            }
            let _ = step_res;
            let ghost stepped = *self;
            let cost_res = self.cost(data);
            let c = match cost_res {
                Ok(v) => v,
                Err(_) => {
                    proof {
                        assert(false);
                    }
                    Fix::zero()
                },
            };
            proof {
                assert forall|j: int| 0 <= j < len implies (#[trigger] self.l(j)).seen() == 0
                    && self.l(j).g() == stepped.l(j).g() by {
                }
                assert forall|j: int, r: int, c2: int|
                    0 <= j < len && 0 <= r < self.l(j).g().len() && 0 <= c2 < self.l(
                    j,
                ).out_size() implies #[trigger] self.l(j).g()[r][c2] == 0 by {
                    assert(self.l(j).wf());
                    assert(stepped.l(j).wf());
                    self.l(j).lemma_wf_shapes();
                    stepped.l(j).lemma_wf_shapes();
                    assert(self.l(j).g()[r].len() == self.l(j).out_size());
                    assert(stepped.l(j).g()[r].len() == stepped.l(j).out_size());
                    assert(stepped.l(j).g()[r][c2] == 0);
                }
                assert(self.is_idle());
            }
            costs.push(c);
            it = it + 1;
        }
        Ok(costs)
    }

    /// The training loop under the numerical strategy: `iterations` steps,
    /// each estimating every weight's partial derivative by finite
    /// differences with `epsilon` and flushing the estimates at rate
    /// `rate`, reporting the cost after each update.  Rejected, leaving
    /// the network untouched, on an empty dataset or an example of the
    /// wrong shape.
    #[verifier::rlimit(100)]
    pub fn train_numerical(&mut self, data: &Dataset, iterations: usize, rate: Fix, epsilon: Fix) -> (res: Result<Vec<Fix>, NnError>)
        requires
            old(self).wf(),
            old(self).is_idle(),
            rate.wf(),
            epsilon.wf(),
            epsilon@ != 0,
            dataset_wf(data@),
        ensures
            res is Ok <==> (data@.len() > 0 && dataset_shaped(
                data@,
                old(self).spec_in_size(),
                old(self).spec_out_size(),
            )),
            data@.len() == 0 ==> res == Err::<Vec<Fix>, NnError>(NnError::EmptyDataset),
            data@.len() > 0 && !dataset_shaped(
                data@,
                old(self).spec_in_size(),
                old(self).spec_out_size(),
            ) ==> res == Err::<Vec<Fix>, NnError>(NnError::ShapeMismatch),
            res is Err ==> *final(self) == *old(self),
            res is Ok ==> ({
                let costs = res.unwrap();
                &&& final(self).wf()
                &&& final(self).is_idle()
                &&& final(self).spec_num_layers() == old(self).spec_num_layers()
                &&& final(self).spec_in_size() == old(self).spec_in_size()
                &&& final(self).spec_out_size() == old(self).spec_out_size()
                &&& final(self).model() == iterate_model_fd(
                    old(self).model(),
                    dataset_views(data@),
                    epsilon@,
                    rate@,
                    iterations as int,
                )
                &&& costs@.len() == iterations
                &&& forall|k: int|
                    0 <= k < iterations ==> (#[trigger] costs@[k])@ == cost_spec(
                        iterate_model_fd(
                            old(self).model(),
                            dataset_views(data@),
                            epsilon@,
                            rate@,
                            k + 1,
                        ),
                        dataset_views(data@),
                    ) && costs@[k].wf()
            }),
    {
        let n = data.len();
        if n == 0 {
            return Err(NnError::EmptyDataset);
        }
        let in_size = self.input_size();
        let out_size = self.output_size();
        let mut i: usize = 0;
        while i < n
            invariant
                self.wf(),
                *self == *old(self),
                n == data@.len(),
                in_size as int == self.spec_in_size(),
                out_size as int == self.spec_out_size(),
                i <= n,
                forall|j: int|
                    0 <= j < i ==> (#[trigger] data@[j]).0@.len() == in_size && data@[j].1@.len()
                        == out_size,
            decreases n - i,
        {
            if data[i].0.len() != in_size || data[i].1.len() != out_size {
                return Err(NnError::ShapeMismatch);
            }
            i = i + 1;
        }
        let ghost views = dataset_views(data@);
        let len = self.layers.len();
        let mut costs: Vec<Fix> = Vec::new();
        let mut it: usize = 0;
        while it < iterations
            invariant
                self.wf(),
                self.is_idle(),
                old(self).wf(),
                rate.wf(),
                epsilon.wf(),
                epsilon@ != 0,
                dataset_wf(data@),
                dataset_shaped(data@, old(self).spec_in_size(), old(self).spec_out_size()),
                views == dataset_views(data@),
                n == data@.len(),
                n >= 1,
                len == self.spec_num_layers(),
                len == old(self).spec_num_layers(),
                self.spec_in_size() == old(self).spec_in_size(),
                self.spec_out_size() == old(self).spec_out_size(),
                it <= iterations,
                self.model() == iterate_model_fd(old(self).model(), views, epsilon@, rate@, it as int),
                costs@.len() == it,
                forall|k: int|
                    0 <= k < it ==> (#[trigger] costs@[k])@ == cost_spec(
                        iterate_model_fd(old(self).model(), views, epsilon@, rate@, k + 1),
                        views,
                    ) && costs@[k].wf(),
            decreases iterations - it,
        {
            let ghost prev = *self;
            let fd_res = self.accumulate_gradient_finite_difference(data, epsilon);
            proof {
                assert(fd_res is Ok);
            }
            let _ = fd_res;
            let ghost estimated = *self;
            let flush_res = self.flush_weights(rate);
            proof {
                assert forall|j: int| 0 <= j < len implies (#[trigger] estimated.l(j)).seen() > 0 by {
                }
                assert(flush_res is Ok);
                lemma_iterate_model_fd_len(old(self).model(), views, epsilon@, rate@, it as int);
                assert forall|l: int| 0 <= l < len implies #[trigger] self.l(l).w()
                    == iterate_model_fd(old(self).model(), views, epsilon@, rate@, it as int + 1)[l] by {
                    assert(prev.l(l).wf());
                    prev.l(l).lemma_wf_shapes();
                    estimated.l(l).lemma_wf_shapes();
                    assert(estimated.l(l).g() =~~= fd_grid(prev.model(), views, epsilon@, l)) by {
                        assert(prev.model()[l] == prev.l(l).w());
                        assert(estimated.l(l).g().len() == prev.l(l).g().len());
                        assert forall|r: int, c: int|
                            0 <= r < prev.l(l).g().len() && 0 <= c < prev.l(l).out_size() implies
                            #[trigger] estimated.l(l).g()[r][c] == fd_grad_spec(
                            prev.model(),
                            views,
                            epsilon@,
                            l,
                            r,
                            c,
                        ) by {
                        }
                    }
                    assert(estimated.l(l).w() == prev.l(l).w());
                    assert(self.l(l).w() == flush_grid(
                        estimated.l(l).w(),
                        estimated.l(l).g(),
                        rate@,
                        1,
                    ));
                    assert(self.l(l).w() =~~= flush_grid(
                        prev.model()[l],
                        fd_grid(prev.model(), views, epsilon@, l),
                        rate@,
                        1,
                    ));
                }
                assert(self.model() =~= iterate_model_fd(
                    old(self).model(),
                    views,
                    epsilon@,
                    rate@,
                    it as int + 1,
                ));
            }
            let _ = flush_res;
            let ghost stepped = *self;
            let cost_res = self.cost(data);
            let c = match cost_res {
                Ok(v) => v,
                Err(_) => {
                    proof {
                        assert(false);
                    }
                    Fix::zero()
                },
            };
            proof {
                assert forall|j: int| 0 <= j < len implies (#[trigger] self.l(j)).seen() == 0
                    && self.l(j).g() == stepped.l(j).g() by {
                }
                assert forall|j: int, r: int, c2: int|
                    0 <= j < len && 0 <= r < self.l(j).g().len() && 0 <= c2 < self.l(
                    j,
                ).out_size() implies #[trigger] self.l(j).g()[r][c2] == 0 by {
                    assert(self.l(j).wf());
                    assert(stepped.l(j).wf());
                    self.l(j).lemma_wf_shapes();
                    stepped.l(j).lemma_wf_shapes();
                    assert(self.l(j).g()[r].len() == self.l(j).out_size());
                    assert(stepped.l(j).g()[r].len() == stepped.l(j).out_size());
                    assert(stepped.l(j).g()[r][c2] == 0);
                }
                assert(self.is_idle());
            }
            costs.push(c);
            it = it + 1;
        }
        Ok(costs)
    }

    /// Forwards the input and returns a copy of every layer's activations,
    /// first layer first; the last entry is the network's output.
    pub fn get_activations(&mut self, input: &ColumnVec) -> (acts: Vec<ColumnVec>)
        requires
            old(self).wf(),
            input.wf(),
            input@.len() == old(self).spec_in_size(),
        ensures
            final(self).wf(),
            final(self).spec_num_layers() == old(self).spec_num_layers(),
            final(self).model() == old(self).model(),
            final(self).spec_in_size() == old(self).spec_in_size(),
            final(self).spec_out_size() == old(self).spec_out_size(),
            final(self).forwarded(input@),
            forall|i: int|
                0 <= i < old(self).spec_num_layers() ==> (#[trigger] final(self).l(i)).g() == old(
                    self,
                ).l(i).g() && final(self).l(i).seen() == old(self).l(i).seen() && final(self).l(
                    i,
                ).ds() == old(self).l(i).ds(),
            acts@.len() == old(self).spec_num_layers(),
            forall|i: int|
                0 <= i < old(self).spec_num_layers() ==> (#[trigger] acts@[i])@ == forward_upto(
                    input@,
                    old(self).model(),
                    i + 1,
                ),
    {
        self.forward_pass(input);
        let len = self.layers.len();
        let mut acts: Vec<ColumnVec> = Vec::new();
        let mut i: usize = 0;
        while i < len
            invariant
                self.wf(),
                len == self.spec_num_layers(),
                self.forwarded(input@),
                self.model() == old(self).model(),
                i <= len,
                acts@.len() == i,
                forall|j: int|
                    0 <= j < i ==> (#[trigger] acts@[j])@ == forward_upto(
                        input@,
                        self.model(),
                        j + 1,
                    ),
            decreases len - i,
        {
            proof {
                assert(self.l(i as int).wf());
            }
            let copy = self.layers[i].outputs().duplicate();
            acts.push(copy);
            i = i + 1;
        }
        acts
    }

    /// One weight value.
    pub fn get_weight(&self, l: usize, r: usize, c: usize) -> (v: Fix)
        requires
            self.wf(),
            l < self.spec_num_layers(),
            r < self.l(l as int).in_size() + 1,
            c < self.l(l as int).out_size(),
        ensures
            v@ == self.l(l as int).w()[r as int][c as int],
            v.wf(),
    {
        proof {
            assert(self.l(l as int).wf());
        }
        self.layers[l].weights().get_cell(r, c)
    }

    /// Overwrites one weight value; nothing else changes.
    pub fn set_weight(&mut self, l: usize, r: usize, c: usize, v: Fix)
        requires
            old(self).wf(),
            l < old(self).spec_num_layers(),
            r < old(self).l(l as int).in_size() + 1,
            c < old(self).l(l as int).out_size(),
            v.wf(),
        ensures
            final(self).wf(),
            final(self).spec_num_layers() == old(self).spec_num_layers(),
            final(self).spec_in_size() == old(self).spec_in_size(),
            final(self).spec_out_size() == old(self).spec_out_size(),
            final(self).model() == old(self).model().update(
                l as int,
                old(self).l(l as int).w().update(
                    r as int,
                    old(self).l(l as int).w()[r as int].update(c as int, v@),
                ),
            ),
            forall|j: int|
                0 <= j < old(self).spec_num_layers() ==> (#[trigger] final(self).l(j)).g() == old(
                    self,
                ).l(j).g() && final(self).l(j).seen() == old(self).l(j).seen() && final(self).l(
                    j,
                ).ds() == old(self).l(j).ds() && final(self).l(j).outs() == old(self).l(j).outs()
                    && final(self).l(j).in_size() == old(self).l(j).in_size() && final(self).l(
                    j,
                ).out_size() == old(self).l(j).out_size(),
    {
        let ghost net4 = *self;
        let len = self.layers.len();
        let s = self.layers.as_mut_slice();
        let (_, tail) = s.split_at_mut(l);
        proof {
            assert(tail@[0] == net4.l(l as int));
        }
        let cur_opt = tail.first_mut();
        let cur = cur_opt.unwrap();
        cur.set_weight(r, c, v);
        proof {
            assert(self.layers@ =~= net4.layers@.update(l as int, self.layers@[l as int]));
            assert forall|j: int| 0 <= j < len && j != l as int implies self.l(j) == net4.l(j) by {
                assert(self.layers@[j] == net4.layers@[j]);
            }
            lemma_self_wf_after_update(*self, net4, l as int);
            assert(self.model() =~= old(self).model().update(
                l as int,
                old(self).l(l as int).w().update(
                    r as int,
                    old(self).l(l as int).w()[r as int].update(c as int, v@),
                ),
            ));
        }
    }

    /// Hands layer `l` an externally computed gradient estimate as a batch
    /// of one example.
    fn install_layer_gradient(&mut self, l: usize, estimate: Matrix)
        requires
            old(self).wf(),
            l < old(self).spec_num_layers(),
            estimate.wf(),
            estimate.spec_rows() == old(self).l(l as int).in_size() + 1,
            estimate.spec_columns() == old(self).l(l as int).out_size(),
        ensures
            final(self).wf(),
            final(self).spec_num_layers() == old(self).spec_num_layers(),
            final(self).spec_in_size() == old(self).spec_in_size(),
            final(self).spec_out_size() == old(self).spec_out_size(),
            final(self).model() == old(self).model(),
            final(self).l(l as int).g() == estimate@,
            final(self).l(l as int).seen() == 1,
            forall|j: int|
                0 <= j < old(self).spec_num_layers() ==> (#[trigger] final(self).l(j)).ds() == old(
                    self,
                ).l(j).ds() && final(self).l(j).outs() == old(self).l(j).outs() && final(self).l(
                    j,
                ).in_size() == old(self).l(j).in_size() && final(self).l(j).out_size() == old(
                    self,
                ).l(j).out_size(),
            forall|j: int|
                0 <= j < old(self).spec_num_layers() && j != l ==> (#[trigger] final(self).l(
                    j,
                )).g() == old(self).l(j).g() && final(self).l(j).seen() == old(self).l(j).seen(),
    {
        let ghost net5 = *self;
        let len = self.layers.len();
        let s = self.layers.as_mut_slice();
        let (_, tail) = s.split_at_mut(l);
        proof {
            assert(tail@[0] == net5.l(l as int));
        }
        let cur_opt = tail.first_mut();
        let cur = cur_opt.unwrap();
        cur.install_gradient(estimate);
        proof {
            assert(self.layers@ =~= net5.layers@.update(l as int, self.layers@[l as int]));
            assert forall|j: int| 0 <= j < len && j != l as int implies self.l(j) == net5.l(j) by {
                assert(self.layers@[j] == net5.layers@[j]);
            }
            lemma_self_wf_after_update(*self, net5, l as int);
            assert(self.model() =~~= old(self).model());
        }
    }

    /// The numerical gradient strategy: for every weight, nudge it by
    /// `epsilon`, recompute the dataset cost, estimate the partial
    /// derivative against the baseline cost, restore the weight, and
    /// install the per-layer estimates as an accumulated batch of one
    /// example, ready for `flush_weights`.  Returns the baseline cost.
    /// Rejected, leaving the network untouched, on an empty dataset or an
    /// example of the wrong shape.
    #[verifier::rlimit(100)]
    pub fn accumulate_gradient_finite_difference(&mut self, data: &Dataset, epsilon: Fix) -> (res: Result<Fix, NnError>)
        requires
            old(self).wf(),
            dataset_wf(data@),
            epsilon.wf(),
            epsilon@ != 0,
        ensures
            res is Ok <==> (data@.len() > 0 && dataset_shaped(
                data@,
                old(self).spec_in_size(),
                old(self).spec_out_size(),
            )),
            data@.len() == 0 ==> res == Err::<Fix, NnError>(NnError::EmptyDataset),
            data@.len() > 0 && !dataset_shaped(
                data@,
                old(self).spec_in_size(),
                old(self).spec_out_size(),
            ) ==> res == Err::<Fix, NnError>(NnError::ShapeMismatch),
            res is Err ==> *final(self) == *old(self),
            res is Ok ==> ({
                &&& final(self).wf()
                &&& final(self).spec_num_layers() == old(self).spec_num_layers()
                &&& final(self).spec_in_size() == old(self).spec_in_size()
                &&& final(self).spec_out_size() == old(self).spec_out_size()
                &&& final(self).model() == old(self).model()
                &&& res.unwrap().wf()
                &&& res.unwrap()@ == cost_spec(old(self).model(), dataset_views(data@))
                &&& forall|j: int|
                    0 <= j < old(self).spec_num_layers() ==> (#[trigger] final(self).l(j)).seen()
                        == 1 && final(self).l(j).ds() == old(self).l(j).ds() && final(self).l(
                        j,
                    ).g().len() == old(self).l(j).g().len()
                &&& forall|j: int, r: int, c: int|
                    0 <= j < old(self).spec_num_layers() && 0 <= r < old(self).l(j).g().len() && 0
                        <= c < old(self).l(j).out_size() ==> #[trigger] final(self).l(j).g()[r][c]
                        == fd_grad_spec(
                        old(self).model(),
                        dataset_views(data@),
                        epsilon@,
                        j,
                        r,
                        c,
                    )
            }),
    {
        let n = data.len();
        if n == 0 {
            return Err(NnError::EmptyDataset);
        }
        let in_size = self.input_size();
        let out_size = self.output_size();
        let mut i: usize = 0;
        while i < n
            invariant
                self.wf(),
                *self == *old(self),
                n == data@.len(),
                in_size as int == self.spec_in_size(),
                out_size as int == self.spec_out_size(),
                i <= n,
                forall|j: int|
                    0 <= j < i ==> (#[trigger] data@[j]).0@.len() == in_size && data@[j].1@.len()
                        == out_size,
            decreases n - i,
        {
            if data[i].0.len() != in_size || data[i].1.len() != out_size {
                return Err(NnError::ShapeMismatch);
            }
            i = i + 1;
        }
        let ghost views = dataset_views(data@);
        let len = self.layers.len();
        let base_res = self.cost(data);
        let base = match base_res {
            Ok(v) => v,
            Err(_) => {
                proof {
                    assert(false);
                }
                Fix::zero()
            },
        };
        let mut l: usize = 0;
        while l < len
            invariant
                self.wf(),
                old(self).wf(),
                dataset_wf(data@),
                dataset_shaped(data@, old(self).spec_in_size(), old(self).spec_out_size()),
                views == dataset_views(data@),
                n == data@.len(),
                n >= 1,
                epsilon.wf(),
                epsilon@ != 0,
                base.wf(),
                base@ == cost_spec(old(self).model(), views),
                len == self.spec_num_layers(),
                len == old(self).spec_num_layers(),
                self.model() == old(self).model(),
                self.spec_in_size() == old(self).spec_in_size(),
                self.spec_out_size() == old(self).spec_out_size(),
                l <= len,
                forall|j: int|
                    0 <= j < len ==> (#[trigger] self.l(j)).ds() == old(self).l(j).ds() && self.l(
                        j,
                    ).g().len() == old(self).l(j).g().len() && self.l(j).in_size() == old(self).l(
                        j,
                    ).in_size() && self.l(j).out_size() == old(self).l(j).out_size(),
                forall|j: int| 0 <= j < l ==> (#[trigger] self.l(j)).seen() == 1,
                forall|j: int|
                    l <= j < len ==> (#[trigger] self.l(j)).g() == old(self).l(j).g() && self.l(
                        j,
                    ).seen() == old(self).l(j).seen(),
                forall|j: int, r: int, c: int|
                    0 <= j < l && 0 <= r < old(self).l(j).g().len() && 0 <= c < old(self).l(
                        j,
                    ).out_size() ==> #[trigger] self.l(j).g()[r][c] == fd_grad_spec(
                        old(self).model(),
                        views,
                        epsilon@,
                        j,
                        r,
                        c,
                    ),
            decreases len - l,
        {
            proof {
                assert(self.l(l as int).wf());
                self.l(l as int).lemma_wf_shapes();
            }
            let total = self.layers[l].weights().cell_count();
            let rows = self.layers[l].weights().num_rows();
            let cols = self.layers[l].weights().num_columns();
            let mut est = Matrix::filled(rows, cols, Fix::zero());
            let mut r: usize = 0;
            while r < rows
                invariant
                    self.wf(),
                    old(self).wf(),
                    dataset_wf(data@),
                    dataset_shaped(data@, old(self).spec_in_size(), old(self).spec_out_size()),
                    views == dataset_views(data@),
                    n == data@.len(),
                    n >= 1,
                    epsilon.wf(),
                    epsilon@ != 0,
                    base.wf(),
                    base@ == cost_spec(old(self).model(), views),
                    len == self.spec_num_layers(),
                    len == old(self).spec_num_layers(),
                    self.model() == old(self).model(),
                    self.spec_in_size() == old(self).spec_in_size(),
                    self.spec_out_size() == old(self).spec_out_size(),
                    l < len,
                    rows == self.l(l as int).in_size() + 1,
                    cols == self.l(l as int).out_size(),
                    est.spec_rows() == rows,
                    est.spec_columns() == cols,
                    est.wf(),
                    r <= rows,
                    forall|j: int|
                        0 <= j < len ==> (#[trigger] self.l(j)).ds() == old(self).l(j).ds()
                            && self.l(j).g().len() == old(self).l(j).g().len() && self.l(
                            j,
                        ).in_size() == old(self).l(j).in_size() && self.l(j).out_size() == old(
                            self,
                        ).l(j).out_size(),
                    forall|j: int| 0 <= j < l ==> (#[trigger] self.l(j)).seen() == 1,
                    forall|j: int|
                        l <= j < len ==> (#[trigger] self.l(j)).g() == old(self).l(j).g()
                            && self.l(j).seen() == old(self).l(j).seen(),
                    forall|j: int, r2: int, c2: int|
                        0 <= j < l && 0 <= r2 < old(self).l(j).g().len() && 0 <= c2 < old(self).l(
                            j,
                        ).out_size() ==> #[trigger] self.l(j).g()[r2][c2] == fd_grad_spec(
                            old(self).model(),
                            views,
                            epsilon@,
                            j,
                            r2,
                            c2,
                        ),
                    forall|r2: int, c2: int|
                        0 <= r2 < r && 0 <= c2 < cols ==> est@[r2][c2] == fd_grad_spec(
                            old(self).model(),
                            views,
                            epsilon@,
                            l as int,
                            r2,
                            c2,
                        ),
                decreases rows - r,
            {
                let mut c: usize = 0;
                while c < cols
                    invariant
                        self.wf(),
                        old(self).wf(),
                        dataset_wf(data@),
                        dataset_shaped(data@, old(self).spec_in_size(), old(self).spec_out_size()),
                        views == dataset_views(data@),
                        n == data@.len(),
                        n >= 1,
                        epsilon.wf(),
                        epsilon@ != 0,
                        base.wf(),
                        base@ == cost_spec(old(self).model(), views),
                        len == self.spec_num_layers(),
                        len == old(self).spec_num_layers(),
                        self.model() == old(self).model(),
                        self.spec_in_size() == old(self).spec_in_size(),
                        self.spec_out_size() == old(self).spec_out_size(),
                        l < len,
                        r < rows,
                        rows == self.l(l as int).in_size() + 1,
                        cols == self.l(l as int).out_size(),
                        est.spec_rows() == rows,
                        est.spec_columns() == cols,
                        est.wf(),
                        c <= cols,
                        forall|j: int|
                            0 <= j < len ==> (#[trigger] self.l(j)).ds() == old(self).l(j).ds()
                                && self.l(j).g().len() == old(self).l(j).g().len() && self.l(
                                j,
                            ).in_size() == old(self).l(j).in_size() && self.l(j).out_size() == old(
                                self,
                            ).l(j).out_size(),
                        forall|j: int| 0 <= j < l ==> (#[trigger] self.l(j)).seen() == 1,
                        forall|j: int|
                            l <= j < len ==> (#[trigger] self.l(j)).g() == old(self).l(j).g()
                                && self.l(j).seen() == old(self).l(j).seen(),
                        forall|j: int, r2: int, c2: int|
                            0 <= j < l && 0 <= r2 < old(self).l(j).g().len() && 0 <= c2 < old(
                                self,
                            ).l(j).out_size() ==> #[trigger] self.l(j).g()[r2][c2] == fd_grad_spec(
                                old(self).model(),
                                views,
                                epsilon@,
                                j,
                                r2,
                                c2,
                            ),
                        forall|r2: int, c2: int|
                            0 <= r2 < r && 0 <= c2 < cols ==> est@[r2][c2] == fd_grad_spec(
                                old(self).model(),
                                views,
                                epsilon@,
                                l as int,
                                r2,
                                c2,
                            ),
                        forall|c2: int|
                            0 <= c2 < c ==> est@[r as int][c2] == fd_grad_spec(
                                old(self).model(),
                                views,
                                epsilon@,
                                l as int,
                                r as int,
                                c2,
                            ),
                    decreases cols - c,
                {
                    proof {
                        assert(self.l(l as int).wf());
                        self.l(l as int).lemma_wf_shapes();
                    }
                    let w0 = self.get_weight(l, r, c);
                    let ghost ws = old(self).model();
                    self.set_weight(l, r, c, w0.add(epsilon));
                    proof {
                        assert(self.model() == perturbed_model(ws, l as int, r as int, c as int, epsilon@));
                    }
                    let cp_res = self.cost(data);
                    let cp = match cp_res {
                        Ok(v) => v,
                        Err(_) => {
                            proof {
                                assert(false);
                            }
                            Fix::zero()
                        },
                    };
                    self.set_weight(l, r, c, w0);
                    proof {
                        assert(old(self).l(l as int).wf());
                        old(self).l(l as int).lemma_wf_shapes();
                        assert(ws[l as int] == old(self).l(l as int).w());
                        lemma_perturb_restore(ws, l as int, r as int, c as int, epsilon@);
                        assert(self.model() == ws);
                    }
                    let delta_est = cp.sub(base).div(epsilon);
                    est.set_cell(r, c, delta_est);
                    c = c + 1;
                }
                r = r + 1;
            }
            self.install_layer_gradient(l, est);
            l = l + 1;
        }
        let final_res = self.cost(data);
        let final_cost = match final_res {
            Ok(v) => v,
            Err(_) => {
                proof {
                    assert(false);
                }
                Fix::zero()
            },
        };
        Ok(final_cost)
    }
}

/// The views of a dataset's input and expected-output vectors.
pub open spec fn dataset_views(data: Seq<(ColumnVec, ColumnVec)>) -> Seq<(Seq<int>, Seq<int>)> {
    Seq::new(data.len(), |i: int| (data[i].0@, data[i].1@))
}

/// Every example's vectors are valid fixed-point vectors.
pub open spec fn dataset_wf(data: Seq<(ColumnVec, ColumnVec)>) -> bool {
    forall|i: int|
        0 <= i < data.len() ==> (#[trigger] data[i]).0.wf() && data[i].1.wf()
}

/// Every example's vectors match the network's input and output widths.
pub open spec fn dataset_shaped(data: Seq<(ColumnVec, ColumnVec)>, in_size: int, out_size: int) -> bool {
    forall|i: int|
        0 <= i < data.len() ==> (#[trigger] data[i]).0@.len() == in_size && data[i].1@.len()
            == out_size
}

/// The running sum of squared errors over the first `k` output entries.
pub open spec fn err_prefix(out: Seq<int>, exp: Seq<int>, k: int) -> int
    decreases k,
{
    if k <= 0 {
        0
    } else {
        fx_add_spec(
            err_prefix(out, exp, k - 1),
            fx_mul_spec(fx_sub_spec(out[k - 1], exp[k - 1]), fx_sub_spec(out[k - 1], exp[k - 1])),
        )
    }
}

/// One example's cost: the mean of the squared errors of its outputs.
pub open spec fn example_cost_spec(out: Seq<int>, exp: Seq<int>) -> int {
    fx_div_count_spec(err_prefix(out, exp, exp.len() as int), exp.len() as int)
}

/// The running sum of example costs over the first `k` examples, each
/// evaluated on the network's forward output for that example.
pub open spec fn cost_prefix(ws: Seq<Seq<Seq<int>>>, data: Seq<(Seq<int>, Seq<int>)>, k: int) -> int
    decreases k,
{
    if k <= 0 {
        0
    } else {
        fx_add_spec(
            cost_prefix(ws, data, k - 1),
            example_cost_spec(net_forward_spec(data[k - 1].0, ws), data[k - 1].1),
        )
    }
}

/// The dataset's cost: the mean over all examples of the per-example mean
/// squared error.
pub open spec fn cost_spec(ws: Seq<Seq<Seq<int>>>, data: Seq<(Seq<int>, Seq<int>)>) -> int {
    fx_div_count_spec(cost_prefix(ws, data, data.len() as int), data.len() as int)
}

/// The per-layer gradient accumulators after the first `k` examples of a
/// batch have each been forwarded and backpropagated, starting from the
/// accumulators `gs`.
pub open spec fn batch_grads(
    ws: Seq<Seq<Seq<int>>>,
    data: Seq<(Seq<int>, Seq<int>)>,
    gs: Seq<Seq<Seq<int>>>,
    k: int,
) -> Seq<Seq<Seq<int>>>
    decreases k,
{
    if k <= 0 {
        gs
    } else {
        let prev = batch_grads(ws, data, gs, k - 1);
        Seq::new(
            prev.len(),
            |l: int|
                accum_grid(
                    prev[l],
                    delta_at(data[k - 1].0, data[k - 1].1, ws, l),
                    forward_upto(data[k - 1].0, ws, l),
                ),
        )
    }


}

/// Gradient accumulators of the same shapes as the given weight grids,
/// all zero.
pub open spec fn zero_like(ws: Seq<Seq<Seq<int>>>) -> Seq<Seq<Seq<int>>> {
    Seq::new(ws.len(), |l: int| Seq::new(ws[l].len(), |r: int| Seq::new(ws[l][r].len(), |c: int| 0)))
}

/// The model after `k` full training steps at rate `rate`, each one batch
/// over the whole dataset from a clean gradient state.
pub open spec fn iterate_model(
    ws: Seq<Seq<Seq<int>>>,
    data: Seq<(Seq<int>, Seq<int>)>,
    rate: int,
    k: int,
) -> Seq<Seq<Seq<int>>>
    decreases k,
{
    if k <= 0 {
        ws
    } else {
        let prev = iterate_model(ws, data, rate, k - 1);
        Seq::new(
            prev.len(),
            |l: int|
                flush_grid(
                    prev[l],
                    batch_grads(prev, data, zero_like(prev), data.len() as int)[l],
                    rate,
                    data.len() as int,
                ),
        )
    }
}

/// Iterating training steps never changes how many layers there are.
proof fn lemma_iterate_model_len(
    ws: Seq<Seq<Seq<int>>>,
    data: Seq<(Seq<int>, Seq<int>)>,
    rate: int,
    k: int,
)
    ensures
        iterate_model(ws, data, rate, k).len() == ws.len(),
    decreases k,
{
    if k > 0 {
        lemma_iterate_model_len(ws, data, rate, k - 1);
    }
}

/// The full finite-difference gradient grid of layer `l` under weights
/// `ws`.
pub open spec fn fd_grid(
    ws: Seq<Seq<Seq<int>>>,
    data: Seq<(Seq<int>, Seq<int>)>,
    eps: int,
    l: int,
) -> Seq<Seq<int>> {
    Seq::new(
        ws[l].len(),
        |r: int| Seq::new(ws[l][r].len(), |c: int| fd_grad_spec(ws, data, eps, l, r, c)),
    )
}

/// The model after `k` finite-difference steps at rate `rate`: each step
/// estimates every partial derivative under the current weights and
/// flushes the estimates as a batch of one.
pub open spec fn iterate_model_fd(
    ws: Seq<Seq<Seq<int>>>,
    data: Seq<(Seq<int>, Seq<int>)>,
    eps: int,
    rate: int,
    k: int,
) -> Seq<Seq<Seq<int>>>
    decreases k,
{
    if k <= 0 {
        ws
    } else {
        let prev = iterate_model_fd(ws, data, eps, rate, k - 1);
        Seq::new(prev.len(), |l: int| flush_grid(prev[l], fd_grid(prev, data, eps, l), rate, 1))
    }
}

/// Iterating finite-difference steps never changes how many layers there
/// are.
proof fn lemma_iterate_model_fd_len(
    ws: Seq<Seq<Seq<int>>>,
    data: Seq<(Seq<int>, Seq<int>)>,
    eps: int,
    rate: int,
    k: int,
)
    ensures
        iterate_model_fd(ws, data, eps, rate, k).len() == ws.len(),
    decreases k,
{
    if k > 0 {
        lemma_iterate_model_fd_len(ws, data, eps, rate, k - 1);
    }
}

/// An idle network's accumulators are exactly the zero grids shaped like
/// its weights.
proof fn lemma_idle_grads_zero_like(n: NeuronNetwork)
    requires
        n.wf(),
        n.is_idle(),
    ensures
        n.grads() == zero_like(n.model()),
{
    assert forall|l: int| 0 <= l < n.spec_num_layers() implies #[trigger] n.grads()[l] =~~= zero_like(
        n.model(),
    )[l] by {
        assert(n.l(l).wf());
        n.l(l).lemma_wf_shapes();
        assert(n.grads()[l] == n.l(l).g());
        assert(zero_like(n.model())[l].len() == n.l(l).w().len());
        assert forall|r: int, c: int|
            0 <= r < n.l(l).g().len() && 0 <= c < n.l(l).g()[r].len() implies #[trigger] n.l(
            l,
        ).g()[r][c] == 0 by {
            assert(n.l(l).g()[r].len() == n.l(l).out_size());
        }
    }
    assert(n.grads() =~~= zero_like(n.model()));
}

/// The model with one weight nudged by `eps`.
pub open spec fn perturbed_model(ws: Seq<Seq<Seq<int>>>, l: int, r: int, c: int, eps: int) -> Seq<
    Seq<Seq<int>>,
> {
    ws.update(l, ws[l].update(r, ws[l][r].update(c, fx_add_spec(ws[l][r][c], eps))))
}

/// The finite-difference estimate of one weight's partial derivative: the
/// cost change under a nudge of `eps`, divided by `eps`.
pub open spec fn fd_grad_spec(
    ws: Seq<Seq<Seq<int>>>,
    data: Seq<(Seq<int>, Seq<int>)>,
    eps: int,
    l: int,
    r: int,
    c: int,
) -> int {
    fx_div_spec(
        fx_sub_spec(cost_spec(perturbed_model(ws, l, r, c, eps), data), cost_spec(ws, data)),
        eps,
    )
}

/// Writing a nudged weight's original value back restores the model.
proof fn lemma_perturb_restore(ws: Seq<Seq<Seq<int>>>, l: int, r: int, c: int, eps: int)
    requires
        0 <= l < ws.len(),
        0 <= r < ws[l].len(),
        0 <= c < ws[l][r].len(),
    ensures
        ({
            let p = perturbed_model(ws, l, r, c, eps);
            p.update(l, p[l].update(r, p[l][r].update(c, ws[l][r][c]))) == ws
        }),
{
    let p = perturbed_model(ws, l, r, c, eps);
    assert(p[l][r].update(c, ws[l][r][c]) =~= ws[l][r]);
    assert(p[l].update(r, p[l][r].update(c, ws[l][r][c])) =~= ws[l]);
    assert(p.update(l, p[l].update(r, p[l][r].update(c, ws[l][r][c]))) =~= ws);
}

/// Accumulating a batch never changes how many per-layer accumulators
/// there are.
proof fn lemma_batch_grads_len(
    ws: Seq<Seq<Seq<int>>>,
    data: Seq<(Seq<int>, Seq<int>)>,
    gs: Seq<Seq<Seq<int>>>,
    k: int,
)
    ensures
        batch_grads(ws, data, gs, k).len() == gs.len(),
    decreases k,
{
    if k > 0 {
        lemma_batch_grads_len(ws, data, gs, k - 1);
    }
}

/// After one layer of a valid network is replaced by a layer of the same
/// shape that is itself valid, the network is still valid.
proof fn lemma_self_wf_after_update(cur: NeuronNetwork, prev: NeuronNetwork, i: int)
    requires
        prev.wf(),
        0 <= i < prev.spec_num_layers(),
        cur.spec_num_layers() == prev.spec_num_layers(),
        forall|j: int|
            0 <= j < prev.spec_num_layers() && j != i ==> #[trigger] cur.l(j) == prev.l(j),
        cur.l(i).wf(),
        cur.l(i).in_size() == prev.l(i).in_size(),
        cur.l(i).out_size() == prev.l(i).out_size(),
    ensures
        cur.wf(),
{
    assert forall|j: int| 0 <= j < cur.spec_num_layers() implies (#[trigger] cur.l(j)).wf() by {
        if j != i {
            assert(cur.l(j) == prev.l(j));
        }
    }
    assert forall|j: int|
        1 <= j < cur.spec_num_layers() implies (#[trigger] cur.l(j)).in_size() == cur.l(
        j - 1,
    ).out_size() by {
        assert(prev.l(j).in_size() == prev.l(j - 1).out_size());
        if j != i {
            assert(cur.l(j) == prev.l(j));
        }
        if j - 1 != i {
            assert(cur.l(j - 1) == prev.l(j - 1));
        }
    }
}

} // verus!
