//! A fully-connected sigmoid layer.
//!
//! A layer owns one weight matrix of shape `(input_size + 1) × output_size`;
//! the extra row holds the bias weights, which the forward and backward
//! passes treat as the weights of a constant-one input.  Beside the weights
//! the layer keeps the scratch state of one training step: the last
//! activations produced, the last error signal (delta), and a gradient
//! accumulator together with the count of examples accumulated into it.

use crate::fixed::{fx_add_spec, fx_div_count_spec, fx_mul_spec, fx_sub_spec, Fix, FX_SCALE};
use crate::fns::{dsigmoid, dsigmoid_spec, sigmoid, sigmoid_spec};
use crate::matrix::{dot_prefix, dot_spec, grid_in_range, seq_in_range, ColumnVec, Matrix};
use crate::{NnError, ParamInit};
use vstd::prelude::*;

verus! {

broadcast use crate::matrix::lemma_matrix_view_shape;

/// A vector extended by the constant-one bias input.
pub open spec fn with_bias(v: Seq<int>) -> Seq<int> {
    v.push(FX_SCALE as int)
}

/// The weighted input of neuron `c`: the dot product of the input with
/// column `c` of the weights, plus the bias weight in the last row.
pub open spec fn pre_activation_spec(input: Seq<int>, w: Seq<Seq<int>>, c: int) -> int {
    fx_add_spec(dot_spec(input, w, c), w[input.len() as int][c])
}

/// Extending a vector leaves the weighted sums of its old entries alone.
proof fn lemma_dot_prefix_push(v: Seq<int>, x: int, w: Seq<Seq<int>>, c: int, k: int)
    requires
        0 <= k <= v.len(),
    ensures
        dot_prefix(v.push(x), w, c, k) == dot_prefix(v, w, c, k),
    decreases k,
{
    if k > 0 {
        lemma_dot_prefix_push(v, x, w, c, k - 1);
        assert(v.push(x)[k - 1] == v[k - 1]);
    }
}

/// Multiplying a valid value by one is exact.
proof fn lemma_fx_mul_one(x: int)
    requires
        crate::fixed::fx_in_range(x),
    ensures
        fx_mul_spec(FX_SCALE as int, x) == x,
{
    vstd::arithmetic::div_mod::lemma_div_multiples_vanish(
        crate::fixed::iabs(x),
        FX_SCALE as int,
    );
    assert(crate::fixed::iabs(FX_SCALE * x) == FX_SCALE * crate::fixed::iabs(x))
        by (nonlinear_arith);
}

/// The bias weight acts exactly as the weight of one more input that is
/// constantly one: the weighted input of a neuron equals the plain dot
/// product of the bias-extended input vector with the weight column.
pub proof fn lemma_bias_is_constant_one_input(input: Seq<int>, w: Seq<Seq<int>>, c: int)
    requires
        crate::matrix::seq_in_range(input),
        crate::matrix::grid_in_range(w),
        w.len() == input.len() + 1,
        0 <= c,
        forall|r: int| 0 <= r < w.len() ==> c < (#[trigger] w[r]).len(),
    ensures
        pre_activation_spec(input, w, c) == dot_spec(with_bias(input), w, c),
{
    let ext = with_bias(input);
    let n = input.len() as int;
    lemma_dot_prefix_push(input, FX_SCALE as int, w, c, n);
    assert(dot_prefix(ext, w, c, n + 1) == fx_add_spec(
        dot_prefix(ext, w, c, n),
        fx_mul_spec(ext[n], w[n][c]),
    ));
    assert(ext[n] == FX_SCALE as int);
    lemma_fx_mul_one(w[n][c]);
}

/// The activations a layer with weights `w` produces from `input`.
pub open spec fn layer_out_spec(input: Seq<int>, w: Seq<Seq<int>>, out_size: int) -> Seq<int> {
    Seq::new(out_size as nat, |c: int| sigmoid_spec(pre_activation_spec(input, w, c)))
}

/// The output layer's error signal for one neuron: `2 * (a - y) * a * (1 - a)`.
pub open spec fn out_delta_spec(a: int, y: int) -> int {
    fx_mul_spec(
        fx_mul_spec(fx_mul_spec(2 * FX_SCALE, fx_sub_spec(a, y)), a),
        fx_sub_spec(FX_SCALE as int, a),
    )
}

/// The running sum of the first `k` next-layer deltas weighted by the
/// connections leaving neuron `i`.
pub open spec fn wsum_prefix(d: Seq<int>, w: Seq<Seq<int>>, i: int, k: int) -> int
    decreases k,
{
    if k <= 0 {
        0
    } else {
        fx_add_spec(wsum_prefix(d, w, i, k - 1), fx_mul_spec(d[k - 1], w[i][k - 1]))
    }
}

/// The full weighted sum of next-layer deltas over the connections
/// leaving neuron `i`.
pub open spec fn wsum_spec(d: Seq<int>, w: Seq<Seq<int>>, i: int) -> int {
    wsum_prefix(d, w, i, d.len() as int)
}

/// A hidden layer's error signal for neuron `i`, backpropagated from the
/// next layer: `a * (1 - a) * Σ_k delta_next[k] * w_next[i][k]`.
pub open spec fn hidden_delta_spec(a: int, d_next: Seq<int>, w_next: Seq<Seq<int>>, i: int) -> int {
    fx_mul_spec(dsigmoid_spec(a), wsum_spec(d_next, w_next, i))
}

/// One cell of a gradient accumulation step: the existing accumulator cell
/// plus `delta[c] * input_with_bias[r]`.
pub open spec fn grad_cell_spec(g: int, delta_c: int, input_r: int) -> int {
    fx_add_spec(g, fx_mul_spec(delta_c, input_r))
}

/// One cell of a weight flush: the weight minus the rate-scaled,
/// batch-averaged accumulator cell.
pub open spec fn flush_cell_spec(w: int, g: int, rate: int, n: int) -> int {
    fx_sub_spec(w, fx_div_count_spec(fx_mul_spec(rate, g), n))
}

/// A fully-connected sigmoid layer with its per-step scratch state.
pub struct Layer {
    weights: Matrix,
    gradient: Matrix,
    examples_seen: usize,
    outputs: ColumnVec,
    deltas: ColumnVec,
}

impl Layer {
    /// The weight grid, bias row last.
    pub closed spec fn w(self) -> Seq<Seq<int>> {
        self.weights@
    }

    /// The gradient accumulator grid.
    pub closed spec fn g(self) -> Seq<Seq<int>> {
        self.gradient@
    }

    /// The cached activations of the last forward step.
    pub closed spec fn outs(self) -> Seq<int> {
        self.outputs@
    }

    /// The error signal of the last backward step.
    pub closed spec fn ds(self) -> Seq<int> {
        self.deltas@
    }

    /// How many examples have been accumulated since the last flush.
    pub closed spec fn seen(self) -> int {
        self.examples_seen as int
    }

    /// Number of inputs the layer takes, the bias not counted.
    pub closed spec fn in_size(self) -> int {
        self.weights.spec_rows() - 1
    }

    /// Number of neurons, so of outputs.
    pub closed spec fn out_size(self) -> int {
        self.weights.spec_columns()
    }

    /// Validity: matrices and buffers are well-formed and shape-matched.
    pub closed spec fn wf(self) -> bool {
        &&& self.weights.wf()
        &&& self.gradient.wf()
        &&& self.outputs.wf()
        &&& self.deltas.wf()
        &&& self.gradient.spec_rows() == self.weights.spec_rows()
        &&& self.gradient.spec_columns() == self.weights.spec_columns()
        &&& self.outputs@.len() == self.weights.spec_columns()
        &&& self.deltas@.len() == self.weights.spec_columns()
        &&& self.in_size() >= 1
        &&& self.out_size() >= 1
    }

    /// The shape and range facts that `wf` guarantees, stated over the
    /// public spec accessors.
    pub proof fn lemma_wf_shapes(self)
        requires
            self.wf(),
        ensures
            self.w().len() == self.in_size() + 1,
            self.g().len() == self.in_size() + 1,
            forall|r: int| 0 <= r < self.w().len() ==> (#[trigger] self.w()[r]).len()
                == self.out_size(),
            forall|r: int| 0 <= r < self.g().len() ==> (#[trigger] self.g()[r]).len()
                == self.out_size(),
            grid_in_range(self.w()),
            grid_in_range(self.g()),
            self.outs().len() == self.out_size(),
            self.ds().len() == self.out_size(),
            seq_in_range(self.outs()),
            seq_in_range(self.ds()),
            self.in_size() >= 1,
            self.out_size() >= 1,
            self.seen() >= 0,
    {
    }

    /// A fresh layer: weights from the initializer, zeroed gradient
    /// accumulator, zeroed output and delta buffers.
    pub fn new(input_size: usize, output_size: usize, init: ParamInit) -> (l: Layer)
        requires
            1 <= input_size,
            1 <= output_size,
            (input_size + 1) * output_size <= usize::MAX,
            init matches ParamInit::Constant(v) ==> v.wf(),
        ensures
            l.wf(),
            l.in_size() == input_size,
            l.out_size() == output_size,
            l.seen() == 0,
            forall|r: int, c: int|
                0 <= r < l.g().len() && 0 <= c < output_size ==> l.g()[r][c] == 0,
            forall|i: int| 0 <= i < output_size ==> l.outs()[i] == 0,
            forall|i: int| 0 <= i < output_size ==> l.ds()[i] == 0,
            init matches ParamInit::Constant(v) ==> forall|r: int, c: int|
                0 <= r < l.w().len() && 0 <= c < output_size ==> l.w()[r][c] == v@,
            init is RandomUniform ==> forall|r: int, c: int|
                0 <= r < l.w().len() && 0 <= c < output_size ==> 0 <= #[trigger] l.w()[r][c]
                    < FX_SCALE,
    {
        proof {
            assert(input_size + 1 <= (input_size + 1) * output_size) by (nonlinear_arith)
                requires
                    output_size >= 1,
                    input_size >= 0,
            ;
        }
        let rows = input_size + 1;
        let weights = match init {
            ParamInit::Constant(v) => Matrix::filled(rows, output_size, v),
            ParamInit::RandomUniform => Matrix::random(rows, output_size),
        };
        let gradient = Matrix::filled(rows, output_size, Fix::zero());
        let outputs = ColumnVec::new(output_size, Fix::zero());
        let deltas = ColumnVec::new(output_size, Fix::zero());
        Layer { weights, gradient, examples_seen: 0, outputs, deltas }
    }

    /// The weight matrix.
    pub fn weights(&self) -> (m: &Matrix)
        requires
            self.wf(),
        ensures
            m@ == self.w(),
            m.wf(),
            m.spec_rows() == self.in_size() + 1,
            m.spec_columns() == self.out_size(),
    {
        &self.weights
    }

    /// The gradient accumulator.
    pub fn gradient(&self) -> (m: &Matrix)
        requires
            self.wf(),
        ensures
            m@ == self.g(),
            m.wf(),
            m.spec_rows() == self.in_size() + 1,
            m.spec_columns() == self.out_size(),
    {
        &self.gradient
    }

    /// The cached activations of the last forward step.
    pub fn outputs(&self) -> (v: &ColumnVec)
        requires
            self.wf(),
        ensures
            v@ == self.outs(),
            v.wf(),
    {
        &self.outputs
    }

    /// The error signal of the last backward step.
    pub fn deltas(&self) -> (v: &ColumnVec)
        requires
            self.wf(),
        ensures
            v@ == self.ds(),
            v.wf(),
    {
        &self.deltas
    }

    /// How many examples have been accumulated since the last flush.
    pub fn examples_seen(&self) -> (n: usize)
        ensures
            n as int == self.seen(),
    {
        self.examples_seen
    }

    /// Overwrites one weight; the shape is unchanged.
    pub fn set_weight(&mut self, r: usize, c: usize, v: Fix)
        requires
            old(self).wf(),
            r < old(self).in_size() + 1,
            c < old(self).out_size(),
            v.wf(),
        ensures
            final(self).wf(),
            final(self).w() == old(self).w().update(
                r as int,
                old(self).w()[r as int].update(c as int, v@),
            ),
            final(self).g() == old(self).g(),
            final(self).outs() == old(self).outs(),
            final(self).ds() == old(self).ds(),
            final(self).seen() == old(self).seen(),
            final(self).in_size() == old(self).in_size(),
            final(self).out_size() == old(self).out_size(),
    {
        self.weights.set_cell(r, c, v);
    }

    /// Installs an externally computed gradient estimate as an accumulated
    /// batch of one example, as the finite-difference strategy produces it;
    /// the estimate must be shaped like the weights.
    pub fn install_gradient(&mut self, estimate: Matrix)
        requires
            old(self).wf(),
            estimate.wf(),
            estimate.spec_rows() == old(self).in_size() + 1,
            estimate.spec_columns() == old(self).out_size(),
        ensures
            final(self).wf(),
            final(self).w() == old(self).w(),
            final(self).outs() == old(self).outs(),
            final(self).ds() == old(self).ds(),
            final(self).in_size() == old(self).in_size(),
            final(self).out_size() == old(self).out_size(),
            final(self).g() == estimate@,
            final(self).seen() == 1,
    {
        self.gradient = estimate;
        self.examples_seen = 1;
    }

    /// Computes this layer's activations from the previous layer's
    /// output: `sigmoid(input_with_bias × weights)`, written into the
    /// layer's own output buffer.
    pub fn forward(&mut self, prev: &ColumnVec)
        requires
            old(self).wf(),
            prev.wf(),
            prev@.len() == old(self).in_size(),
        ensures
            final(self).wf(),
            final(self).w() == old(self).w(),
            final(self).g() == old(self).g(),
            final(self).ds() == old(self).ds(),
            final(self).seen() == old(self).seen(),
            final(self).in_size() == old(self).in_size(),
            final(self).out_size() == old(self).out_size(),
            final(self).outs() == layer_out_spec(prev@, old(self).w(), old(self).out_size()),
    {
        let n = prev.len();
        let m = self.weights.num_columns();
        let mut c: usize = 0;
        while c < m
            invariant
                self.wf(),
                prev.wf(),
                n == prev@.len(),
                n == self.in_size(),
                m == self.out_size(),
                self.weights == old(self).weights,
                self.gradient == old(self).gradient,
                self.deltas == old(self).deltas,
                self.examples_seen == old(self).examples_seen,
                c <= m,
                forall|j: int|
                    0 <= j < c ==> self.outs()[j] == sigmoid_spec(
                        pre_activation_spec(prev@, self.w(), j),
                    ),
            decreases m - c,
        {
            let mut acc = Fix::zero();
            let mut k: usize = 0;
            while k < n
                invariant
                    self.wf(),
                    prev.wf(),
                    n == prev@.len(),
                    n == self.in_size(),
                    m == self.out_size(),
                    c < m,
                    k <= n,
                    acc.wf(),
                    acc@ == dot_prefix(prev@, self.w(), c as int, k as int),
                decreases n - k,
            {
                let term = prev.get(k).mul(self.weights.get_cell(k, c));
                acc = acc.add(term);
                k = k + 1;
            }
            let pre = acc.add(self.weights.get_cell(n, c));
            let a = sigmoid(pre);
            proof {
                assert(acc@ == dot_spec(prev@, self.w(), c as int));
                assert(pre@ == pre_activation_spec(prev@, self.w(), c as int));
                assert(a@ == sigmoid_spec(pre_activation_spec(prev@, self.w(), c as int)));
            }
            let ghost prior = self.outs();
            self.outputs.set(c, a);
            proof {
                assert(self.outs() == prior.update(c as int, a@));
                assert(self.outs()[c as int] == sigmoid_spec(
                    pre_activation_spec(prev@, self.w(), c as int),
                ));
            }
            c = c + 1;
        }
        proof {
            assert(self.outs() =~= layer_out_spec(prev@, old(self).w(), old(self).out_size()));
        }
    }

    /// Computes the output layer's error signal against the expected
    /// values: `delta[j] = 2 * (a[j] - y[j]) * a[j] * (1 - a[j])`.
    pub fn compute_output_delta(&mut self, expected: &ColumnVec)
        requires
            old(self).wf(),
            expected.wf(),
            expected@.len() == old(self).out_size(),
        ensures
            final(self).wf(),
            final(self).w() == old(self).w(),
            final(self).g() == old(self).g(),
            final(self).outs() == old(self).outs(),
            final(self).seen() == old(self).seen(),
            final(self).in_size() == old(self).in_size(),
            final(self).out_size() == old(self).out_size(),
            final(self).ds().len() == old(self).out_size(),
            forall|j: int|
                0 <= j < old(self).out_size() ==> final(self).ds()[j] == out_delta_spec(
                    old(self).outs()[j],
                    expected@[j],
                ),
    {
        let m = self.weights.num_columns();
        let mut j: usize = 0;
        while j < m
            invariant
                self.wf(),
                expected.wf(),
                expected@.len() == m,
                m == self.out_size(),
                self.weights == old(self).weights,
                self.gradient == old(self).gradient,
                self.outputs == old(self).outputs,
                self.examples_seen == old(self).examples_seen,
                j <= m,
                forall|i: int|
                    0 <= i < j ==> self.ds()[i] == out_delta_spec(self.outs()[i], expected@[i]),
            decreases m - j,
        {
            let a = self.outputs.get(j);
            let y = expected.get(j);
            let d = Fix::two().mul(a.sub(y)).mul(a).mul(Fix::one().sub(a));
            proof {
                assert(a@ == self.outs()[j as int]);
                assert(y@ == expected@[j as int]);
                assert(d@ == out_delta_spec(self.outs()[j as int], expected@[j as int]));
            }
            let ghost prior = self.ds();
            self.deltas.set(j, d);
            proof {
                assert(self.ds() == prior.update(j as int, d@));
                assert(self.ds()[j as int] == out_delta_spec(self.outs()[j as int], expected@[j as int]));
            }
            j = j + 1;
        }
    }

    /// Computes a hidden layer's error signal from the next layer's
    /// already-computed deltas: each neuron's responsibility for the next
    /// layer's error, weighted by the connection strength and scaled by the
    /// local activation derivative.
    pub fn compute_delta(&mut self, next: &Layer)
        requires
            old(self).wf(),
            next.wf(),
            next.in_size() == old(self).out_size(),
        ensures
            final(self).wf(),
            final(self).w() == old(self).w(),
            final(self).g() == old(self).g(),
            final(self).outs() == old(self).outs(),
            final(self).seen() == old(self).seen(),
            final(self).in_size() == old(self).in_size(),
            final(self).out_size() == old(self).out_size(),
            final(self).ds().len() == old(self).out_size(),
            forall|i: int|
                0 <= i < old(self).out_size() ==> final(self).ds()[i] == hidden_delta_spec(
                    old(self).outs()[i],
                    next.ds(),
                    next.w(),
                    i,
                ),
    {
        proof {
            next.lemma_wf_shapes();
        }
        let m = self.weights.num_columns();
        let next_m = next.weights.num_columns();
        let mut i: usize = 0;
        while i < m
            invariant
                self.wf(),
                next.wf(),
                m == self.out_size(),
                next_m == next.out_size(),
                next.in_size() == m,
                self.weights == old(self).weights,
                self.gradient == old(self).gradient,
                self.outputs == old(self).outputs,
                self.examples_seen == old(self).examples_seen,
                i <= m,
                forall|i2: int|
                    0 <= i2 < i ==> self.ds()[i2] == hidden_delta_spec(
                        self.outs()[i2],
                        next.ds(),
                        next.w(),
                        i2,
                    ),
            decreases m - i,
        {
            let mut s = Fix::zero();
            let mut k: usize = 0;
            while k < next_m
                invariant
                    self.wf(),
                    next.wf(),
                    m == self.out_size(),
                    next_m == next.out_size(),
                    next.in_size() == m,
                    i < m,
                    k <= next_m,
                    s.wf(),
                    s@ == wsum_prefix(next.ds(), next.w(), i as int, k as int),
                decreases next_m - k,
            {
                proof {
                    next.lemma_wf_shapes();
                }
                let term = next.deltas.get(k).mul(next.weights.get_cell(i, k));
                s = s.add(term);
                k = k + 1;
            }
            proof {
                next.lemma_wf_shapes();
                assert(s@ == wsum_spec(next.ds(), next.w(), i as int));
            }
            let a = self.outputs.get(i);
            let d = dsigmoid(a).mul(s);
            proof {
                assert(d@ == hidden_delta_spec(self.outs()[i as int], next.ds(), next.w(), i as int));
            }
            let ghost prior = self.ds();
            self.deltas.set(i, d);
            proof {
                assert(self.ds() == prior.update(i as int, d@));
            }
            i = i + 1;
        }
    }

    /// Adds this example's gradient contribution to the accumulator: for
    /// every weight, `delta[column] * input_with_bias[row]`; counts the
    /// example.
    pub fn accumulate_gradient(&mut self, prev: &ColumnVec)
        requires
            old(self).wf(),
            prev.wf(),
            prev@.len() == old(self).in_size(),
            old(self).seen() < usize::MAX,
        ensures
            final(self).wf(),
            final(self).w() == old(self).w(),
            final(self).outs() == old(self).outs(),
            final(self).ds() == old(self).ds(),
            final(self).in_size() == old(self).in_size(),
            final(self).out_size() == old(self).out_size(),
            final(self).seen() == old(self).seen() + 1,
            final(self).g().len() == old(self).g().len(),
            forall|r: int, c: int|
                0 <= r < old(self).g().len() && 0 <= c < old(self).out_size()
                    ==> final(self).g()[r][c] == grad_cell_spec(
                    old(self).g()[r][c],
                    old(self).ds()[c],
                    with_bias(prev@)[r],
                ),
    {
        proof {
            self.lemma_wf_shapes();
        }
        let n = prev.len();
        let rows = self.gradient.num_rows();
        let cols = self.gradient.num_columns();
        let mut r: usize = 0;
        while r < rows
            invariant
                self.wf(),
                prev.wf(),
                n == prev@.len(),
                n == self.in_size(),
                rows == self.in_size() + 1,
                cols == self.out_size(),
                self.weights == old(self).weights,
                self.outputs == old(self).outputs,
                self.deltas == old(self).deltas,
                self.examples_seen == old(self).examples_seen,
                self.g().len() == old(self).g().len(),
                r <= rows,
                forall|r2: int, c2: int|
                    0 <= r2 < r && 0 <= c2 < cols ==> self.g()[r2][c2] == grad_cell_spec(
                        old(self).g()[r2][c2],
                        self.ds()[c2],
                        with_bias(prev@)[r2],
                    ),
                forall|r2: int, c2: int|
                    r <= r2 < rows && 0 <= c2 < cols ==> self.g()[r2][c2] == old(self).g()[r2][c2],
            decreases rows - r,
        {
            let p = if r < n {
                prev.get(r)
            } else {
                Fix::one()
            };
            let mut c: usize = 0;
            while c < cols
                invariant
                    self.wf(),
                    prev.wf(),
                    n == prev@.len(),
                    n == self.in_size(),
                    rows == self.in_size() + 1,
                    cols == self.out_size(),
                    self.weights == old(self).weights,
                    self.outputs == old(self).outputs,
                    self.deltas == old(self).deltas,
                    self.examples_seen == old(self).examples_seen,
                    self.g().len() == old(self).g().len(),
                    r < rows,
                    c <= cols,
                    p.wf(),
                    p@ == with_bias(prev@)[r as int],
                    forall|r2: int, c2: int|
                        0 <= r2 < r && 0 <= c2 < cols ==> self.g()[r2][c2] == grad_cell_spec(
                            old(self).g()[r2][c2],
                            self.ds()[c2],
                            with_bias(prev@)[r2],
                        ),
                    forall|c2: int|
                        0 <= c2 < c ==> self.g()[r as int][c2] == grad_cell_spec(
                            old(self).g()[r as int][c2],
                            self.ds()[c2],
                            with_bias(prev@)[r as int],
                        ),
                    forall|c2: int|
                        c <= c2 < cols ==> self.g()[r as int][c2] == old(self).g()[r as int][c2],
                    forall|r2: int, c2: int|
                        r < r2 < rows && 0 <= c2 < cols ==> self.g()[r2][c2] == old(
                            self,
                        ).g()[r2][c2],
                decreases cols - c,
            {
                let inc = self.deltas.get(c).mul(p);
                let cell = self.gradient.get_cell(r, c).add(inc);
                self.gradient.set_cell(r, c, cell);
                c = c + 1;
            }
            r = r + 1;
        }
        self.examples_seen = self.examples_seen + 1;
    }

    /// Applies the batch-averaged gradient step to every weight, then
    /// zeroes the accumulator and the example counter.  Rejected with
    /// `EmptyGradient` when no example has been accumulated, which would
    /// otherwise divide by zero.
    pub fn flush(&mut self, rate: Fix) -> (res: Result<(), NnError>)
        requires
            old(self).wf(),
            rate.wf(),
        ensures
            res is Ok <==> old(self).seen() > 0,
            res is Err ==> *final(self) == *old(self) && res == Err::<(), NnError>(
                NnError::EmptyGradient,
            ),
            res is Ok ==> final(self).wf() && final(self).outs() == old(self).outs()
                && final(self).ds() == old(self).ds() && final(self).in_size() == old(
                self,
            ).in_size() && final(self).out_size() == old(self).out_size() && final(self).seen()
                == 0 && final(self).w().len() == old(self).w().len() && (forall|r: int, c: int|
                0 <= r < old(self).w().len() && 0 <= c < old(self).out_size()
                    ==> final(self).w()[r][c] == flush_cell_spec(
                    old(self).w()[r][c],
                    old(self).g()[r][c],
                    rate@,
                    old(self).seen(),
                )) && (forall|r: int, c: int|
                0 <= r < old(self).g().len() && 0 <= c < old(self).out_size()
                    ==> final(self).g()[r][c] == 0),
    {
        if self.examples_seen == 0 {
            return Err(NnError::EmptyGradient);
        }
        proof {
            self.lemma_wf_shapes();
        }
        let seen = self.examples_seen;
        let rate_copy = rate;
        let rows = self.weights.num_rows();
        let cols = self.weights.num_columns();
        let mut r: usize = 0;
        while r < rows
            invariant
                self.wf(),
                rate_copy.wf(),
                seen == old(self).examples_seen,
                seen > 0,
                rows == self.in_size() + 1,
                cols == self.out_size(),
                self.outputs == old(self).outputs,
                self.deltas == old(self).deltas,
                self.examples_seen == old(self).examples_seen,
                self.w().len() == old(self).w().len(),
                self.g().len() == old(self).g().len(),
                r <= rows,
                forall|r2: int, c2: int|
                    0 <= r2 < r && 0 <= c2 < cols ==> self.w()[r2][c2] == flush_cell_spec(
                        old(self).w()[r2][c2],
                        old(self).g()[r2][c2],
                        rate_copy@,
                        seen as int,
                    ),
                forall|r2: int, c2: int|
                    0 <= r2 < r && 0 <= c2 < cols ==> self.g()[r2][c2] == 0,
                forall|r2: int, c2: int|
                    r <= r2 < rows && 0 <= c2 < cols ==> self.w()[r2][c2] == old(
                        self,
                    ).w()[r2][c2] && self.g()[r2][c2] == old(self).g()[r2][c2],
            decreases rows - r,
        {
            let mut c: usize = 0;
            while c < cols
                invariant
                    self.wf(),
                    rate_copy.wf(),
                    seen == old(self).examples_seen,
                    seen > 0,
                    rows == self.in_size() + 1,
                    cols == self.out_size(),
                    self.outputs == old(self).outputs,
                    self.deltas == old(self).deltas,
                    self.examples_seen == old(self).examples_seen,
                    self.w().len() == old(self).w().len(),
                    self.g().len() == old(self).g().len(),
                    r < rows,
                    c <= cols,
                    forall|r2: int, c2: int|
                        0 <= r2 < r && 0 <= c2 < cols ==> self.w()[r2][c2] == flush_cell_spec(
                            old(self).w()[r2][c2],
                            old(self).g()[r2][c2],
                            rate_copy@,
                            seen as int,
                        ),
                    forall|r2: int, c2: int|
                        0 <= r2 < r && 0 <= c2 < cols ==> self.g()[r2][c2] == 0,
                    forall|c2: int|
                        0 <= c2 < c ==> self.w()[r as int][c2] == flush_cell_spec(
                            old(self).w()[r as int][c2],
                            old(self).g()[r as int][c2],
                            rate_copy@,
                            seen as int,
                        ) && self.g()[r as int][c2] == 0,
                    forall|c2: int|
                        c <= c2 < cols ==> self.w()[r as int][c2] == old(self).w()[r as int][c2]
                            && self.g()[r as int][c2] == old(self).g()[r as int][c2],
                    forall|r2: int, c2: int|
                        r < r2 < rows && 0 <= c2 < cols ==> self.w()[r2][c2] == old(
                            self,
                        ).w()[r2][c2] && self.g()[r2][c2] == old(self).g()[r2][c2],
                decreases cols - c,
            {
                let step = rate_copy.mul(self.gradient.get_cell(r, c)).div_count(seen);
                let w = self.weights.get_cell(r, c).sub(step);
                self.weights.set_cell(r, c, w);
                self.gradient.set_cell(r, c, Fix::zero());
                c = c + 1;
            }
            r = r + 1;
        }
        self.examples_seen = 0;
        Ok(())
    }
}

} // verus!
