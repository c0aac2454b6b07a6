//! A small verified feedforward neural-network training engine.
//!
//! Dense matrices of saturating fixed-point numbers, sigmoid layers with a
//! bias row folded into each weight matrix, analytic backpropagation and a
//! finite-difference gradient strategy, and a plain gradient-descent
//! training loop.  Every arithmetic step is specified exactly over the
//! integer representation.

pub mod algebra;
pub mod fixed;
pub mod fns;
pub mod laws;
pub mod layer;
pub mod matrix;
pub mod network;
pub mod rng;

use vstd::prelude::*;

verus! {

/// The ways a training-engine call can be used wrongly; every one is
/// reported to the caller instead of corrupting numeric state.
#[derive(Clone, Copy, Debug, PartialEq, Eq, Structural)]
pub enum NnError {
    /// A binary matrix operation was given operands of unequal shape.
    ShapeMismatch,
    /// A cost or training call was given no examples.
    EmptyDataset,
    /// Weights were flushed with no accumulated gradient to apply.
    EmptyGradient,
    /// A network was declared with fewer than two layer sizes, or with a
    /// zero-sized layer.
    InvalidLayerSpec,
}

/// How initial weights are generated at model construction.
#[derive(Clone, Copy, Debug, PartialEq, Eq, Structural)]
pub enum ParamInit {
    /// Every weight starts at the given value.
    Constant(crate::fixed::Fix),
    /// Every weight is drawn uniformly from `[0, 1)`.
    RandomUniform,
}

/// Which of the two interchangeable ways of producing a per-layer gradient
/// matrix set drives the weight updates.
#[derive(Clone, Copy, Debug, PartialEq, Eq, Structural)]
pub enum GradientStrategy {
    /// Analytic backpropagation: exact under the engine's cost, one
    /// forward and one backward walk per example.
    Backprop,
    /// Numerical finite differences with the given epsilon: each weight is
    /// nudged and the cost recomputed over the whole dataset.
    FiniteDifference(crate::fixed::Fix),
}

/// Everything the training loop needs beside the dataset itself.
#[derive(Clone, Debug)]
pub struct TrainConfig {
    /// Learning rate applied at every flush.
    pub rate: crate::fixed::Fix,
    /// How many batch steps to run.
    pub nr_of_iterations: usize,
    /// How initial weights are generated.
    pub init: ParamInit,
    /// Sizes of the hidden layers; input and output sizes come from the
    /// dataset.
    pub hidden_layers: Vec<usize>,
    /// Which gradient strategy drives the updates.
    pub strategy: GradientStrategy,
}

/// The declared layer sizes a config and a dataset give rise to: the first
/// example's input width, the hidden sizes, the first example's output
/// width.
pub open spec fn derived_sizes(hidden: Seq<usize>, in_n: int, out_n: int) -> Seq<int> {
    seq![in_n] + hidden.map_values(|x: usize| x as int) + seq![out_n]
}

/// Consecutive sizes small enough that every weight matrix fits in memory.
pub open spec fn sizes_fit(s: Seq<int>) -> bool {
    forall|i: int| 0 <= i < s.len() - 1 ==> (s[i] + 1) * #[trigger] s[i + 1] <= usize::MAX
}

/// No declared layer is empty.
pub open spec fn sizes_positive(s: Seq<int>) -> bool {
    forall|i: int| 0 <= i < s.len() ==> #[trigger] s[i] >= 1
}

/// What the initializer guarantees of a freshly built model with the given
/// declared sizes.
pub open spec fn init_model_ok(m: Seq<Seq<Seq<int>>>, s: Seq<int>, init: ParamInit) -> bool {
    &&& m.len() == s.len() - 1
    &&& forall|l: int|
        0 <= l < m.len() ==> crate::matrix::grid_shape(#[trigger] m[l], s[l] + 1, s[l + 1])
    &&& (init matches ParamInit::Constant(v) ==> forall|l: int, r: int, c: int|
        0 <= l < m.len() && 0 <= r < m[l].len() && 0 <= c < m[l][r].len() ==> #[trigger] m[l][r][c]
            == v@)
    &&& (init is RandomUniform ==> forall|l: int, r: int, c: int|
        0 <= l < m.len() && 0 <= r < m[l].len() && 0 <= c < m[l][r].len() ==> 0 <= #[trigger] m[l][r][c]
            < crate::fixed::FX_SCALE)
}

/// What training from the initial model `m0` guarantees of the returned
/// network and per-iteration costs, under the chosen strategy.
pub open spec fn training_outcome(
    net: crate::network::NeuronNetwork,
    costs: Seq<crate::fixed::Fix>,
    m0: Seq<Seq<Seq<int>>>,
    views: Seq<(Seq<int>, Seq<int>)>,
    rate: int,
    iters: int,
    strategy: GradientStrategy,
) -> bool {
    match strategy {
        GradientStrategy::Backprop => {
            &&& net.model() == crate::network::iterate_model(m0, views, rate, iters)
            &&& forall|k: int|
                0 <= k < iters ==> (#[trigger] costs[k])@ == crate::network::cost_spec(
                    crate::network::iterate_model(m0, views, rate, k + 1),
                    views,
                )
        },
        GradientStrategy::FiniteDifference(e) => {
            &&& net.model() == crate::network::iterate_model_fd(m0, views, e@, rate, iters)
            &&& forall|k: int|
                0 <= k < iters ==> (#[trigger] costs[k])@ == crate::network::cost_spec(
                    crate::network::iterate_model_fd(m0, views, e@, rate, k + 1),
                    views,
                )
        },
    }
}

/// Builds a network from the config and the dataset's vector widths, runs
/// the configured number of training steps under the configured gradient
/// strategy, and returns the trained network together with the cost after
/// every iteration.
#[verifier::rlimit(100)]
pub fn train(config: &TrainConfig, data: &crate::network::Dataset) -> (res: Result<
    (crate::network::NeuronNetwork, Vec<crate::fixed::Fix>),
    NnError,
>)
    requires
        config.rate.wf(),
        config.init matches ParamInit::Constant(v) ==> v.wf(),
        config.strategy matches GradientStrategy::FiniteDifference(e) ==> e.wf() && e@ != 0,
        crate::network::dataset_wf(data@),
        data@.len() < usize::MAX,
        data@.len() > 0 ==> sizes_fit(
            derived_sizes(
                config.hidden_layers@,
                data@[0].0@.len() as int,
                data@[0].1@.len() as int,
            ),
        ),
    ensures
        data@.len() == 0 ==> res == Err::<
            (crate::network::NeuronNetwork, Vec<crate::fixed::Fix>),
            NnError,
        >(NnError::EmptyDataset),
        res is Ok <==> (data@.len() > 0 && sizes_positive(
            derived_sizes(
                config.hidden_layers@,
                data@[0].0@.len() as int,
                data@[0].1@.len() as int,
            ),
        ) && crate::network::dataset_shaped(
            data@,
            data@[0].0@.len() as int,
            data@[0].1@.len() as int,
        )),
        res is Ok ==> ({
            let net = res.unwrap().0;
            let costs = res.unwrap().1;
            let sizes = derived_sizes(
                config.hidden_layers@,
                data@[0].0@.len() as int,
                data@[0].1@.len() as int,
            );
            &&& net.wf()
            &&& net.is_idle()
            &&& net.spec_num_layers() == config.hidden_layers@.len() + 1
            &&& costs@.len() == config.nr_of_iterations
            &&& forall|k: int| 0 <= k < costs@.len() ==> (#[trigger] costs@[k]).wf()
            &&& exists|m0: Seq<Seq<Seq<int>>>|
                init_model_ok(m0, sizes, config.init) && #[trigger] training_outcome(
                    net,
                    costs@,
                    m0,
                    crate::network::dataset_views(data@),
                    config.rate@,
                    config.nr_of_iterations as int,
                    config.strategy,
                )
        }),
{
    if data.len() == 0 {
        return Err(NnError::EmptyDataset);
    }
    let ghost ds = derived_sizes(
        config.hidden_layers@,
        data@[0].0@.len() as int,
        data@[0].1@.len() as int,
    );
    let mut sizes: Vec<usize> = Vec::new();
    sizes.push(data[0].0.len());
    let mut h: usize = 0;
    while h < config.hidden_layers.len()
        invariant
            h <= config.hidden_layers@.len(),
            sizes@.len() == h + 1,
            data@.len() > 0,
            sizes@[0] == data@[0].0@.len(),
            forall|j: int| 1 <= j < sizes@.len() ==> sizes@[j] == config.hidden_layers@[j - 1],
        decreases config.hidden_layers@.len() - h,
    {
        sizes.push(config.hidden_layers[h]);
        h = h + 1;
    }
    sizes.push(data[0].1.len());
    proof {
        assert(sizes@.len() == ds.len());
        assert forall|j: int| 0 <= j < sizes@.len() implies sizes@[j] as int == ds[j] by {
            if 1 <= j < sizes@.len() - 1 {
                assert(ds[j] == config.hidden_layers@.map_values(|x: usize| x as int)[j - 1]);
            }
        }
    }
    proof {
        assert forall|i: int|
            0 <= i < sizes@.len() - 1 implies (sizes@[i] + 1) * #[trigger] sizes@[i + 1]
            <= usize::MAX by {
            assert(sizes@[i] as int == ds[i]);
            assert(sizes@[i + 1] as int == ds[i + 1]);
            assert((ds[i] + 1) * ds[i + 1] <= usize::MAX);
        }
    }
    let net_res = crate::network::NeuronNetwork::new(&sizes, config.init);
    let mut net = match net_res {
        Ok(n) => n,
        Err(e) => {
            proof {
                assert(e == NnError::InvalidLayerSpec);
                assert(sizes@.len() >= 2);
                if sizes_positive(ds) {
                    assert forall|i2: int|
                        0 <= i2 < sizes@.len() implies #[trigger] sizes@[i2] >= 1 by {
                        assert(sizes@[i2] as int == ds[i2]);
                        assert(ds[i2] >= 1);
                    }
                    assert(false);
                }
                assert(!sizes_positive(ds));
            }
            return Err(e);
        },
    };
    proof {
        assert(sizes_positive(ds));
        assert(net.spec_in_size() == ds[0]);
        assert(net.spec_out_size() == ds[ds.len() - 1]);
    }
    let ghost m0 = net.model();
    proof {
        assert forall|l: int| 0 <= l < m0.len() implies crate::matrix::grid_shape(
            #[trigger] m0[l],
            ds[l] + 1,
            ds[l + 1],
        ) by {
            assert(net.l(l).wf());
            net.l(l).lemma_wf_shapes();
            assert(m0[l] == net.l(l).w());
        }
        assert(init_model_ok(m0, ds, config.init));
    }
    let iters = config.nr_of_iterations;
    let rate = config.rate;
    let costs_res = match config.strategy {
        GradientStrategy::Backprop => net.train(data, iters, rate),
        GradientStrategy::FiniteDifference(eps) => net.train_numerical(data, iters, rate, eps),
    };
    let costs = match costs_res {
        Ok(c) => c,
        Err(e) => {
            proof {
                assert(e == NnError::ShapeMismatch);
            }
            return Err(e);
        },
    };
    proof {
        assert(training_outcome(
            net,
            costs@,
            m0,
            crate::network::dataset_views(data@),
            config.rate@,
            config.nr_of_iterations as int,
            config.strategy,
        ));
        assert(crate::network::dataset_shaped(
            data@,
            data@[0].0@.len() as int,
            data@[0].1@.len() as int,
        ));
        assert(net.spec_num_layers() == config.hidden_layers@.len() + 1);
        assert(init_model_ok(m0, ds, config.init) && #[trigger] training_outcome(
            net,
            costs@,
            m0,
            crate::network::dataset_views(data@),
            config.rate@,
            config.nr_of_iterations as int,
            config.strategy,
        ));
        assert(exists|m0x: Seq<Seq<Seq<int>>>|
            init_model_ok(m0x, ds, config.init) && #[trigger] training_outcome(
                net,
                costs@,
                m0x,
                crate::network::dataset_views(data@),
                config.rate@,
                config.nr_of_iterations as int,
                config.strategy,
            ));
    }
    Ok((net, costs))
}

} // verus!
