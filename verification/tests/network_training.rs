use aiplay::fixed::Fix;
use aiplay::fns::{dsigmoid, sigmoid};
use aiplay::matrix::ColumnVec;
use aiplay::network::{Dataset, NeuronNetwork};
use aiplay::{train, GradientStrategy, NnError, ParamInit, TrainConfig};

fn fx(i: i64) -> Fix {
    Fix::from_int(i)
}

fn vec_of(raws: &[i64]) -> ColumnVec {
    let entries: Vec<Fix> = raws.iter().map(|r| Fix::from_raw(*r)).collect();
    ColumnVec::from_slice(&entries)
}

fn rate_tenth() -> Fix {
    Fix::from_raw(6554)
}

fn constant_net(sizes: &[usize], w: Fix) -> NeuronNetwork {
    NeuronNetwork::new(&sizes.to_vec(), ParamInit::Constant(w)).unwrap()
}

/// The engine's weighted input of a neuron fed by `inputs` with all
/// weights `w`: the left-to-right dot product, then the bias weight.
fn pre_activation(inputs: &[Fix], w: Fix) -> Fix {
    let mut acc = Fix::zero();
    for x in inputs {
        acc = acc.add(x.mul(w));
    }
    acc.add(w)
}

#[test]
fn feature() {
    let half = Fix::half();
    let mut nn = constant_net(&[2, 1, 1], half);

    assert_eq!(nn.num_layers(), 2);
    assert_eq!(nn.layer(0).weights().num_columns(), 1);
    assert_eq!(nn.layer(0).weights().num_rows(), 3);
    assert_eq!(nn.layer(0).outputs().len(), 1);
    assert_eq!(nn.layer(1).weights().num_columns(), 1);
    assert_eq!(nn.layer(1).weights().num_rows(), 2);
    assert_eq!(nn.layer(1).outputs().len(), 1);

    let inputs = vec_of(&[0, 65536]);
    let expected = vec_of(&[65536]);

    nn.forward_pass(&inputs);

    let al0 = sigmoid(pre_activation(&[Fix::zero(), Fix::one()], half));
    assert_eq!(nn.layer(0).outputs().get(0), al0);

    let al1 = sigmoid(pre_activation(&[al0], half));
    assert_eq!(nn.layer(1).outputs().get(0), al1);

    nn.backward_pass(&inputs, &expected);

    // Output layer delta: 2 * (a - y) * a * (1 - a).
    let dl1a0 = Fix::two().mul(al1.sub(Fix::one())).mul(al1).mul(Fix::one().sub(al1));
    assert_eq!(nn.layer(1).deltas().get(0), dl1a0);
    assert_eq!(nn.layer(1).gradient().get_cell(0, 0), Fix::zero().add(dl1a0.mul(al0)));

    // Hidden layer delta: a * (1 - a) * (delta_next * w).
    let dl0a0 = dsigmoid(al0).mul(Fix::zero().add(dl1a0.mul(half)));
    assert_eq!(nn.layer(0).deltas().get(0), dl0a0);
    assert_eq!(
        nn.layer(0).gradient().get_cell(0, 0),
        Fix::zero().add(dl0a0.mul(inputs.get(0)))
    );

    let rate = rate_tenth();
    nn.flush_weights(rate).unwrap();

    // Weight update: w - rate * gradient / examples.
    assert_eq!(
        nn.layer(1).weights().get_cell(0, 0),
        half.sub(rate.mul(dl1a0.mul(al0)).div_count(1))
    );
    assert_eq!(
        nn.layer(1).weights().get_cell(1, 0),
        half.sub(rate.mul(dl1a0.mul(Fix::one())).div_count(1))
    );
    assert_eq!(
        nn.layer(0).weights().get_cell(1, 0),
        half.sub(rate.mul(dl0a0.mul(inputs.get(1))).div_count(1))
    );
    assert_eq!(
        nn.layer(0).weights().get_cell(2, 0),
        half.sub(rate.mul(dl0a0.mul(Fix::one())).div_count(1))
    );
    // Both layers flushed to an empty accumulator.
    assert_eq!(nn.layer(0).examples_seen(), 0);
    assert_eq!(nn.layer(0).gradient().get_cell(0, 0), Fix::zero());
}

#[test]
fn simple() {
    let half = Fix::half();
    let mut nn = constant_net(&[2, 1], half);

    assert_eq!(nn.layer(0).weights().num_columns(), 1);
    assert_eq!(nn.layer(0).weights().num_rows(), 3);
    assert_eq!(nn.layer(0).outputs().len(), 1);

    let inputs = vec_of(&[0, 65536]);
    let expected = vec_of(&[65536]);

    nn.forward_pass(&inputs);
    let al0 = sigmoid(pre_activation(&[Fix::zero(), Fix::one()], half));
    assert_eq!(nn.layer(0).outputs().get(0), al0);

    for _ in 0..1000 {
        nn.forward_pass(&inputs);
        nn.backward_pass(&inputs, &expected);
    }
    nn.backward_pass(&inputs, &expected);

    // With no flush in between, the weights never move, so every pass
    // recomputes the same delta.
    let dl0a0 = Fix::two().mul(al0.sub(Fix::one())).mul(al0).mul(Fix::one().sub(al0));
    assert_eq!(nn.layer(0).deltas().get(0), dl0a0);
    assert_eq!(nn.layer(0).examples_seen(), 1001);
    // Cell (1, 0) accumulates delta * input[1] = delta once per example.
    assert_eq!(
        nn.layer(0).gradient().get_cell(1, 0).raw(),
        1001 * dl0a0.mul(Fix::one()).raw()
    );

    let rate = rate_tenth();
    let g10 = nn.layer(0).gradient().get_cell(1, 0);
    nn.flush_weights(rate).unwrap();
    assert_eq!(
        nn.layer(0).weights().get_cell(1, 0),
        half.sub(rate.mul(g10).div_count(1001))
    );
    assert_eq!(nn.layer(0).examples_seen(), 0);
}

#[test]
fn cost_simple_test() {
    let half = Fix::half();
    let mut nn = constant_net(&[2, 1], half);
    let data: Dataset = vec![(vec_of(&[65536, 0]), vec_of(&[65536]))];

    let a = sigmoid(pre_activation(&[Fix::one(), Fix::zero()], half));
    let d = a.sub(Fix::one());
    let expected_cost = d.mul(d).div_count(1).div_count(1);
    let got = nn.cost(&data).unwrap();
    assert_eq!(got, expected_cost);
    // The same value as a golden constant: about 0.0723.
    assert_eq!(got.raw(), 4740);
}

#[test]
fn get_gradient_back_propagation_test() {
    let mut nn = constant_net(&[4, 3, 2, 1], Fix::one());
    let data: Dataset = vec![(vec_of(&[65536, 13107, 32768, 45875]), vec_of(&[65536]))];
    assert_eq!(nn.train_step(&data, rate_tenth()), Ok(()));
    // One flushed batch leaves a clean accumulator behind.
    assert_eq!(nn.layer(0).examples_seen(), 0);
}

#[test]
fn forward_on_constant_weights_matches_sigmoid_of_weighted_sum() {
    let half = Fix::half();
    let mut nn = constant_net(&[2, 1], half);
    let inputs = vec_of(&[0, 65536]);
    nn.forward_pass(&inputs);
    let expected = sigmoid(pre_activation(&[Fix::zero(), Fix::one()], half));
    assert_eq!(nn.output().get(0), expected);
}

#[test]
fn forward_pass_is_idempotent() {
    let mut nn = NeuronNetwork::random(&vec![3, 4, 2]).unwrap();
    let inputs = vec_of(&[65536, 0, 32768]);
    nn.forward_pass(&inputs);
    let first: Vec<i64> = (0..2).map(|i| nn.output().get(i).raw()).collect();
    nn.forward_pass(&inputs);
    let second: Vec<i64> = (0..2).map(|i| nn.output().get(i).raw()).collect();
    assert_eq!(first, second);
}

#[test]
fn flush_without_accumulated_gradient_is_rejected() {
    let mut nn = constant_net(&[2, 1], Fix::half());
    let rate = rate_tenth();
    // Fresh network: nothing accumulated yet.
    assert_eq!(nn.flush_weights(rate), Err(NnError::EmptyGradient));

    let inputs = vec_of(&[65536, 0]);
    let expected = vec_of(&[65536]);
    nn.forward_pass(&inputs);
    nn.backward_pass(&inputs, &expected);
    assert_eq!(nn.flush_weights(rate), Ok(()));
    // A second flush immediately after must fail, not divide by zero.
    assert_eq!(nn.flush_weights(rate), Err(NnError::EmptyGradient));
}

#[test]
fn backprop_and_finite_difference_gradients_agree() {
    let half = Fix::half();
    let data: Dataset = vec![(vec_of(&[65536, 0]), vec_of(&[65536]))];

    let mut analytic = constant_net(&[2, 2, 1], half);
    let (inputs, expected) = (&data[0].0, &data[0].1);
    analytic.forward_pass(inputs);
    analytic.backward_pass(inputs, expected);

    let mut numerical = constant_net(&[2, 2, 1], half);
    let epsilon = Fix::from_raw(1024);
    numerical
        .accumulate_gradient_finite_difference(&data, epsilon)
        .unwrap();

    for l in 0..2 {
        let rows = analytic.layer(l).gradient().num_rows();
        let cols = analytic.layer(l).gradient().num_columns();
        for r in 0..rows {
            for c in 0..cols {
                let bp = analytic.layer(l).gradient().get_cell(r, c).raw();
                let fd = numerical.layer(l).gradient().get_cell(r, c).raw();
                // Agreement within 0.02 units.
                assert!((bp - fd).abs() <= 1311, "layer {l} cell ({r},{c}): {bp} vs {fd}");
            }
        }
    }
}

#[test]
fn cost_is_reduced_by_training_on_a_separable_example() {
    let half = Fix::half();
    let mut nn = constant_net(&[2, 1], half);
    let data: Dataset = vec![(vec_of(&[65536, 0]), vec_of(&[65536]))];
    let costs = nn.train(&data, 30, Fix::half()).unwrap();
    assert_eq!(costs.len(), 30);
    assert!(costs[29].raw() < costs[0].raw());
    // The cost settles toward zero error on this single example.
    assert!(costs[29].raw() < 2000);
}

#[test]
fn training_with_finite_differences_also_reduces_cost() {
    let half = Fix::half();
    let mut nn = constant_net(&[2, 1], half);
    let data: Dataset = vec![(vec_of(&[65536, 0]), vec_of(&[65536]))];
    let costs = nn
        .train_numerical(&data, 20, Fix::half(), Fix::from_raw(1024))
        .unwrap();
    assert_eq!(costs.len(), 20);
    assert!(costs[19].raw() < costs[0].raw());
}

#[test]
fn cost_rejects_empty_and_misshaped_datasets() {
    let mut nn = constant_net(&[2, 1], Fix::half());
    let empty: Dataset = vec![];
    assert_eq!(nn.cost(&empty), Err(NnError::EmptyDataset));
    let bad_input: Dataset = vec![(vec_of(&[65536]), vec_of(&[65536]))];
    assert_eq!(nn.cost(&bad_input), Err(NnError::ShapeMismatch));
    let bad_output: Dataset = vec![(vec_of(&[65536, 0]), vec_of(&[65536, 0]))];
    assert_eq!(nn.cost(&bad_output), Err(NnError::ShapeMismatch));
    assert_eq!(nn.train_step(&bad_input, rate_tenth()), Err(NnError::ShapeMismatch));
    assert_eq!(nn.train_step(&empty, rate_tenth()), Err(NnError::EmptyDataset));
}

#[test]
fn construction_rejects_invalid_layer_specs() {
    assert_eq!(
        NeuronNetwork::new(&vec![2], ParamInit::Constant(Fix::half())).err(),
        Some(NnError::InvalidLayerSpec)
    );
    assert_eq!(
        NeuronNetwork::new(&vec![2, 0, 1], ParamInit::Constant(Fix::half())).err(),
        Some(NnError::InvalidLayerSpec)
    );
    assert!(NeuronNetwork::new(&vec![2, 3, 1], ParamInit::Constant(Fix::half())).is_ok());
}

#[test]
fn random_initialization_keeps_weights_in_unit_interval() {
    let nn = NeuronNetwork::random(&vec![3, 2, 1]).unwrap();
    for l in 0..nn.num_layers() {
        let rows = nn.layer(l).weights().num_rows();
        let cols = nn.layer(l).weights().num_columns();
        for r in 0..rows {
            for c in 0..cols {
                let raw = nn.get_weight(l, r, c).raw();
                assert!(raw >= 0 && raw < 65536);
            }
        }
    }
}

#[test]
fn get_activations_returns_every_layer_output() {
    let mut nn = constant_net(&[2, 3, 1], Fix::half());
    let inputs = vec_of(&[65536, 32768]);
    let acts = nn.get_activations(&inputs);
    assert_eq!(acts.len(), 2);
    assert_eq!(acts[0].len(), 3);
    assert_eq!(acts[1].len(), 1);
    for i in 0..3 {
        assert_eq!(acts[0].get(i), nn.layer(0).outputs().get(i));
    }
    assert_eq!(acts[1].get(0), nn.output().get(0));
}

#[test]
fn get_model_exposes_the_weight_matrices() {
    let nn = constant_net(&[2, 2, 1], Fix::half());
    let model = nn.get_model();
    assert_eq!(model.len(), 2);
    assert_eq!(model[0].num_rows(), 3);
    assert_eq!(model[0].num_columns(), 2);
    assert_eq!(model[1].num_rows(), 3);
    assert_eq!(model[1].num_columns(), 1);
    assert_eq!(model[0].get_cell(0, 0), Fix::half());
}

#[test]
fn train_driver_runs_both_strategies() {
    let data: Dataset = vec![
        (vec_of(&[0, 0]), vec_of(&[0])),
        (vec_of(&[0, 65536]), vec_of(&[65536])),
        (vec_of(&[65536, 0]), vec_of(&[65536])),
        (vec_of(&[65536, 65536]), vec_of(&[65536])),
    ];
    let config = TrainConfig {
        rate: Fix::half(),
        nr_of_iterations: 25,
        init: ParamInit::Constant(Fix::half()),
        hidden_layers: vec![],
        strategy: GradientStrategy::Backprop,
    };
    let (net, costs) = train(&config, &data).unwrap();
    assert_eq!(net.num_layers(), 1);
    assert_eq!(costs.len(), 25);
    assert!(costs[24].raw() < costs[0].raw());

    let fd_config = TrainConfig {
        rate: Fix::half(),
        nr_of_iterations: 10,
        init: ParamInit::Constant(Fix::half()),
        hidden_layers: vec![2],
        strategy: GradientStrategy::FiniteDifference(Fix::from_raw(1024)),
    };
    let (fd_net, fd_costs) = train(&fd_config, &data).unwrap();
    assert_eq!(fd_net.num_layers(), 2);
    assert_eq!(fd_costs.len(), 10);
}

#[test]
fn train_driver_reports_configuration_errors() {
    let config = TrainConfig {
        rate: rate_tenth(),
        nr_of_iterations: 3,
        init: ParamInit::Constant(Fix::half()),
        hidden_layers: vec![],
        strategy: GradientStrategy::Backprop,
    };
    let empty: Dataset = vec![];
    assert!(matches!(train(&config, &empty), Err(NnError::EmptyDataset)));

    let bad_hidden = TrainConfig {
        hidden_layers: vec![0],
        ..config.clone()
    };
    let data: Dataset = vec![(vec_of(&[65536, 0]), vec_of(&[65536]))];
    assert!(matches!(train(&bad_hidden, &data), Err(NnError::InvalidLayerSpec)));

    let ragged: Dataset = vec![
        (vec_of(&[65536, 0]), vec_of(&[65536])),
        (vec_of(&[65536]), vec_of(&[65536])),
    ];
    assert!(matches!(train(&config, &ragged), Err(NnError::ShapeMismatch)));
}
