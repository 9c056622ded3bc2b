use numkit::activation::{Activation, Threshold};
use numkit::error::DimensionMismatch;
use numkit::neuron::{Layer, Network, Node};
use numkit::scalar::Scalar;
use rand::Rng;

/// A single-precision number, with the arithmetic of the machine.
#[derive(Clone, Copy, Debug, PartialEq)]
struct Real(f32);

impl Scalar for Real {
    fn zero_spec() -> Real {
        Real(0.)
    }

    fn one_spec() -> Real {
        Real(1.)
    }

    fn plus_spec(self, other: Real) -> Real {
        Real(self.0 + other.0)
    }

    fn minus_spec(self, other: Real) -> Real {
        Real(self.0 - other.0)
    }

    fn times_spec(self, other: Real) -> Real {
        Real(self.0 * other.0)
    }

    fn negate_spec(self) -> Real {
        Real(-self.0)
    }

    fn is_non_negative_spec(self) -> bool {
        self.0 >= 0.
    }

    fn zero() -> Real {
        Real(0.)
    }

    fn one() -> Real {
        Real(1.)
    }

    fn plus(self, other: Real) -> Real {
        Real(self.0 + other.0)
    }

    fn minus(self, other: Real) -> Real {
        Real(self.0 - other.0)
    }

    fn times(self, other: Real) -> Real {
        Real(self.0 * other.0)
    }

    fn negate(self) -> Real {
        Real(-self.0)
    }

    fn is_non_negative(self) -> bool {
        self.0 >= 0.
    }
}

/// The logistic function.
struct Sigmoid;

impl Activation<Real> for Sigmoid {
    fn apply_spec(total: Real) -> Real {
        Real(1. / (1. + std::f32::consts::E.powf(-total.0)))
    }

    fn apply(total: Real) -> Real {
        Real(1. / (1. + std::f32::consts::E.powf(-total.0)))
    }
}

/// The activation that hands the weighted sum on as it is, for exact expected values.
struct Linear;

impl Activation<i64> for Linear {
    fn apply_spec(total: i64) -> i64 {
        total
    }

    fn apply(total: i64) -> i64 {
        total
    }
}

type SigmoidNode = Node<Real, Sigmoid>;
type LinearNode = Node<i64, Linear>;

fn reals(values: &[f32]) -> Vec<Real> {
    values.iter().map(|v| Real(*v)).collect()
}

fn sigmoid_node(weights: &[f32], bias: f32) -> SigmoidNode {
    Node::new(reals(weights), Real(bias), Real(0.1))
}

fn linear_node(weights: &[i64], bias: i64, learning_rate: i64) -> LinearNode {
    Node::new(weights.to_vec(), bias, learning_rate)
}

fn logistic(z: f32) -> f32 {
    1. / (1. + (-z).exp())
}

fn mismatch(expected: usize, found: usize) -> DimensionMismatch {
    DimensionMismatch { expected, found }
}

/// Two input numbers, two inner units, one output unit.
fn linear_network() -> Network<i64, Linear> {
    let hidden = Layer::new(vec![linear_node(&[1, 2], 1, 1), linear_node(&[1, 1], 0, 2)]);
    let output = Layer::new(vec![linear_node(&[2, -3], 1, 1)]);
    Network::new(vec![hidden, output])
}

fn and_gate_network(w0: f32, w1: f32, bias: f32) -> Network<Real, Sigmoid> {
    Network::new(vec![Layer::new(vec![sigmoid_node(&[w0, w1], bias)])])
}

fn and_gate_loss(network: &mut Network<Real, Sigmoid>) -> f32 {
    let inputs = [[0., 0.], [0., 1.], [1., 0.], [1., 1.]];
    let targets = [0., 0., 0., 1.];
    let mut sum = 0.;
    for (input, target) in inputs.iter().zip(targets.iter()) {
        let output = network.activate(&reals(input)).unwrap()[0].0;
        sum += (output - target) * (output - target);
    }
    sum / 4.
}

fn weights_of<T: Copy, A>(network: &Network<T, A>) -> Vec<Vec<Vec<T>>> {
    network
        .layers
        .iter()
        .map(|l| l.nodes.iter().map(|n| n.weights.clone()).collect())
        .collect()
}

fn biases_of<T: Copy, A>(network: &Network<T, A>) -> Vec<Vec<T>> {
    network
        .layers
        .iter()
        .map(|l| l.nodes.iter().map(|n| n.bias).collect())
        .collect()
}

#[test]
fn test_neuron() {
    let mut rng = rand::thread_rng();

    let n_1: SigmoidNode = Node::new(
        (0..2).map(|_| Real(rng.gen())).collect(),
        Real(rng.gen()),
        Real(0.1),
    );
    let n_2: SigmoidNode = Node::new(
        (0..2).map(|_| Real(rng.gen())).collect(),
        Real(rng.gen()),
        Real(0.1),
    );
    let n_3: SigmoidNode = Node::new(
        (0..2).map(|_| Real(rng.gen())).collect(),
        Real(rng.gen()),
        Real(0.1),
    );
    let n_4: SigmoidNode = Node::new(
        (0..2).map(|_| Real(rng.gen())).collect(),
        Real(rng.gen()),
        Real(0.1),
    );
    let n_5: SigmoidNode = Node::new(
        (0..2).map(|_| Real(rng.gen())).collect(),
        Real(rng.gen()),
        Real(0.1),
    );

    let l1 = Layer::new(vec![n_1, n_2, n_3]);
    let l2 = Layer::new(vec![n_4, n_5]);
    let network = Network::new(vec![l1, l2]);

    let input1 = reals(&[0.0, 0.0]);
    let input2 = reals(&[0.0, 1.0]);
    let input3 = reals(&[1.0, 0.0]);
    let input4 = reals(&[1.0, 1.0]);
    let target1 = reals(&[0., 0.]);
    let target2 = reals(&[0., 1.]);
    let target3 = reals(&[0., 1.]);
    let target4 = reals(&[1., 0.]);

    let inputs = vec![&input1, &input2, &input3, &input4];
    let targets = vec![&target1, &target2, &target3, &target4];
    assert_eq!(inputs.len(), targets.len());
    assert_eq!(network.layers.len(), 2);
}

#[test]
fn a_node_puts_out_the_logistic_function_of_its_weighted_sum() {
    let cases: [(f32, f32, f32); 7] = [
        (0., 0., 0.),
        (1., 0., 1.),
        (0.5, -1., 2.),
        (-2., 0.25, 3.),
        (3., 1.5, -0.5),
        (0.1, 10., 0.),
        (-4., -4., 1.),
    ];
    for (w, b, x) in cases {
        let mut node = sigmoid_node(&[w], b);
        let output = node.activate(&reals(&[x])).unwrap();
        let expected = 1. / (1. + (-(w * x + b) as f64).exp());
        assert!(
            (output.0 as f64 - expected).abs() < 1e-6,
            "w = {}, b = {}, x = {}: {} and {}",
            w,
            b,
            x,
            output.0,
            expected
        );
        assert_eq!(node.output, output);
    }
    let mut half = sigmoid_node(&[1.], 0.);
    assert_eq!(half.activate(&reals(&[0.])), Ok(Real(0.5)));
}

#[test]
fn a_new_node_has_put_out_nothing_yet() {
    let node = linear_node(&[4, 5], 6, 7);
    assert_eq!(node.weights, vec![4, 5]);
    assert_eq!(node.bias, 6);
    assert_eq!(node.learning_rate, 7);
    assert_eq!(node.output, 0);
    assert_eq!(node.error, 0);
    assert_eq!(node.delta_weights, Vec::<i64>::new());
    assert_eq!(node.delta_bias, 0);
    assert_eq!(node.gradients, Vec::<i64>::new());
    let layer = Layer::new(vec![node]);
    assert_eq!(layer.activations, Vec::<i64>::new());
    assert_eq!(layer.errors, Vec::<i64>::new());
    let network = Network::new(vec![layer]);
    assert_eq!(network.output, Vec::<i64>::new());
}

#[test]
fn a_node_follows_the_formulas_step_by_step() {
    let mut node = linear_node(&[2, 3], 1, 2);
    // 2 * 4 + 3 * 5 + 1
    assert_eq!(node.activate(&vec![4, 5]), Ok(24));
    assert_eq!(node.output, 24);
    assert_eq!(node.sigmoid(&-9), -9);
    // 24 * (1 - 24)
    assert_eq!(node.d_sigmoid(&24), -552);
    assert_eq!(node.d_sigmoid(&1), 0);
    assert_eq!(node.d_sigmoid(&0), 0);
    // -552 * -(20 - 24)
    node.error_output(&20);
    assert_eq!(node.error, -2208);
    assert_eq!(node.calculate_gradients(&vec![4, 5]), Ok(()));
    assert_eq!(node.gradients, vec![-8832, -11040]);
    assert_eq!(node.calculate_delta_weights(), Ok(()));
    assert_eq!(node.delta_weights, vec![-17664, -22080]);
    node.calculate_delta_bias();
    assert_eq!(node.delta_bias, -4416);
    assert_eq!(node.weights, vec![2, 3]);
    assert_eq!(node.update_weights(), Ok(()));
    assert_eq!(node.weights, vec![17666, 22083]);
    assert_eq!(node.bias, 1);
    node.update_bias();
    assert_eq!(node.bias, 4417);
    // -552 * (7 * 1 + -2 * 3)
    assert_eq!(node.error_hidden(&vec![7, -2], &vec![1, 3]), Ok(()));
    assert_eq!(node.error, -552);
}

#[test]
fn a_node_refuses_lengths_that_do_not_go_together() {
    let mut node = linear_node(&[2, 3], 1, 2);
    assert_eq!(node.activate(&vec![4]), Err(mismatch(2, 1)));
    assert_eq!(node.activate(&vec![4, 5, 6]), Err(mismatch(2, 3)));
    assert_eq!(node.output, 0);
    assert_eq!(
        node.error_hidden(&vec![1, 2, 3], &vec![1, 2]),
        Err(mismatch(3, 2))
    );
    assert_eq!(node.error, 0);
    assert_eq!(node.calculate_gradients(&vec![1]), Err(mismatch(2, 1)));
    assert_eq!(node.gradients, Vec::<i64>::new());
    // no gradients yet
    assert_eq!(node.calculate_delta_weights(), Err(mismatch(2, 0)));
    // no steps yet
    assert_eq!(node.update_weights(), Err(mismatch(2, 0)));
    assert_eq!(node.weights, vec![2, 3]);
}

#[test]
fn a_layer_activates_every_node_on_the_same_input() {
    let mut layer = Layer::new(vec![
        linear_node(&[1, 2], 1, 1),
        linear_node(&[1, 1], 0, 2),
        linear_node(&[0, -1], 5, 1),
    ]);
    assert_eq!(layer.activate(&vec![1, 2]), Ok(&vec![6, 3, 3]));
    assert_eq!(layer.activations, vec![6, 3, 3]);
    assert_eq!(layer.nodes[0].output, 6);
    assert_eq!(layer.nodes[1].output, 3);
    assert_eq!(layer.nodes[2].output, 3);
    assert_eq!(
        layer.weights(),
        vec![vec![1, 2], vec![1, 1], vec![0, -1]]
    );
}

#[test]
fn a_layer_refuses_an_input_that_a_node_cannot_read_and_changes_nothing() {
    let mut layer = Layer::new(vec![
        linear_node(&[1, 2], 1, 1),
        linear_node(&[1, 1, 1], 0, 2),
        linear_node(&[1], 0, 2),
    ]);
    assert_eq!(layer.activate(&vec![1, 2]), Err(mismatch(3, 2)));
    assert_eq!(layer.nodes[0].output, 0);
    assert_eq!(layer.activations, Vec::<i64>::new());
    assert_eq!(layer.calculcate_gradients(&vec![1, 2]), Err(mismatch(3, 2)));
    assert_eq!(layer.nodes[0].gradients, Vec::<i64>::new());
    assert_eq!(layer.calculcate_gradients(&vec![1]), Err(mismatch(2, 1)));
}

#[test]
fn a_layer_gives_each_node_the_target_at_its_place() {
    let mut layer = Layer::new(vec![linear_node(&[1], 0, 1), linear_node(&[2], 0, 1)]);
    assert_eq!(layer.activate(&vec![3]), Ok(&vec![3, 6]));
    assert_eq!(layer.errors_output(&vec![1, 10]), Ok(()));
    // 3 * (1 - 3) * -(1 - 3) and 6 * (1 - 6) * -(10 - 6)
    assert_eq!(layer.errors, vec![-12, 120]);
    assert_eq!(layer.nodes[0].error, -12);
    assert_eq!(layer.nodes[1].error, 120);
    assert_eq!(layer.errors_output(&vec![1]), Err(mismatch(2, 1)));
    assert_eq!(layer.errors_output(&vec![1, 2, 3]), Err(mismatch(2, 3)));
    assert_eq!(layer.errors, vec![-12, 120]);
}

#[test]
fn a_layer_reads_the_columns_of_the_next_layer_s_weights() {
    let mut layer = Layer::new(vec![linear_node(&[1], 0, 1), linear_node(&[2], 0, 1)]);
    assert_eq!(layer.activate(&vec![3]), Ok(&vec![3, 6]));
    // the next layer has three nodes, each with one weight for each node of this layer
    let next_weights = vec![vec![1, 10], vec![2, 20], vec![3, 30]];
    let next_errors = vec![1, -1, 2];
    assert_eq!(layer.errors_hidden(&next_weights, &next_errors), Ok(()));
    // 3 * (1 - 3) * (1 - 2 + 6) and 6 * (1 - 6) * (10 - 20 + 60)
    assert_eq!(layer.errors, vec![-30, -1500]);
    assert_eq!(layer.nodes[0].error, -30);
    assert_eq!(layer.nodes[1].error, -1500);
}

#[test]
fn a_layer_refuses_rows_and_errors_that_do_not_go_together() {
    let mut layer = Layer::new(vec![linear_node(&[1], 0, 1), linear_node(&[2], 0, 1)]);
    assert_eq!(
        layer.errors_hidden(&vec![vec![1, 10], vec![2], vec![3, 30, 300]], &vec![1, 1, 1]),
        Err(mismatch(2, 1))
    );
    assert_eq!(
        layer.errors_hidden(&vec![vec![1, 10], vec![2, 20]], &vec![1, 1, 1]),
        Err(mismatch(2, 3))
    );
    assert_eq!(layer.errors, Vec::<i64>::new());
    // a layer without nodes reads no error
    let mut empty: Layer<i64, Linear> = Layer::new(vec![]);
    assert_eq!(
        empty.errors_hidden(&vec![vec![], vec![]], &vec![1, 1, 1]),
        Ok(())
    );
    assert_eq!(
        empty.errors_hidden(&vec![vec![], vec![1]], &vec![1, 1]),
        Err(mismatch(0, 1))
    );
}

#[test]
fn a_network_feeds_each_layer_with_the_output_of_the_one_before() {
    let mut network = linear_network();
    assert_eq!(network.activate(&vec![1, 2]), Ok(&vec![4]));
    assert_eq!(network.output, vec![4]);
    assert_eq!(network.layers[0].activations, vec![6, 3]);
    assert_eq!(network.layers[1].activations, vec![4]);
    let mut empty: Network<i64, Linear> = Network::new(vec![]);
    assert_eq!(empty.activate(&vec![7, 8]), Ok(&vec![7, 8]));
    assert_eq!(empty.output, vec![7, 8]);
}

#[test]
fn a_network_refuses_an_input_that_it_cannot_read_and_changes_nothing() {
    let mut network = linear_network();
    assert_eq!(network.activate(&vec![1, 2, 3]), Err(mismatch(2, 3)));
    assert_eq!(network.output, Vec::<i64>::new());
    assert_eq!(network.layers[0].activations, Vec::<i64>::new());
    let mut broken: Network<i64, Linear> = Network::new(vec![
        Layer::new(vec![linear_node(&[1], 0, 1), linear_node(&[1], 0, 1)]),
        Layer::new(vec![linear_node(&[1, 1, 1], 0, 1)]),
    ]);
    assert_eq!(broken.activate(&vec![5]), Err(mismatch(3, 2)));
    // the first layer could have read the input, and was not activated either
    assert_eq!(broken.layers[0].activations, Vec::<i64>::new());
    assert_eq!(broken.layers[0].nodes[0].output, 0);
}

#[test]
fn activating_twice_gives_the_same_output() {
    let mut network = linear_network();
    let first = network.activate(&vec![1, 2]).unwrap().clone();
    let second = network.activate(&vec![1, 2]).unwrap().clone();
    assert_eq!(first, second);
    let mut node = sigmoid_node(&[0.3, -0.7], 0.2);
    let input = reals(&[1.5, 2.5]);
    let once = node.activate(&input).unwrap();
    let twice = node.activate(&input).unwrap();
    assert_eq!(once, twice);
    let mut gate = and_gate_network(0.3, 0.9, -0.4);
    let once = gate.activate(&reals(&[1., 0.])).unwrap().clone();
    let twice = gate.activate(&reals(&[1., 0.])).unwrap().clone();
    assert_eq!(once, twice);
}

#[test]
fn backprop_sets_errors_from_the_last_layer_back_and_then_moves_the_weights() {
    let mut network = linear_network();
    let input = vec![1, 2];
    let target = vec![3];
    assert_eq!(network.activate(&input), Ok(&vec![4]));
    assert_eq!(network.backprop(&input, &target), Ok(()));

    let out = &network.layers[1].nodes[0];
    assert_eq!(out.error, -12);
    assert_eq!(out.gradients, vec![-72, -36]);
    assert_eq!(out.delta_weights, vec![-72, -36]);
    assert_eq!(out.delta_bias, -12);
    assert_eq!(out.weights, vec![74, 33]);
    assert_eq!(out.bias, 13);
    assert_eq!(network.layers[1].errors, vec![-12]);

    // the inner errors come from the output weights 2 and -3 as they were before the step
    let first = &network.layers[0].nodes[0];
    assert_eq!(first.error, 720);
    assert_eq!(first.gradients, vec![720, 1440]);
    assert_eq!(first.delta_weights, vec![720, 1440]);
    assert_eq!(first.delta_bias, 720);
    assert_eq!(first.weights, vec![-719, -1438]);
    assert_eq!(first.bias, -719);
    let second = &network.layers[0].nodes[1];
    assert_eq!(second.error, -216);
    assert_eq!(second.gradients, vec![-216, -432]);
    assert_eq!(second.delta_weights, vec![-432, -864]);
    assert_eq!(second.delta_bias, -432);
    assert_eq!(second.weights, vec![433, 865]);
    assert_eq!(second.bias, 432);
    assert_eq!(network.layers[0].errors, vec![720, -216]);

    // what the forward pass left behind stays
    assert_eq!(network.output, vec![4]);
    assert_eq!(network.layers[0].activations, vec![6, 3]);
    assert_eq!(network.layers[0].nodes[0].output, 6);
}

#[test]
fn backprop_refuses_a_target_of_another_length_and_changes_nothing() {
    let mut network = linear_network();
    let input = vec![1, 2];
    assert_eq!(network.activate(&input), Ok(&vec![4]));
    assert_eq!(network.backprop(&input, &vec![3, 3]), Err(mismatch(1, 2)));
    assert_eq!(network.backprop(&input, &vec![]), Err(mismatch(1, 0)));
    assert_eq!(weights_of(&network), vec![vec![vec![1, 2], vec![1, 1]], vec![vec![2, -3]]]);
    assert_eq!(biases_of(&network), vec![vec![1, 0], vec![1]]);
    assert_eq!(network.layers[1].errors, Vec::<i64>::new());
    assert_eq!(network.layers[1].nodes[0].error, 0);
}

#[test]
fn backprop_refuses_to_run_before_a_forward_pass() {
    let mut network = linear_network();
    // the second layer has read nothing yet: its node has two weights, the first layer has left
    // no outputs
    assert_eq!(network.backprop(&vec![1, 2], &vec![3]), Err(mismatch(2, 0)));
    assert_eq!(weights_of(&network), vec![vec![vec![1, 2], vec![1, 1]], vec![vec![2, -3]]]);
    assert_eq!(network.layers[1].nodes[0].error, 0);
    // an input of another length than the one of the forward pass
    assert_eq!(network.activate(&vec![1, 2]), Ok(&vec![4]));
    assert_eq!(network.backprop(&vec![1], &vec![3]), Err(mismatch(2, 1)));
    assert_eq!(weights_of(&network), vec![vec![vec![1, 2], vec![1, 1]], vec![vec![2, -3]]]);
}

#[test]
fn backprop_on_a_single_sigmoid_node() {
    let mut network = and_gate_network(0.5, 0.25, 0.);
    let input = reals(&[1., 0.]);
    let target = reals(&[1.]);
    let output = network.activate(&input).unwrap()[0].0;
    assert!((output - 0.62245935).abs() < 1e-6);
    assert_eq!(network.backprop(&input, &target), Ok(()));
    let node = &network.layers[0].nodes[0];
    let error = output * (1. - output) * -(1. - output);
    assert_eq!(node.error, Real(error));
    assert!((error - -0.0887237).abs() < 1e-6);
    assert_eq!(node.gradients, reals(&[error * 1., error * 0.]));
    assert_eq!(node.weights[0], Real(0.5 - 0.1 * (error * 1.)));
    assert_eq!(node.weights[1], Real(0.25 - 0.1 * (error * 0.)));
    assert_eq!(node.bias, Real(0. - 0.1 * error));
    assert!((node.weights[0].0 - 0.50887237).abs() < 1e-6);
    assert!((node.bias.0 - 0.00887237).abs() < 1e-6);
}

#[test]
fn an_epoch_is_a_forward_and_a_backward_pass_for_each_example_in_order() {
    let input1 = vec![1, 2];
    let input2 = vec![0, 1];
    let target1 = vec![3];
    let target2 = vec![-1];
    let mut by_epoch = linear_network();
    assert_eq!(
        by_epoch.epoch(&vec![&input1, &input2], &vec![&target1, &target2]),
        Ok(())
    );
    let mut by_hand = linear_network();
    by_hand.activate(&input1).unwrap();
    by_hand.backprop(&input1, &target1).unwrap();
    by_hand.activate(&input2).unwrap();
    by_hand.backprop(&input2, &target2).unwrap();
    assert_eq!(weights_of(&by_epoch), weights_of(&by_hand));
    assert_eq!(biases_of(&by_epoch), biases_of(&by_hand));
    assert_eq!(by_epoch.output, by_hand.output);
    // the order of the examples counts
    let mut other_way = linear_network();
    other_way
        .epoch(&vec![&input2, &input1], &vec![&target2, &target1])
        .unwrap();
    assert_ne!(weights_of(&by_epoch), weights_of(&other_way));
}

#[test]
fn an_epoch_refuses_examples_that_do_not_go_with_the_network_and_changes_nothing() {
    let input1 = vec![1, 2];
    let input2 = vec![0, 1];
    let short = vec![1];
    let target1 = vec![3];
    let long = vec![3, 3];
    let mut network = linear_network();
    // more inputs than targets
    assert_eq!(
        network.epoch(&vec![&input1, &input2], &vec![&target1]),
        Err(mismatch(2, 1))
    );
    // the second input is too short
    assert_eq!(
        network.epoch(&vec![&input1, &short], &vec![&target1, &target1]),
        Err(mismatch(2, 1))
    );
    // the second target is too long
    assert_eq!(
        network.epoch(&vec![&input1, &input2], &vec![&target1, &long]),
        Err(mismatch(1, 2))
    );
    assert_eq!(weights_of(&network), vec![vec![vec![1, 2], vec![1, 1]], vec![vec![2, -3]]]);
    assert_eq!(biases_of(&network), vec![vec![1, 0], vec![1]]);
    assert_eq!(network.output, Vec::<i64>::new());
    // no examples: nothing to do
    assert_eq!(network.epoch(&vec![], &vec![]), Ok(()));
    assert_eq!(weights_of(&network), vec![vec![vec![1, 2], vec![1, 1]], vec![vec![2, -3]]]);
}

#[test]
fn training_runs_the_epochs_one_after_the_other() {
    let input1 = reals(&[0., 1.]);
    let input2 = reals(&[1., 1.]);
    let target1 = reals(&[0.]);
    let target2 = reals(&[1.]);
    let inputs = vec![&input1, &input2];
    let targets = vec![&target1, &target2];
    let mut trained = and_gate_network(0.4, 0.6, 0.1);
    assert_eq!(trained.train(&inputs, &targets, 3), Ok(()));
    let mut by_epochs = and_gate_network(0.4, 0.6, 0.1);
    for _ in 0..3 {
        by_epochs.epoch(&inputs, &targets).unwrap();
    }
    assert_eq!(weights_of(&trained), weights_of(&by_epochs));
    assert_eq!(biases_of(&trained), biases_of(&by_epochs));
}

#[test]
fn training_for_no_epoch_does_nothing() {
    let input1 = vec![1, 2];
    let target1 = vec![3];
    let mut network = linear_network();
    assert_eq!(network.train(&vec![&input1], &vec![&target1], 0), Ok(()));
    // not even a look at the examples
    assert_eq!(network.train(&vec![&input1], &vec![], 0), Ok(()));
    assert_eq!(weights_of(&network), vec![vec![vec![1, 2], vec![1, 1]], vec![vec![2, -3]]]);
    assert_eq!(network.train(&vec![&input1], &vec![], 1), Err(mismatch(1, 0)));
    assert_eq!(weights_of(&network), vec![vec![vec![1, 2], vec![1, 1]], vec![vec![2, -3]]]);
}

#[test]
fn training_on_the_and_gate_lowers_the_loss() {
    let input1 = reals(&[0.0, 0.0]);
    let input2 = reals(&[0.0, 1.0]);
    let input3 = reals(&[1.0, 0.0]);
    let input4 = reals(&[1.0, 1.0]);
    let target0 = reals(&[0.]);
    let target1 = reals(&[1.]);
    let inputs = vec![&input1, &input2, &input3, &input4];
    let targets = vec![&target0, &target0, &target0, &target1];

    let mut network = and_gate_network(0.84, 0.76, 0.42);
    let before = and_gate_loss(&mut network);
    assert_eq!(network.train(&inputs, &targets, 100), Ok(()));
    let after_100 = and_gate_loss(&mut network);
    assert!(after_100 < before);

    assert_eq!(network.train(&inputs, &targets, 9_900), Ok(()));
    let after_10_000 = and_gate_loss(&mut network);
    assert!(after_10_000 < after_100);
    assert!(after_10_000 < 0.01);
    assert_eq!(network.activate(&input1).unwrap()[0].0.round(), 0.);
    assert_eq!(network.activate(&input2).unwrap()[0].0.round(), 0.);
    assert_eq!(network.activate(&input3).unwrap()[0].0.round(), 0.);
    assert_eq!(network.activate(&input4).unwrap()[0].0.round(), 1.);
}

#[test]
fn training_keeps_the_shape_of_the_network() {
    let input1 = vec![1, 2];
    let target1 = vec![3];
    let mut network = linear_network();
    network.train(&vec![&input1], &vec![&target1], 5).unwrap();
    let weights = weights_of(&network);
    assert_eq!(weights.len(), 2);
    assert_eq!(weights[0].len(), 2);
    assert_eq!(weights[0][0].len(), 2);
    assert_eq!(weights[0][1].len(), 2);
    assert_eq!(weights[1].len(), 1);
    assert_eq!(weights[1][0].len(), 2);
}

#[test]
fn a_threshold_network_computes_and_does_not_learn() {
    let node = |weights: &[i64], bias: i64| -> Node<i64, Threshold> {
        Node::new(weights.to_vec(), bias, 1)
    };
    let mut network = Network::new(vec![
        Layer::new(vec![node(&[1, -1], -1), node(&[-1, 1], -1), node(&[1, 1], -2)]),
        Layer::new(vec![node(&[0, 0, 1], -1), node(&[1, 1, 0], -1)]),
    ]);
    assert_eq!(network.activate(&vec![0, 0]), Ok(&vec![0, 0]));
    assert_eq!(network.activate(&vec![0, 1]), Ok(&vec![0, 1]));
    assert_eq!(network.activate(&vec![1, 0]), Ok(&vec![0, 1]));
    assert_eq!(network.activate(&vec![1, 1]), Ok(&vec![1, 0]));
    let before = weights_of(&network);
    // an output of 0 or 1 has the slope 0: every error vanishes
    assert_eq!(network.backprop(&vec![1, 1], &vec![0, 1]), Ok(()));
    assert_eq!(network.layers[1].errors, vec![0, 0]);
    assert_eq!(network.layers[0].errors, vec![0, 0, 0]);
    assert_eq!(weights_of(&network), before);
}

#[test]
fn the_logistic_helper_agrees_with_the_activation() {
    for z in [-3.0f32, -0.5, 0., 0.5, 3.] {
        let direct = <Sigmoid as Activation<Real>>::apply(Real(z)).0;
        assert!((direct - logistic(z)).abs() < 1e-6);
    }
}

#[test]
fn a_hundred_epochs_on_the_and_gate_may_leave_an_output_on_the_wrong_side() {
    let input1 = reals(&[0.0, 0.0]);
    let input2 = reals(&[0.0, 1.0]);
    let input3 = reals(&[1.0, 0.0]);
    let input4 = reals(&[1.0, 1.0]);
    let target0 = reals(&[0.]);
    let target1 = reals(&[1.]);
    let inputs = vec![&input1, &input2, &input3, &input4];
    let targets = vec![&target0, &target0, &target0, &target1];

    let mut network = and_gate_network(0.5, 0.5, 0.5);
    assert_eq!(network.train(&inputs, &targets, 100), Ok(()));
    let output = network.activate(&input4).unwrap()[0].0;
    assert!((output - 0.4932).abs() < 1e-3);
    assert_eq!(output.round(), 0.);
    assert!(and_gate_loss(&mut network) > 0.1);

    assert_eq!(network.train(&inputs, &targets, 900), Ok(()));
    assert_eq!(network.activate(&input4).unwrap()[0].0.round(), 1.);
}
