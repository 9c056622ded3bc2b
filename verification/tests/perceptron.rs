use numkit::error::DimensionMismatch;
use numkit::perceptron::{Layer, Network, Node};
use numkit::scalar::Scalar;

/// A single-precision number, with the arithmetic of the machine.
#[derive(Clone, Copy, Debug, PartialEq)]
struct Real(f32);

impl Scalar for Real {
    fn zero_spec() -> Real {
        Real(0.)
    }

    fn one_spec() -> Real {
        Real(1.)
    }

    fn plus_spec(self, other: Real) -> Real {
        Real(self.0 + other.0)
    }

    fn minus_spec(self, other: Real) -> Real {
        Real(self.0 - other.0)
    }

    fn times_spec(self, other: Real) -> Real {
        Real(self.0 * other.0)
    }

    fn negate_spec(self) -> Real {
        Real(-self.0)
    }

    fn is_non_negative_spec(self) -> bool {
        self.0 >= 0.
    }

    fn zero() -> Real {
        Real(0.)
    }

    fn one() -> Real {
        Real(1.)
    }

    fn plus(self, other: Real) -> Real {
        Real(self.0 + other.0)
    }

    fn minus(self, other: Real) -> Real {
        Real(self.0 - other.0)
    }

    fn times(self, other: Real) -> Real {
        Real(self.0 * other.0)
    }

    fn negate(self) -> Real {
        Real(-self.0)
    }

    fn is_non_negative(self) -> bool {
        self.0 >= 0.
    }
}

fn reals(values: &[f32]) -> Vec<Real> {
    values.iter().map(|v| Real(*v)).collect()
}

fn real_node(weights: &[f32], bias: f32) -> Node<Real> {
    Node {
        weights: reals(weights),
        bias: Real(bias),
    }
}

fn node(weights: &[i64], bias: i64) -> Node<i64> {
    Node {
        weights: weights.to_vec(),
        bias: bias,
    }
}

fn half_adder() -> Network<i64> {
    let l1 = Layer {
        nodes: vec![node(&[1, -1], -1), node(&[-1, 1], -1), node(&[1, 1], -2)],
    };
    let l2 = Layer {
        nodes: vec![node(&[0, 0, 1], -1), node(&[1, 1, 0], -1)],
    };
    Network {
        layers: vec![l1, l2],
    }
}

#[test]
fn test_perceptron() {
    let p_and = real_node(&[0.5, 0.5], -1.);
    let input1 = reals(&[0.0, 0.0]);
    let input2 = reals(&[0.0, 1.0]);
    let input3 = reals(&[1.0, 0.0]);
    let input4 = reals(&[1.0, 1.0]);

    // Test AND Perceptron
    assert_eq!(p_and.activate(&input1), Ok(Real(0.)));
    assert_eq!(p_and.activate(&input2), Ok(Real(0.)));
    assert_eq!(p_and.activate(&input3), Ok(Real(0.)));
    assert_eq!(p_and.activate(&input4), Ok(Real(1.)));

    let p_or = real_node(&[1., 1.], -1.);

    let l0 = Layer {
        nodes: vec![p_and, p_or],
    };

    // Test AND and OR gates in one layer
    assert_eq!(l0.activate(&input1), Ok(reals(&[0., 0.])));
    assert_eq!(l0.activate(&input2), Ok(reals(&[0., 1.])));
    assert_eq!(l0.activate(&input3), Ok(reals(&[0., 1.])));
    assert_eq!(l0.activate(&input4), Ok(reals(&[1., 1.])));

    let p_1 = real_node(&[1., -1.], -1.);
    let p_2 = real_node(&[-1., 1.], -1.);
    let p_3 = real_node(&[1., 1.], -2.);
    let p_4 = real_node(&[0., 0., 1.], -1.);
    let p_5 = real_node(&[1., 1., 0.], -1.);

    let l1 = Layer {
        nodes: vec![p_1, p_2, p_3],
    };
    let l2 = Layer {
        nodes: vec![p_4, p_5],
    };
    let n1 = Network {
        layers: vec![l1, l2],
    };

    // Test half adder
    assert_eq!(n1.activate(input1.clone()), Ok(reals(&[0., 0.])));
    assert_eq!(n1.activate(input2.clone()), Ok(reals(&[0., 1.])));
    assert_eq!(n1.activate(input3.clone()), Ok(reals(&[0., 1.])));
    assert_eq!(n1.activate(input4.clone()), Ok(reals(&[1., 0.])));
}

#[test]
fn and_gate_over_the_integers() {
    let p_and = node(&[1, 1], -2);
    assert_eq!(p_and.activate(&vec![0, 0]), Ok(0));
    assert_eq!(p_and.activate(&vec![0, 1]), Ok(0));
    assert_eq!(p_and.activate(&vec![1, 0]), Ok(0));
    assert_eq!(p_and.activate(&vec![1, 1]), Ok(1));
}

#[test]
fn or_gate_over_the_integers() {
    let p_or = node(&[1, 1], -1);
    assert_eq!(p_or.activate(&vec![0, 0]), Ok(0));
    assert_eq!(p_or.activate(&vec![0, 1]), Ok(1));
    assert_eq!(p_or.activate(&vec![1, 0]), Ok(1));
    assert_eq!(p_or.activate(&vec![1, 1]), Ok(1));
}

#[test]
fn half_adder_over_the_integers() {
    let n1 = half_adder();
    assert_eq!(n1.activate(vec![0, 0]), Ok(vec![0, 0]));
    assert_eq!(n1.activate(vec![0, 1]), Ok(vec![0, 1]));
    assert_eq!(n1.activate(vec![1, 0]), Ok(vec![0, 1]));
    assert_eq!(n1.activate(vec![1, 1]), Ok(vec![1, 0]));
}

#[test]
fn a_weighted_sum_of_exactly_zero_fires() {
    assert_eq!(node(&[2, -3], 1).activate(&vec![1, 1]), Ok(1));
    assert_eq!(node(&[2, -3], 0).activate(&vec![1, 1]), Ok(0));
    assert_eq!(node(&[], 0).activate(&vec![]), Ok(1));
    assert_eq!(node(&[], -1).activate(&vec![]), Ok(0));
}

#[test]
fn a_perceptron_activated_twice_gives_the_same_output() {
    let n1 = half_adder();
    let first = n1.activate(vec![1, 0]);
    let second = n1.activate(vec![1, 0]);
    assert_eq!(first, second);
    let p = real_node(&[0.25, -0.75], 0.125);
    let input = reals(&[3.5, 1.0]);
    assert_eq!(p.activate(&input), p.activate(&input));
}

#[test]
fn a_perceptron_node_refuses_an_input_of_another_length() {
    let p_and = node(&[1, 1], -2);
    assert_eq!(
        p_and.activate(&vec![1]),
        Err(DimensionMismatch {
            expected: 2,
            found: 1
        })
    );
    assert_eq!(
        p_and.activate(&vec![1, 1, 1]),
        Err(DimensionMismatch {
            expected: 2,
            found: 3
        })
    );
    assert_eq!(
        p_and.activate(&vec![]),
        Err(DimensionMismatch {
            expected: 2,
            found: 0
        })
    );
}

#[test]
fn a_layer_reports_its_first_unfit_node() {
    let layer = Layer {
        nodes: vec![node(&[1, 1], 0), node(&[1, 1, 1], 0), node(&[1], 0)],
    };
    assert_eq!(
        layer.activate(&vec![1, 1]),
        Err(DimensionMismatch {
            expected: 3,
            found: 2
        })
    );
    assert_eq!(
        layer.activate(&vec![1]),
        Err(DimensionMismatch {
            expected: 2,
            found: 1
        })
    );
}

#[test]
fn a_network_reports_the_first_layer_that_cannot_read_the_one_before() {
    let n1 = half_adder();
    assert_eq!(
        n1.activate(vec![1]),
        Err(DimensionMismatch {
            expected: 2,
            found: 1
        })
    );
    let broken = Network {
        layers: vec![
            Layer {
                nodes: vec![node(&[1], 0), node(&[1], 0)],
            },
            Layer {
                nodes: vec![node(&[1, 1], 0), node(&[1, 1, 1], 0)],
            },
        ],
    };
    assert_eq!(
        broken.activate(vec![1]),
        Err(DimensionMismatch {
            expected: 3,
            found: 2
        })
    );
}

#[test]
fn a_network_without_layers_hands_its_input_back() {
    let empty: Network<i64> = Network { layers: vec![] };
    assert_eq!(empty.activate(vec![4, 5, 6]), Ok(vec![4, 5, 6]));
}

#[test]
fn a_layer_without_nodes_puts_out_nothing() {
    let layer: Layer<i64> = Layer { nodes: vec![] };
    assert_eq!(layer.activate(&vec![1, 2]), Ok(vec![]));
}

#[test]
fn integer_sums_stop_at_the_ends_of_the_range() {
    // the sum would be 2 * i64::MAX - 1: it stays at i64::MAX, and the node fires
    assert_eq!(node(&[i64::MAX, i64::MAX], -1).activate(&vec![1, 1]), Ok(1));
    // i64::MAX * 2 stays at i64::MAX, so that adding i64::MIN gives -1
    assert_eq!(node(&[i64::MAX], i64::MIN).activate(&vec![2]), Ok(0));
    assert_eq!(node(&[i64::MIN], i64::MAX).activate(&vec![2]), Ok(0));
}
