use petri_core::{Network, Neuron, PetriRand, Real};

fn r(x: f32) -> Real {
    Real::from_millionths((x as f64 * 1_000_000.0).round() as i64)
}

fn close(actual: Real, expected: f32) -> bool {
    (actual.to_millionths() as f64 / 1_000_000.0 - expected as f64).abs() < 1e-4
}

#[test]
fn neuron_random() {
    // Because we always use the same seed, the generator in here will
    // always return the same set of values.
    let mut rng = PetriRand::with_seed(0);
    let neuron = Neuron::random(&mut rng, 4);

    assert!(close(neuron.bias, 0.76540913));
    assert!(close(neuron.coefficient, -0.77652964));

    let expected_weights = [-0.63342346, 0.99109835, -0.90073605, 0.92655787];
    assert_eq!(neuron.weights.len(), 4);
    for (w, e) in neuron.weights.iter().zip(expected_weights.iter()) {
        assert!(close(*w, *e));
    }
}

#[test]
fn neuron_propagate() {
    let neuron = Neuron {
        bias: r(0.5),
        coefficient: r(0.1),
        weights: vec![r(-0.3), r(0.8)],
    };

    // The leaky activation scales a negative pre-activation by the
    // neuron's own coefficient:
    let low = neuron.propagate(&vec![r(-10.0), r(-10.0)]);
    assert_eq!(low, r(((-0.3 * -10.0) + (0.8 * -10.0) + 0.5) * 0.1));

    // `0.5` and `1.0` chosen by a fair dice roll:
    let high = neuron.propagate(&vec![r(0.5), r(1.0)]);
    assert_eq!(high, r((-0.3 * 0.5) + (0.8 * 1.0) + 0.5));
}

#[test]
fn neuron_from_weights() {
    let weights: Vec<Real> = vec![r(0.5), r(0.1), r(0.9), r(0.8), r(-0.1)];

    let neuron = Neuron::from_weights(3, &weights, 0);

    assert_eq!(neuron.bias, r(0.5));
    assert_eq!(neuron.coefficient, r(0.1));
    assert_eq!(neuron.weights, vec![r(0.9), r(0.8), r(-0.1)]);
}

#[test]
fn network_random() {
    let topology = vec![4, 2];
    let mut rng = PetriRand::with_seed(0);

    let network = Network::random(&mut rng, topology);

    assert_eq!(network.layers.len(), 2);
    assert_eq!(network.neurons[0].weights.len(), 4);
}

#[test]
fn network_propagate() {
    let inputs = vec![r(0.5), r(1.0), r(0.75)];
    let layers = vec![3, 2, 1];

    let network = Network {
        layers,
        neurons: vec![
            Neuron { bias: r(0.5), coefficient: r(0.1), weights: vec![r(-0.3), r(0.8), r(0.1)] },
            Neuron { bias: r(0.5), coefficient: r(0.1), weights: vec![r(-0.3), r(-0.8), r(-0.1)] },
            Neuron { bias: r(0.5), coefficient: r(0.1), weights: vec![r(0.4), r(-0.2)] },
        ],
    };

    let result = network.propagate(inputs);

    // Manually math out the neural network results:
    let input1 = (-0.3 * 0.5) + (0.8 * 1.0) + (0.1 * 0.75) + 0.5; // 1.225
    let input2 = ((-0.3 * 0.5) + (-0.8 * 1.0) + (-0.1 * 0.75) + 0.5) * 0.1; // -0.0525
    let input3 = (0.4 * input1) + (-0.2 * input2) + 0.5; // 1.0005

    assert_eq!(result, vec![r(input3)]);
}

#[test]
fn weights() {
    let layers = vec![2, 1];
    let network = Network {
        layers,
        neurons: vec![Neuron { bias: r(0.5), coefficient: r(0.1), weights: vec![r(-0.3), r(0.8)] }],
    };

    let network_weights = network.weights();

    assert_eq!(network_weights, vec![r(0.5), r(0.1), r(-0.3), r(0.8)]);
}

#[test]
fn network_from_weights() {
    let topology = vec![4, 1];
    let weights: Vec<Real> = vec![r(0.5), r(0.1), r(0.9), r(-0.3), r(0.2), r(-0.1)];

    let network = Network::from_weights(topology, &weights);

    assert_eq!(network.neurons.len(), 1);
    assert_eq!(network.neurons[0].bias, r(0.5));
    assert_eq!(network.neurons[0].coefficient, r(0.1));
    assert_eq!(network.neurons[0].weights, vec![r(0.9), r(-0.3), r(0.2), r(-0.1)]);
}

/// Round trip: rebuilding a network from its own flattened weights
/// reproduces identical propagation on any fixed input.
#[test]
fn weights_round_trip_preserves_propagation() {
    let mut rng = PetriRand::with_seed(42);
    let network = Network::random(&mut rng, vec![5, 4, 3, 2]);

    let flat = network.weights();
    let rebuilt = Network::from_weights(network.layers.clone(), &flat);

    assert_eq!(rebuilt, network);

    let inputs = vec![r(0.1), r(-0.4), r(2.0), r(0.0), r(-1.5)];
    assert_eq!(rebuilt.propagate(inputs.clone()), network.propagate(inputs));
}

/// Rewriting in place equals rebuilding from scratch.
#[test]
fn adjust_weights_matches_from_weights() {
    let mut rng = PetriRand::with_seed(8);
    let mut network = Network::random(&mut rng, vec![3, 2]);
    let replacement: Vec<Real> = (0..10).map(|n| r(n as f32 / 10.0)).collect();

    let rebuilt = Network::from_weights(network.layers.clone(), &replacement);
    network.adjust_weights(&replacement);

    assert_eq!(network, rebuilt);
}

/// The output vector always has the last layer's width.
#[test]
fn propagate_output_has_last_layer_width() {
    let mut rng = PetriRand::with_seed(15);
    let network = Network::random(&mut rng, vec![11, 22, 11, 6, 3]);

    let inputs: Vec<Real> = (0..11).map(|n| r(n as f32 / 11.0)).collect();
    let outputs = network.propagate(inputs);

    assert_eq!(outputs.len(), 3);
}
