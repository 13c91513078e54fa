use neuranet::network::{Layer, Network, Neuron};
use neuranet::topology::{parameter_count, LayerTopology};
use neuranet::add;
use rand::{Rng, SeedableRng};
use rand_chacha::ChaCha8Rng;

fn relu_dot(neuron: &Neuron<f32>, inputs: &Vec<f32>) -> f32 {
    assert_eq!(inputs.len(), neuron.weights.len());
    let output = inputs
        .iter()
        .zip(&neuron.weights)
        .map(|(input, weight)| input * weight)
        .sum::<f32>();
    (neuron.bias + output).max(0.0)
}

fn topology(counts: &[usize]) -> Vec<LayerTopology> {
    counts.iter().map(|&neurons| LayerTopology { neurons }).collect()
}

fn seeded_draws(seed: [u8; 32], count: usize) -> Vec<f32> {
    let mut rng = ChaCha8Rng::from_seed(seed);
    (0..count).map(|_| rng.gen_range(-1.0..=1.0)).collect()
}

fn two_single_neuron_layers() -> Network<f32> {
    Network {
        layers: vec![
            Layer { neurons: vec![Neuron { bias: 0.0, weights: vec![1.0] }] },
            Layer { neurons: vec![Neuron { bias: 0.0, weights: vec![2.0] }] },
        ],
    }
}

#[test]
fn it_works() {
    assert_eq!(add(2, 2), 4);
}

#[test]
fn neuron_passes_positive_sum() {
    let layer = Layer { neurons: vec![Neuron { bias: 0.1, weights: vec![0.5, -0.5] }] };
    let out = layer.propagate_with(&vec![2.0, 2.0], &relu_dot);
    assert_eq!(out, vec![0.1f32]);
}

#[test]
fn neuron_clamps_negative_sum() {
    let layer = Layer { neurons: vec![Neuron { bias: 0.1, weights: vec![0.5, -0.5] }] };
    let out = layer.propagate_with(&vec![1.0, 3.0], &relu_dot);
    assert_eq!(out, vec![0.0f32]);
}

#[test]
fn two_layers_feed_forward() {
    let net = two_single_neuron_layers();
    assert!(net.accepts_input(1));
    assert_eq!(net.propagate_with(vec![3.0], &relu_dot), vec![6.0f32]);
}

#[test]
fn propagation_is_repeatable() {
    let draws = seeded_draws([7; 32], parameter_count(&topology(&[3, 4, 2])).unwrap());
    let net = Network::from_draws(&topology(&[3, 4, 2]), &draws);
    let first = net.propagate_with(vec![0.25, -1.5, 2.0], &relu_dot);
    let second = net.propagate_with(vec![0.25, -1.5, 2.0], &relu_dot);
    assert_eq!(first.len(), 2);
    assert_eq!(first, second);
    assert!(first.iter().all(|&v| v >= 0.0));
}

#[test]
fn layer_output_has_one_value_per_neuron() {
    let layer = Layer {
        neurons: vec![
            Neuron { bias: -1.0, weights: vec![1.0, 1.0] },
            Neuron { bias: 0.5, weights: vec![-1.0, 2.0] },
            Neuron { bias: 0.0, weights: vec![0.0, 0.0] },
        ],
    };
    let out = layer.propagate_with(&vec![1.0, 2.0], &relu_dot);
    assert_eq!(out, vec![2.0f32, 3.5, 0.0]);
}

#[test]
fn network_output_width_is_last_layer_size() {
    let draws = seeded_draws([1; 32], parameter_count(&topology(&[2, 5, 3])).unwrap());
    let net = Network::from_draws(&topology(&[2, 5, 3]), &draws);
    assert_eq!(net.output_width(), 3);
    assert_eq!(net.propagate_with(vec![1.0, -1.0], &relu_dot).len(), 3);
}

#[test]
fn parameter_counts() {
    assert_eq!(parameter_count(&topology(&[2, 1])), Some(3));
    assert_eq!(parameter_count(&topology(&[3, 4, 2])), Some(26));
    assert_eq!(parameter_count(&topology(&[3])), Some(0));
    assert_eq!(parameter_count(&[]), Some(0));
    assert_eq!(parameter_count(&topology(&[usize::MAX, 2])), None);
    assert_eq!(parameter_count(&topology(&[usize::MAX, 0])), Some(0));
}

#[test]
fn draws_fill_bias_then_weights_in_order() {
    let draws: Vec<u32> = (1..=12).collect();
    let net = Network::from_draws(&topology(&[2, 2, 2]), &draws);
    assert_eq!(net.layers.len(), 2);
    assert_eq!(net.layers[0].neurons[0].bias, 1);
    assert_eq!(net.layers[0].neurons[0].weights, vec![2, 3]);
    assert_eq!(net.layers[0].neurons[1].bias, 4);
    assert_eq!(net.layers[0].neurons[1].weights, vec![5, 6]);
    assert_eq!(net.layers[1].neurons[0].bias, 7);
    assert_eq!(net.layers[1].neurons[0].weights, vec![8, 9]);
    assert_eq!(net.layers[1].neurons[1].bias, 10);
    assert_eq!(net.layers[1].neurons[1].weights, vec![11, 12]);
}

#[test]
fn seeded_construction_is_reproducible() {
    let shape = topology(&[2, 1]);
    let count = parameter_count(&shape).unwrap();
    let a = Network::from_draws(&shape, &seeded_draws([0; 32], count));
    let b = Network::from_draws(&shape, &seeded_draws([0; 32], count));
    assert_eq!(a.layers.len(), 1);
    assert_eq!(a.layers[0].neurons.len(), 1);
    assert_eq!(a.layers[0].neurons[0].weights.len(), 2);
    assert_eq!(a.layers[0].neurons[0].bias, b.layers[0].neurons[0].bias);
    assert_eq!(a.layers[0].neurons[0].weights, b.layers[0].neurons[0].weights);
    let n = &a.layers[0].neurons[0];
    assert!((-1.0..=1.0).contains(&n.bias));
    assert!(n.weights.iter().all(|w| (-1.0..=1.0).contains(w)));
}

#[test]
fn single_entry_topology_is_refused() {
    let draws: Vec<f32> = Vec::new();
    assert!(Network::try_from_draws(&topology(&[3]), &draws).is_none());
    assert!(Network::try_from_draws(&[], &draws).is_none());
}

#[test]
fn draw_count_must_match_topology() {
    let draws: Vec<u32> = vec![1, 2];
    assert!(Network::try_from_draws(&topology(&[2, 1]), &draws).is_none());
    let draws: Vec<u32> = vec![1, 2, 3];
    let net = Network::try_from_draws(&topology(&[2, 1]), &draws).unwrap();
    assert_eq!(net.layers[0].neurons[0].bias, 1);
    assert_eq!(net.layers[0].neurons[0].weights, vec![2, 3]);
}

#[test]
fn mismatched_input_width_is_detected() {
    let draws = seeded_draws([3; 32], parameter_count(&topology(&[3, 2])).unwrap());
    let net = Network::from_draws(&topology(&[3, 2]), &draws);
    assert!(net.accepts_input(3));
    assert!(!net.accepts_input(2));
}

#[test]
fn inconsistent_layers_are_detected() {
    let net = Network {
        layers: vec![
            Layer { neurons: vec![Neuron { bias: 0.0, weights: vec![1.0] }] },
            Layer { neurons: vec![Neuron { bias: 0.0, weights: vec![2.0, 1.0] }] },
        ],
    };
    assert!(!net.accepts_input(1));
    let empty: Network<f32> = Network { layers: vec![] };
    assert!(!empty.accepts_input(0));
    assert!(two_single_neuron_layers().layers[1].accepts_input(1));
    assert!(!two_single_neuron_layers().layers[1].accepts_input(2));
}

fn assert_close(actual: f32, expected: f32) {
    let tolerance = f32::EPSILON * actual.abs().max(expected.abs());
    assert!((actual - expected).abs() <= tolerance, "{} != {}", actual, expected);
}

#[test]
fn random() {
    let shape = topology(&[4, 1]);
    let count = parameter_count(&shape).unwrap();
    let draws = seeded_draws(Default::default(), count);
    let net = Network::from_draws(&shape, &draws);
    let neuron = &net.layers[0].neurons[0];

    assert_close(neuron.bias, -0.6255188);
    let expected = [0.67383957, 0.8181262, 0.26284897, 0.5238807];
    assert_eq!(neuron.weights.len(), expected.len());
    for (w, e) in neuron.weights.iter().zip(expected.iter()) {
        assert_close(*w, *e);
    }
}
