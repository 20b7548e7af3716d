use evolution_sim::fixed::ONE;
use evolution_sim::network::{Layer, LayerTopology, Network, Neuron};
use rand::SeedableRng;
use rand_chacha::ChaCha8Rng;

fn fx(v: f32) -> i32 {
    (v as f64 * ONE as f64).round() as i32
}

fn fl(v: i32) -> f64 {
    v as f64 / ONE as f64
}

fn assert_close(actual: &[i32], expected: &[f32], tolerance: f64) {
    assert_eq!(actual.len(), expected.len());
    for (a, e) in actual.iter().zip(expected.iter()) {
        assert!(
            (fl(*a) - *e as f64).abs() <= tolerance,
            "{:?} against {:?}",
            actual.iter().map(|v| fl(*v)).collect::<Vec<f64>>(),
            expected
        );
    }
}

fn neuron(bias: f32, weights: &[f32]) -> Neuron {
    Neuron { bias: fx(bias), weights: weights.iter().map(|w| fx(*w)).collect() }
}

#[test]
fn from_params() {
    let layers = vec![LayerTopology { num_neuron: 3 }, LayerTopology { num_neuron: 2 }];
    let weights: Vec<i32> = [0.1, 0.2, 0.3, 0.4, 0.5, 0.6, 0.7, 0.8].iter().map(|w| fx(*w)).collect();
    let network = Network::from_params(&layers, weights.clone());
    let actual = network.get_params();
    assert_eq!(actual, weights);
}

#[test]
fn random() {
    let mut rng = ChaCha8Rng::from_seed(Default::default());
    let neuron = Neuron::random(&mut rng, 4);
    assert_close(&[neuron.bias], &[0.5238807], 2e-6);
    assert_close(&neuron.weights, &[-0.6255188, 0.67383957, 0.8181262, 0.26284897], 2e-6);
}

#[test]
fn propagate_neuron() {
    let neuron = neuron(0.5, &[-0.3, 0.8]);
    assert_eq!(neuron.propagate(&vec![fx(-10.0), fx(-10.0)]), 0);
    let expected = (0.6f32 * -0.3 + 0.3 * 0.8 + 0.5f32).max(0.0);
    assert_close(&[neuron.propagate(&vec![fx(0.6), fx(0.3)])], &[expected], 1e-5);
}

#[test]
fn propagate_layer() {
    let layer = Layer {
        neurons: vec![neuron(0.1, &[0.1, -0.3, 0.2]), neuron(-0.2, &[0.4, 0.1, -0.5])],
    };
    let inputs = vec![fx(0.5), fx(-0.2), fx(0.1)];
    let actual = layer.propagate(inputs);
    assert_close(&actual, &[0.23, 0.0], 1e-5);
}

fn sample_network() -> Network {
    Network::new(vec![
        Layer { neurons: vec![neuron(0.1, &[0.1, -0.3, 0.2]), neuron(-0.2, &[0.4, 0.1, -0.5])] },
        Layer {
            neurons: vec![
                neuron(0.1, &[0.2, -0.4]),
                neuron(0.2, &[-0.3, 0.1]),
                neuron(-0.1, &[0.5, 0.2]),
            ],
        },
        Layer { neurons: vec![neuron(0.1, &[0.3, -0.2, 0.1])] },
    ])
}

#[test]
fn propagate_network() {
    let network = sample_network();
    let inputs = vec![fx(0.5), fx(-0.2), fx(0.1)];
    let actual = network.propagate(inputs);
    assert_close(&actual, &[0.1191], 1e-5);
}

#[test]
fn genome_round_trip_keeps_outputs() {
    let network = sample_network();
    let layers = vec![
        LayerTopology { num_neuron: 3 },
        LayerTopology { num_neuron: 2 },
        LayerTopology { num_neuron: 3 },
        LayerTopology { num_neuron: 1 },
    ];
    let params = network.get_params();
    assert_eq!(params.len(), 4 * 2 + 3 * 3 + 4);
    let rebuilt = Network::from_params(&layers, params.clone());
    assert_eq!(rebuilt.get_params(), params);
    for inputs in [vec![fx(0.5), fx(-0.2), fx(0.1)], vec![fx(3.0), fx(1.0), fx(-2.0)]] {
        assert_eq!(rebuilt.propagate(inputs.clone()), network.propagate(inputs));
    }
}

#[test]
fn genome_order_is_bias_then_weights() {
    let network = sample_network();
    let params = network.get_params();
    assert_eq!(&params[0..4], &[fx(0.1), fx(0.1), fx(-0.3), fx(0.2)]);
    assert_eq!(params[params.len() - 4], fx(0.1));
}

#[test]
fn random_network_has_topology_and_range() {
    let mut rng = ChaCha8Rng::seed_from_u64(7);
    let layers = vec![
        LayerTopology { num_neuron: 9 },
        LayerTopology { num_neuron: 5 },
        LayerTopology { num_neuron: 3 },
        LayerTopology { num_neuron: 2 },
    ];
    let network = Network::random(&mut rng, &layers);
    let params = network.get_params();
    assert_eq!(params.len(), 10 * 5 + 6 * 3 + 4 * 2);
    assert!(params.iter().all(|p| -ONE as i32 <= *p && *p <= ONE as i32));
    assert_eq!(network.propagate(vec![0; 9]).len(), 2);
}

#[test]
fn neuron_output_is_capped() {
    let neuron = Neuron { bias: i32::MAX, weights: vec![i32::MAX] };
    assert_eq!(neuron.propagate(&vec![i32::MAX]), i32::MAX);
}
