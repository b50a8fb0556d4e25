use evo_flock::{LayerTopology, Network, ONE};
use rand::rngs::StdRng;
use rand::SeedableRng;

fn topology(sizes: &[usize]) -> Vec<LayerTopology> {
    sizes.iter().map(|&neurons| LayerTopology { neurons }).collect()
}

fn relu(pre: i64) -> i32 {
    if pre <= 0 { 0 } else { (pre / ONE) as i32 }
}

#[test]
fn lib_random() {
    let mut rng = StdRng::seed_from_u64(0);
    let network = Network::random(&mut rng, &topology(&[2, 3]));
    let genes = network.weights();
    // Three neurons, each a bias and two weights.
    assert_eq!(genes.len(), 9);
    assert!(genes.iter().all(|g| (-ONE..=ONE).contains(&(*g as i64))));
    assert_eq!(network.input_len(), 2);
    assert_eq!(network.output_len(), 3);
}

#[test]
fn lib_random_layer() {
    let mut rng = StdRng::seed_from_u64(0);
    let network = Network::random(&mut rng, &topology(&[2, 3]));
    assert_eq!(network.propagate(vec![0, 0]).len(), 3);
}

#[test]
fn lib_random_neuron() {
    let mut rng = StdRng::seed_from_u64(0);
    let network = Network::random(&mut rng, &topology(&[4, 1]));
    let genes = network.weights();
    assert_eq!(genes.len(), 5);
    assert!(genes.iter().all(|g| (-ONE..=ONE).contains(&(*g as i64))));
}

#[test]
fn random_networks_differ_by_seed_but_not_by_run() {
    let t = topology(&[3, 4, 2]);
    let a = Network::random(&mut StdRng::seed_from_u64(1), &t).weights();
    let b = Network::random(&mut StdRng::seed_from_u64(1), &t).weights();
    let c = Network::random(&mut StdRng::seed_from_u64(2), &t).weights();
    assert_eq!(a, b);
    assert_ne!(a, c);
    assert_eq!(a.len(), 4 * 4 + 2 * 5);
}

#[test]
fn lib_propagate() {
    let mut rng = StdRng::seed_from_u64(0);
    let network = Network::random(&mut rng, &topology(&[2, 1]));
    let g: Vec<i64> = network.weights().iter().map(|x| *x as i64).collect();
    let expected = relu(g[0] * ONE + ONE * g[1] + ONE * g[2]);
    assert_eq!(network.propagate(vec![ONE as i32, ONE as i32]), vec![expected]);
}

#[test]
fn weights() {
    let genes = vec![104858, 209715, 314573, 419430, 524288, 629146, 734003, 838861];
    let network = Network::from_weights(&topology(&[3, 2]), genes.clone());
    assert_eq!(network.weights(), genes);
}

#[test]
fn lib_propagate_layer() {
    let mut rng = StdRng::seed_from_u64(0);
    let network = Network::random(&mut rng, &topology(&[2, 3]));
    let g: Vec<i64> = network.weights().iter().map(|x| *x as i64).collect();
    let inputs = [9 * ONE, ONE];
    let expected: Vec<i32> = (0..3)
        .map(|j| relu(g[3 * j] * ONE + inputs[0] * g[3 * j + 1] + inputs[1] * g[3 * j + 2]))
        .collect();
    assert_eq!(network.propagate(vec![9 * ONE as i32, ONE as i32]), expected);
}

#[test]
fn lib_propagate_neuron() {
    // bias 0.5, weights -0.3 and 0.8
    let network = Network::from_weights(&topology(&[2, 1]), vec![524288, -314573, 838861]);
    // The rectifier clips a negative sum to zero.
    assert_eq!(network.propagate(vec![-10 * ONE as i32, -10 * ONE as i32]), vec![0]);
    // -0.3 * 0.5 + 0.8 * 1.0 + 0.5 = 1.15
    assert_eq!(network.propagate(vec![524288, 1048576]), vec![1205862]);
}

#[test]
fn genome_round_trip_keeps_the_activations() {
    let t = topology(&[3, 5, 2]);
    let network = Network::random(&mut StdRng::seed_from_u64(11), &t);
    let rebuilt = Network::from_weights(&t, network.weights());
    assert_eq!(rebuilt.weights(), network.weights());
    for inputs in [vec![0, 0, 0], vec![ONE as i32, -(ONE as i32), 3], vec![5 * ONE as i32, 7, 2 * ONE as i32]] {
        assert_eq!(rebuilt.propagate(inputs.clone()), network.propagate(inputs));
    }
}

#[test]
fn propagate_is_pure() {
    let network = Network::random(&mut StdRng::seed_from_u64(5), &topology(&[4, 8, 2]));
    let inputs = vec![ONE as i32, 0, ONE as i32 / 2, 3 * ONE as i32];
    let first = network.propagate(inputs.clone());
    assert_eq!(first.len(), 2);
    assert_eq!(network.propagate(inputs.clone()), first);
    assert_eq!(network.propagate(inputs), first);
}

#[test]
fn hidden_layer_feeds_the_output_layer() {
    // Layer 1: one neuron, bias 0, weight 2.0. Layer 2: one neuron, bias -1.0, weight 1.0.
    let network = Network::from_weights(&topology(&[1, 1, 1]), vec![0, 2 * ONE as i32, -(ONE as i32), ONE as i32]);
    assert_eq!(network.propagate(vec![3 * ONE as i32]), vec![5 * ONE as i32]);
    assert_eq!(network.propagate(vec![ONE as i32 / 4]), vec![0]);
}
