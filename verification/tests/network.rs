use racers::network::{crossover_layer, mutate_gene, mutate_layer, sigmoid, Activation, Layer,
    Network};

fn flat(weights: &Vec<Vec<i64>>) -> Vec<i64> {
    let mut out = Vec::new();
    for row in weights {
        for w in row {
            out.push(*w);
        }
    }
    out
}

#[test]
fn sigmoid_key_values() {
    assert_eq!(sigmoid(0), 500);
    // 500 + 500*1000/(1000+1000) = 750
    assert_eq!(sigmoid(1000), 750);
    assert_eq!(sigmoid(-1000), 250);
    assert!(sigmoid(1_000_000_000) > 990);
    assert!(sigmoid(-1_000_000_000) < 10);
}

#[test]
fn layer_computes_weighted_sum() {
    // one neuron: 0.5*x0 + 0.5*x1 + bias 0.1
    let layer = Layer::new(vec![vec![500, 500]], vec![100], Activation::Identity);
    let out = layer.calculate(&vec![1000, 1000]);
    assert_eq!(out, vec![1100]);
    // with the sigmoid the same sum passes through the logistic curve
    let layer2 = Layer::new(vec![vec![500, 500]], vec![0], Activation::Sigmoid);
    let out2 = layer2.calculate(&vec![1000, 1000]);
    assert_eq!(out2, vec![750]);
}

#[test]
fn network_chains_layers() {
    // doubling layer then halving layer: identity overall
    let l1 = Layer::new(vec![vec![2000]], vec![0], Activation::Identity);
    let l2 = Layer::new(vec![vec![500]], vec![0], Activation::Identity);
    let net = Network::new_empty().add_layer(l1).add_layer(l2);
    assert_eq!(net.run(vec![700]), vec![700]);
}

#[test]
fn crossover_is_deterministic_in_the_cut() {
    // P: child takes parent B on [0, cut] flattened and parent A after it
    let a = Layer::new(vec![vec![1, 1], vec![1, 1]], vec![10, 10], Activation::Identity);
    let b = Layer::new(vec![vec![2, 2], vec![2, 2]], vec![20, 20], Activation::Identity);
    let child = crossover_layer(&a, &b, 1, 0);
    assert_eq!(flat(&child.weights), vec![2, 2, 1, 1]);
    assert_eq!(child.bias, vec![20, 10]);
    let child2 = crossover_layer(&a, &b, 1, 0);
    assert_eq!(flat(&child2.weights), flat(&child.weights));
    assert_eq!(child2.bias, child.bias);
    let child3 = crossover_layer(&a, &b, 3, 1);
    assert_eq!(flat(&child3.weights), vec![2, 2, 2, 2]);
    assert_eq!(child3.bias, vec![20, 20]);
}

#[test]
fn zero_rate_mutation_never_alters() {
    macroquad::rand::srand(7);
    for trial in 0..10_000 {
        let g = (trial % 4001) - 2000;
        assert_eq!(mutate_gene(g, 0, 0, 1000, 500), g);
    }
    let l = Layer::new(vec![vec![123, -456], vec![789, 0]], vec![42, -42], Activation::Identity);
    for _ in 0..1_000 {
        let m = mutate_layer(&l, 0, 0, 0, 0);
        assert_eq!(m.weights, l.weights);
        assert_eq!(m.bias, l.bias);
    }
}

#[test]
fn full_rate_mutation_always_replaces() {
    macroquad::rand::srand(8);
    // the original value lies far outside the fresh and perturbed range,
    // so any survivor would be detected
    for _ in 0..10_000 {
        let out = mutate_gene(5000, 1000, 0, 1000, 500);
        assert_ne!(out, 5000);
        assert!((-1000..=1000).contains(&out));
    }
    for _ in 0..10_000 {
        let out = mutate_gene(5000, 1000, 1000, 1000, 500);
        assert_ne!(out, 5000);
        assert!((-1500..=1500).contains(&out));
    }
}

#[test]
fn random_layers_stay_in_their_ranges() {
    macroquad::rand::srand(9);
    let l = Layer::new_random(21, 12, Activation::Identity);
    assert_eq!(l.weights.len(), 12);
    let mut distinct = std::collections::HashSet::new();
    for row in &l.weights {
        assert_eq!(row.len(), 21);
        for w in row {
            assert!((-750..=750).contains(w));
            distinct.insert(*w);
        }
    }
    // a generator that returned a constant would fail this
    assert!(distinct.len() > 1);
    for b in &l.bias {
        assert!((-250..=250).contains(b));
    }
}
