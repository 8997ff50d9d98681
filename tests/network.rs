use iot_metrics_simulation::generator::{initialize_network, NetworkError};
use iot_metrics_simulation::network::{Node, NodesVec};
use iot_metrics_simulation::NodeType;
use rand::rngs::StdRng;
use rand::SeedableRng;

fn network(seed: u64, n: i32, g: i32, lo: i32, hi: i32) -> NodesVec {
    let mut rng = StdRng::seed_from_u64(seed);
    initialize_network(n, g, lo, hi, &mut rng).expect("valid configuration")
}

fn count_flags(net: &NodesVec) -> (usize, usize, usize) {
    let nodes = net.nodes();
    (
        nodes.iter().filter(|n| n.is_compromised).count(),
        nodes.iter().filter(|n| n.is_leaving).count(),
        nodes.iter().filter(|n| n.is_draining).count(),
    )
}

#[test]
fn generated_adjacency_is_symmetric_and_capped() {
    for seed in 0..20u64 {
        let net = network(seed, 30, 5, 2, 6);
        let nodes = net.nodes();
        assert_eq!(nodes.len(), 30);
        for (a, node) in nodes.iter().enumerate() {
            assert!(node.neighbors.len() <= node.max_possible_neighbors);
            assert!(node.max_possible_neighbors >= 2 && node.max_possible_neighbors <= 6);
            for &b in &node.neighbors {
                assert_ne!(a, b);
                assert!(nodes[b].neighbors.contains(&a));
            }
            let mut sorted = node.neighbors.clone();
            sorted.sort();
            sorted.dedup();
            assert_eq!(sorted.len(), node.neighbors.len());
        }
    }
}

#[test]
fn generated_ids_match_positions() {
    let net = network(3, 25, 4, 1, 4);
    for (i, node) in net.nodes().iter().enumerate() {
        assert_eq!(node.id, i);
        assert!(!node.is_compromised && !node.is_leaving && !node.is_draining);
    }
}

#[test]
fn generated_roles_have_requested_counts() {
    let net = network(11, 40, 7, 1, 3);
    let gateways = net.nodes().iter().filter(|n| n.kind == NodeType::Gateway).count();
    let constrained = net.nodes().iter().filter(|n| n.kind == NodeType::Constrained).count();
    assert_eq!(gateways, 7);
    assert_eq!(constrained, 33);
}

#[test]
fn generated_roles_are_shuffled() {
    let net = network(5, 40, 20, 1, 3);
    let first_half_gateways =
        net.nodes().iter().take(20).filter(|n| n.kind == NodeType::Gateway).count();
    assert_ne!(first_half_gateways, 20);
}

#[test]
fn generated_caps_vary_over_the_range() {
    let net = network(9, 50, 5, 1, 5);
    let caps: Vec<usize> = net.nodes().iter().map(|n| n.max_possible_neighbors).collect();
    assert!(caps.iter().any(|&c| c != 1));
    assert!(caps.iter().all(|&c| (1..=5).contains(&c)));
}

#[test]
fn generated_network_is_saturated() {
    let net = network(21, 30, 3, 2, 5);
    let nodes = net.nodes();
    for a in 0..nodes.len() {
        for b in 0..nodes.len() {
            if a != b && !nodes[a].neighbors.contains(&b) {
                let a_full = nodes[a].neighbors.len() == nodes[a].max_possible_neighbors;
                let b_full = nodes[b].neighbors.len() == nodes[b].max_possible_neighbors;
                assert!(a_full || b_full);
            }
        }
    }
}

#[test]
fn complete_graph_when_caps_allow() {
    let net = network(2, 5, 1, 4, 4);
    for node in net.nodes() {
        assert_eq!(node.neighbors.len(), 4);
    }
}

#[test]
fn zero_caps_give_no_edges() {
    let net = network(2, 6, 2, 0, 0);
    for node in net.nodes() {
        assert!(node.neighbors.is_empty());
    }
}

#[test]
fn invalid_gateway_count_is_rejected() {
    let mut rng = StdRng::seed_from_u64(1);
    assert_eq!(initialize_network(5, 6, 1, 2, &mut rng).err(), Some(NetworkError::InvalidGatewayCount));
    assert_eq!(initialize_network(5, -1, 1, 2, &mut rng).err(), Some(NetworkError::InvalidGatewayCount));
}

#[test]
fn invalid_degree_range_is_rejected() {
    let mut rng = StdRng::seed_from_u64(1);
    assert_eq!(initialize_network(5, 1, 3, 2, &mut rng).err(), Some(NetworkError::InvalidDegreeRange));
    assert_eq!(initialize_network(5, 1, -1, 2, &mut rng).err(), Some(NetworkError::InvalidDegreeRange));
    assert_eq!(initialize_network(5, 1, 1, 5, &mut rng).err(), Some(NetworkError::InvalidDegreeRange));
    assert_eq!(initialize_network(0, 0, 0, 0, &mut rng).err(), Some(NetworkError::InvalidDegreeRange));
}

#[test]
fn compromise_then_filter_yields_exact_count() {
    let mut net = network(4, 20, 3, 1, 3);
    let mut rng = StdRng::seed_from_u64(100);
    net.compromise_nodes(&mut rng, 7);
    let picked = net.compromised_nodes();
    assert_eq!(picked.len(), 7);
    assert_eq!(count_flags(&net), (7, 0, 0));
    for copy in picked.nodes() {
        let live = &net.nodes()[copy.id];
        assert!(live.is_compromised && !live.is_leaving && !live.is_draining);
        assert!(!copy.is_compromised && !copy.is_leaving && !copy.is_draining);
        assert_eq!(copy.neighbors, live.neighbors);
        assert_eq!(copy.kind, live.kind);
        assert_eq!(copy.max_possible_neighbors, live.max_possible_neighbors);
    }
}

#[test]
fn marking_more_than_exist_marks_all() {
    let mut net = network(4, 10, 3, 1, 3);
    let mut rng = StdRng::seed_from_u64(100);
    net.leave_nodes(&mut rng, 25);
    assert_eq!(net.left_nodes().len(), 10);
    assert_eq!(count_flags(&net), (0, 10, 0));
}

#[test]
fn drain_marks_exact_count_in_order() {
    let mut net = network(8, 12, 2, 1, 3);
    let mut rng = StdRng::seed_from_u64(3);
    net.drain_nodes(&mut rng, 4);
    let drained = net.drained_nodes();
    assert_eq!(drained.len(), 4);
    let ids: Vec<usize> = drained.nodes().iter().map(|n| n.id).collect();
    let mut sorted = ids.clone();
    sorted.sort();
    assert_eq!(ids, sorted);
    assert_eq!(count_flags(&net), (0, 0, 4));
}

#[test]
fn marking_zero_devices_changes_nothing() {
    let mut net = network(8, 12, 2, 1, 3);
    let mut rng = StdRng::seed_from_u64(3);
    net.compromise_nodes(&mut rng, 0);
    assert_eq!(count_flags(&net), (0, 0, 0));
}

#[test]
fn reset_clears_all_flags_and_is_idempotent() {
    let mut net = network(6, 15, 3, 1, 3);
    let mut rng = StdRng::seed_from_u64(42);
    net.compromise_nodes(&mut rng, 5);
    net.leave_nodes(&mut rng, 6);
    net.drain_nodes(&mut rng, 7);
    net.reset();
    assert_eq!(net.compromised_nodes().len(), 0);
    assert_eq!(net.left_nodes().len(), 0);
    assert_eq!(net.drained_nodes().len(), 0);
    net.reset();
    assert_eq!(count_flags(&net), (0, 0, 0));
    assert_eq!(net.len(), 15);
}

#[test]
fn empty_set_and_push() {
    let mut set = NodesVec::new();
    assert_eq!(set.len(), 0);
    set.push(Node::new(3, NodeType::Gateway, vec![1, 2], 4));
    assert_eq!(set.len(), 1);
    let node = &set.nodes()[0];
    assert_eq!(node.id, 3);
    assert_eq!(node.neighbors, vec![1, 2]);
    assert!(!node.is_compromised);
}
