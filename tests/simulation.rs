use iot_metrics_simulation::cost_model::MetricsFor;
use iot_metrics_simulation::generator::initialize_network;
use iot_metrics_simulation::methods::bkrsc::{get_metrics, SchemeConstants};
use iot_metrics_simulation::network::NodesVec;
use iot_metrics_simulation::simulation::{simulate, CostPair, SchemeCurves, SimulationResults};
use iot_metrics_simulation::{MetricKind, MetricsType, NodeStatus};
use rand::rngs::StdRng;
use rand::SeedableRng;

fn network(seed: u64) -> NodesVec {
    let mut rng = StdRng::seed_from_u64(seed);
    initialize_network(20, 4, 1, 4, &mut rng).expect("valid configuration")
}

fn tables() -> (MetricsType, MetricsType) {
    let other = SchemeConstants {
        sent_energy_cost: 250_000,
        received_energy_cost: 125_000,
        sent_message_size: 32,
        received_message_size: 8,
    };
    (get_metrics(20, 4, 2, &SchemeConstants::defaults()), get_metrics(20, 6, 3, &other))
}

fn expected(set: &NodesVec, status: NodeStatus, table: MetricsType) -> CostPair {
    CostPair {
        energy: set.aggregate_cost(MetricKind::Energy, status, MetricsFor::Constrained, table),
        communication: set.aggregate_cost(
            MetricKind::Communication,
            status,
            MetricsFor::Constrained,
            table,
        ),
    }
}

fn assert_curves(curves: &SchemeCurves, set: &NodesVec, table: MetricsType, width: usize) {
    assert_eq!(curves.compromised, vec![expected(set, NodeStatus::Compromised, table); width]);
    assert_eq!(curves.leaving, vec![expected(set, NodeStatus::Leaving, table); width]);
    assert_eq!(curves.draining, vec![expected(set, NodeStatus::Draining, table); width]);
}

fn assert_empty(r: &SimulationResults) {
    for c in [&r.first, &r.second] {
        assert!(c.compromised.is_empty() && c.leaving.is_empty() && c.draining.is_empty());
    }
}

fn flags_clear(set: &NodesVec) -> bool {
    set.nodes().iter().all(|n| !n.is_compromised && !n.is_leaving && !n.is_draining)
}

#[test]
fn curves_hold_the_averaged_round_costs() {
    let (a, b) = tables();
    let mut set = network(1);
    let mut rng = StdRng::seed_from_u64(9);
    let r = simulate(&mut set, &mut rng, 5, 1, 10, a, b);
    assert_curves(&r.first, &set, a, 10);
    assert_curves(&r.second, &set, b, 10);
    assert!(flags_clear(&set));
}

#[test]
fn constrained_compromise_energy_value() {
    let (a, _) = tables();
    let mut set = network(1);
    let constrained = set
        .nodes()
        .iter()
        .filter(|n| n.kind == iot_metrics_simulation::NodeType::Constrained)
        .count() as u128;
    assert_eq!(constrained, 16);
    let mut rng = StdRng::seed_from_u64(9);
    let r = simulate(&mut set, &mut rng, 3, 2, 4, a, a);
    // one sent and one received unit at 100_000 each, counted twice per device
    assert_eq!(r.first.compromised[0].energy, constrained * 2 * 200_000);
    assert_eq!(r.first.compromised[2].communication, constrained * 2 * 32 * 1_000_000_000);
}

#[test]
fn same_seed_gives_same_curves() {
    let (a, b) = tables();
    let mut set1 = network(2);
    let mut set2 = network(2);
    let r1 = simulate(&mut set1, &mut StdRng::seed_from_u64(77), 4, 1, 6, a, b);
    let r2 = simulate(&mut set2, &mut StdRng::seed_from_u64(77), 4, 1, 6, a, b);
    assert_eq!(r1.first.compromised, r2.first.compromised);
    assert_eq!(r1.first.leaving, r2.first.leaving);
    assert_eq!(r1.first.draining, r2.first.draining);
    assert_eq!(r1.second.compromised, r2.second.compromised);
    assert_eq!(r1.second.leaving, r2.second.leaving);
    assert_eq!(r1.second.draining, r2.second.draining);
}

#[test]
fn different_seeds_give_same_curves() {
    let (a, b) = tables();
    let mut set = network(2);
    let r1 = simulate(&mut set, &mut StdRng::seed_from_u64(1), 4, 1, 6, a, b);
    let r2 = simulate(&mut set, &mut StdRng::seed_from_u64(2), 4, 1, 6, a, b);
    assert_eq!(r1.first.compromised, r2.first.compromised);
    assert_eq!(r1.second.draining, r2.second.draining);
}

#[test]
fn affected_count_equal_to_size_is_handled() {
    let (a, b) = tables();
    let mut set = network(3);
    let mut rng = StdRng::seed_from_u64(5);
    let r = simulate(&mut set, &mut rng, 2, 20, 20, a, b);
    assert_curves(&r.first, &set, a, 1);
    assert_curves(&r.second, &set, b, 1);
    assert!(flags_clear(&set));
}

#[test]
fn single_round_average_is_the_recorded_value() {
    let (a, b) = tables();
    let mut set = network(4);
    let mut rng = StdRng::seed_from_u64(5);
    let r = simulate(&mut set, &mut rng, 1, 3, 3, a, b);
    assert_eq!(r.first.leaving, vec![expected(&set, NodeStatus::Leaving, a)]);
    assert_eq!(r.second.compromised, vec![expected(&set, NodeStatus::Compromised, b)]);
}

#[test]
fn zero_rounds_give_empty_curves() {
    let (a, b) = tables();
    let mut set = network(4);
    let r = simulate(&mut set, &mut StdRng::seed_from_u64(5), 0, 1, 3, a, b);
    assert_empty(&r);
}

#[test]
fn reversed_range_gives_empty_curves() {
    let (a, b) = tables();
    let mut set = network(4);
    let mut rng = StdRng::seed_from_u64(5);
    set.compromise_nodes(&mut rng, 2);
    let r = simulate(&mut set, &mut rng, 3, 5, 4, a, b);
    assert_empty(&r);
    assert_eq!(set.compromised_nodes().len(), 2);
}
