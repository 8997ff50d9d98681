use iot_metrics_simulation::cost_model::{
    MetricsFor, TotalCommunicationOverhead, TotalEnergyConsumption,
};
use iot_metrics_simulation::methods::bkrsc::{get_metrics, SchemeConstants};
use iot_metrics_simulation::network::{Node, NodesVec};
use iot_metrics_simulation::{
    CommunicationType, EnergyType, MetricKind, MetricsType, NodeStatus, NodeType, COST_SCALE,
};

fn scaled(value: f64) -> u64 {
    (value * COST_SCALE as f64).round() as u64
}

fn uniform_table(sent: u32, received: u32, sent_cost: u64, received_cost: u64) -> MetricsType {
    let energy = EnergyType::new(
        sent, received, sent_cost, received_cost, sent, received, sent_cost, received_cost, sent,
        received, sent_cost, received_cost, 1, 1, 1, 1, 1, 1, 1, 1, 1,
    );
    let communication = CommunicationType::new(
        sent, received, sent_cost, received_cost, sent, received, sent_cost, received_cost, sent,
        received, sent_cost, received_cost, 1, 1, 1, 1, 1, 1, 1, 1, 1,
    );
    MetricsType::new(energy, communication)
}

fn five_constrained_one_gateway() -> NodesVec {
    let mut set = NodesVec::new();
    for i in 0..5 {
        set.push(Node::new(i, NodeType::Constrained, vec![], 2));
    }
    set.push(Node::new(5, NodeType::Gateway, vec![], 2));
    set
}

#[test]
fn end_to_end_constrained_compromise_counts_twice() {
    let mut table = uniform_table(7, 9, 0, 0);
    table.energy.compromised.constrained.exchange.sent = 1;
    table.energy.compromised.constrained.exchange.received = 1;
    table.energy.compromised.constrained.exchange_cost.sent = scaled(0.1);
    table.energy.compromised.constrained.exchange_cost.received = scaled(0.2);
    let set = five_constrained_one_gateway();
    let total = set.aggregate_cost(
        MetricKind::Energy,
        NodeStatus::Compromised,
        MetricsFor::Constrained,
        table,
    );
    assert_eq!(total, 3 * COST_SCALE as u128);
    assert_eq!(
        set.total_energy_consumption(NodeStatus::Compromised, MetricsFor::Constrained, table),
        3 * COST_SCALE as u128
    );
}

#[test]
fn zero_cost_table_gives_zero_everywhere() {
    let table = uniform_table(3, 4, 0, 0);
    let set = five_constrained_one_gateway();
    for status in [NodeStatus::Compromised, NodeStatus::Leaving, NodeStatus::Draining] {
        for filter in [MetricsFor::Constrained, MetricsFor::Gateway, MetricsFor::All] {
            assert_eq!(set.total_energy_consumption(status, filter, table), 0);
            assert_eq!(set.total_communication_overhead(status, filter, table), 0);
        }
    }
    assert_eq!(NodesVec::new().total_energy_consumption(NodeStatus::Leaving, MetricsFor::All, table), 0);
}

#[test]
fn role_filters_select_their_devices() {
    let mut table = uniform_table(0, 0, 0, 0);
    table.communication.leaving.constrained.exchange.sent = 2;
    table.communication.leaving.constrained.exchange_cost.sent = 10;
    table.communication.leaving.gateway.exchange.received = 3;
    table.communication.leaving.gateway.exchange_cost.received = 100;
    let set = five_constrained_one_gateway();
    let c = set.total_communication_overhead(NodeStatus::Leaving, MetricsFor::Constrained, table);
    let g = set.total_communication_overhead(NodeStatus::Leaving, MetricsFor::Gateway, table);
    let a = set.total_communication_overhead(NodeStatus::Leaving, MetricsFor::All, table);
    assert_eq!(c, 5 * 2 * 20);
    assert_eq!(g, 2 * 300);
    assert_eq!(a, c + g);
}

#[test]
fn flags_do_not_change_the_aggregate() {
    let table = uniform_table(1, 2, 5, 7);
    let mut set = five_constrained_one_gateway();
    let before = set.aggregate_cost(MetricKind::Energy, NodeStatus::Draining, MetricsFor::All, table);
    let mut rng = <rand::rngs::StdRng as rand::SeedableRng>::seed_from_u64(1);
    set.drain_nodes(&mut rng, 3);
    let after = set.aggregate_cost(MetricKind::Energy, NodeStatus::Draining, MetricsFor::All, table);
    assert_eq!(before, after);
    assert_eq!(before, 6 * 2 * (5 + 14));
}

#[test]
fn aggregate_of_largest_entries_is_exact() {
    let table = uniform_table(u32::MAX, u32::MAX, u64::MAX, u64::MAX);
    let mut set = NodesVec::new();
    for i in 0..10 {
        set.push(Node::new(i, NodeType::Constrained, vec![], 0));
    }
    let total = set.aggregate_cost(MetricKind::Energy, NodeStatus::Leaving, MetricsFor::All, table);
    assert_eq!(total, 10 * 2 * 2 * (u32::MAX as u128) * (u64::MAX as u128));
}

#[test]
fn per_device_costs_follow_the_role() {
    let mut table = uniform_table(0, 0, 0, 0);
    table.energy.draining.gateway.exchange.sent = 4;
    table.energy.draining.gateway.exchange_cost.sent = 25;
    let gateway = Node::new(0, NodeType::Gateway, vec![], 1);
    let constrained = Node::new(1, NodeType::Constrained, vec![], 1);
    assert_eq!(gateway.energy_consumption(NodeStatus::Draining, table), 100);
    assert_eq!(constrained.energy_consumption(NodeStatus::Draining, table), 0);
    assert_eq!(gateway.communication_overhead(NodeStatus::Draining, table), 0);
    assert_eq!(table.device_cost(MetricKind::Energy, NodeStatus::Draining, NodeType::Gateway), 100);
}

#[test]
fn builders_place_every_field() {
    let e = EnergyType::new(1, 2, 3, 4, 5, 6, 7, 8, 9, 10, 11, 12, 13, 14, 15, 16, 17, 18, 19, 20, 21);
    assert_eq!(e.compromised.constrained.exchange.sent, 1);
    assert_eq!(e.compromised.gateway.exchange.received, 2);
    assert_eq!(e.compromised.left.exchange_cost.sent, 3);
    assert_eq!(e.compromised.left.exchange_cost.received, 4);
    assert_eq!(e.leaving.constrained.exchange.sent, 5);
    assert_eq!(e.leaving.gateway.exchange_cost.received, 8);
    assert_eq!(e.draining.left.exchange.received, 10);
    assert_eq!(e.draining.constrained.exchange_cost.received, 12);
    assert_eq!(e.compromised.constrained.number_of_involved_devices, 13);
    assert_eq!(e.compromised.gateway.number_of_involved_devices, 14);
    assert_eq!(e.compromised.left.number_of_involved_devices, 15);
    assert_eq!(e.leaving.constrained.number_of_involved_devices, 16);
    assert_eq!(e.leaving.left.number_of_involved_devices, 18);
    assert_eq!(e.draining.gateway.number_of_involved_devices, 20);
    assert_eq!(e.draining.left.number_of_involved_devices, 21);
    let c = CommunicationType::new(1, 2, 3, 4, 5, 6, 7, 8, 9, 10, 11, 12, 13, 14, 15, 16, 17, 18, 19, 20, 21);
    assert_eq!(c.leaving.gateway.exchange.received, 6);
    assert_eq!(c.draining.constrained.number_of_involved_devices, 19);
    let m = MetricsType::new(e, c);
    assert_eq!(m.energy, e);
    assert_eq!(m.communication, c);
    assert_eq!(m.state_cost(MetricKind::Communication, NodeStatus::Leaving, NodeType::Gateway), c.leaving.gateway);
}

#[test]
fn bkrsc_table_with_defaults() {
    let constants = SchemeConstants::defaults();
    assert_eq!(constants.sent_energy_cost, scaled(0.0001));
    assert_eq!(constants.sent_message_size, 16);
    let t = get_metrics(100, 8, 4, &constants);
    assert_eq!(t.energy.compromised.constrained.exchange.sent, 1);
    assert_eq!(t.energy.compromised.constrained.exchange.received, 1);
    assert_eq!(t.energy.compromised.constrained.exchange_cost.sent, scaled(0.0001));
    assert_eq!(t.energy.compromised.constrained.number_of_involved_devices, 8);
    assert_eq!(t.energy.compromised.gateway.exchange.received, 100);
    assert_eq!(t.energy.compromised.gateway.exchange_cost.sent, 0);
    assert_eq!(t.energy.draining.gateway.exchange.received, 8);
    assert_eq!(t.energy.leaving.gateway.exchange.received, 4);
    assert_eq!(t.energy.leaving.left.exchange.sent, 1);
    assert_eq!(t.energy.compromised.left.exchange.sent, 0);
    assert_eq!(t.communication.compromised.constrained.exchange_cost.sent, 16 * COST_SCALE);
    assert_eq!(t.communication.leaving.gateway.exchange.received, 4);
    assert_eq!(t.communication.draining.gateway.number_of_involved_devices, 1);
    let unit = t.device_cost(MetricKind::Energy, NodeStatus::Compromised, NodeType::Constrained);
    assert_eq!(unit, 2 * scaled(0.0001) as u128);
}
