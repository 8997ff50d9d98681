//! The cost model: what the devices of a set that a role filter selects cost
//! under one metric and one disruption status, according to a cost table.
//!
//! Each selected device is counted twice: the aggregation adds its cost once
//! for matching the filter and once more for every device it walks. Scheme
//! comparisons are unaffected by this constant factor; absolute totals are
//! twice the plain sum.
//!
//! Totals saturate at `u128::MAX` instead of overflowing.

use crate::costs::{MetricKind, MetricsType, NodeStatus, NodeType};
use crate::network::{Node, NodeView, NodesVec};
use vstd::prelude::*;

verus! {

/// Which devices an aggregate covers.
#[derive(Debug, Clone, Copy, PartialEq, Eq, Structural)]
pub enum MetricsFor {
    Constrained,
    Gateway,
    All,
}

/// `filter` covers devices of role `kind`.
pub open spec fn spec_selects(filter: MetricsFor, kind: NodeType) -> bool {
    match filter {
        MetricsFor::Constrained => kind == NodeType::Constrained,
        MetricsFor::Gateway => kind == NodeType::Gateway,
        MetricsFor::All => true,
    }
}

/// Whether `filter` covers devices of role `kind`.
pub fn selects(filter: MetricsFor, kind: NodeType) -> (r: bool)
    ensures
        r == spec_selects(filter, kind),
{
    match filter {
        MetricsFor::Constrained => kind == NodeType::Constrained,
        MetricsFor::Gateway => kind == NodeType::Gateway,
        MetricsFor::All => true,
    }
}

/// Twice the cost of each device of `s` that `filter` covers, summed.
pub open spec fn spec_total(
    s: Seq<NodeView>,
    metric: MetricKind,
    status: NodeStatus,
    filter: MetricsFor,
    table: MetricsType,
) -> nat
    decreases s.len(),
{
    if s.len() == 0 {
        0
    } else {
        let v = s.last();
        spec_total(s.drop_last(), metric, status, filter, table) + if spec_selects(filter, v.kind) {
            2 * table.spec_device_cost(metric, status, v.kind)
        } else {
            0
        }
    }
}

/// `x`, or `u128::MAX` where `x` exceeds it.
pub open spec fn saturated(x: nat) -> nat {
    if x > u128::MAX {
        u128::MAX as nat
    } else {
        x
    }
}

/// Every entry of `table` has zero unit costs for sent and for received
/// messages.
pub open spec fn has_zero_unit_costs(table: MetricsType) -> bool {
    forall|metric: MetricKind, status: NodeStatus, kind: NodeType|
        (#[trigger] table.spec_state_cost(metric, status, kind)).exchange_cost.sent == 0
            && table.spec_state_cost(metric, status, kind).exchange_cost.received == 0
}

/// With a table whose unit costs are all zero, the aggregate is zero for
/// every metric, status, role filter and device set.
pub proof fn lemma_zero_cost_table(
    s: Seq<NodeView>,
    metric: MetricKind,
    status: NodeStatus,
    filter: MetricsFor,
    table: MetricsType,
)
    requires
        has_zero_unit_costs(table),
    ensures
        saturated(spec_total(s, metric, status, filter, table)) == 0,
    decreases s.len(),
{
    if s.len() > 0 {
        lemma_zero_cost_table(s.drop_last(), metric, status, filter, table);
        let e = table.spec_state_cost(metric, status, s.last().kind);
        assert(e.exchange_cost.sent == 0 && e.exchange_cost.received == 0);
        assert(e.spec_unit_cost() == 0);
    }
}

impl Node {
    /// Energy one device of this role costs under `status`.
    pub fn energy_consumption(&self, status: NodeStatus, metrics: MetricsType) -> (r: u128)
        ensures
            r == metrics.spec_device_cost(MetricKind::Energy, status, self.kind),
    {
        metrics.device_cost(MetricKind::Energy, status, self.kind)
    }

    /// Communication one device of this role costs under `status`.
    pub fn communication_overhead(&self, status: NodeStatus, metrics: MetricsType) -> (r: u128)
        ensures
            r == metrics.spec_device_cost(MetricKind::Communication, status, self.kind),
    {
        metrics.device_cost(MetricKind::Communication, status, self.kind)
    }
}

impl NodesVec {
    /// The total `metric` cost under `status` of the devices that
    /// `metrics_for` covers, each counted twice, saturating at `u128::MAX`.
    /// The flags of the devices play no part.
    pub fn aggregate_cost(
        &self,
        metric: MetricKind,
        status: NodeStatus,
        metrics_for: MetricsFor,
        metrics: MetricsType,
    ) -> (r: u128)
        ensures
            r == saturated(spec_total(self@, metric, status, metrics_for, metrics)),
    {
        let nodes = self.nodes();
        let ghost s = self@;
        let mut total: u128 = 0;
        for i in 0..nodes.len()
            invariant
                nodes@.map_values(|n: Node| n@) == s,
                total == saturated(
                    spec_total(s.take(i as int), metric, status, metrics_for, metrics),
                ),
        {
            let node = &nodes[i];
            proof {
                assert(s.take(i + 1).drop_last() =~= s.take(i as int));
                assert(s.take(i + 1).last() == node@);
            }
            if selects(metrics_for, node.kind) {
                let cost = metrics.device_cost(metric, status, node.kind);
                total = total.saturating_add(cost);
                total = total.saturating_add(cost);
            }
        }
        proof {
            assert(s.take(s.len() as int) =~= s);
        }
        total
    }
}

/// The total energy of a device set under a disruption status.
pub trait TotalEnergyConsumption<M> {
    fn total_energy_consumption(
        &self,
        status: NodeStatus,
        metrics_for: MetricsFor,
        metrics: M,
    ) -> u128;
}

/// The total communication overhead of a device set under a disruption status.
pub trait TotalCommunicationOverhead<M> {
    fn total_communication_overhead(
        &self,
        status: NodeStatus,
        metrics_for: MetricsFor,
        metrics: M,
    ) -> u128;
}

impl TotalEnergyConsumption<MetricsType> for NodesVec {
    fn total_energy_consumption(
        &self,
        status: NodeStatus,
        metrics_for: MetricsFor,
        metrics: MetricsType,
    ) -> (r: u128)
        ensures
            r == saturated(spec_total(self@, MetricKind::Energy, status, metrics_for, metrics)),
    {
        self.aggregate_cost(MetricKind::Energy, status, metrics_for, metrics)
    }
}

impl TotalCommunicationOverhead<MetricsType> for NodesVec {
    fn total_communication_overhead(
        &self,
        status: NodeStatus,
        metrics_for: MetricsFor,
        metrics: MetricsType,
    ) -> (r: u128)
        ensures
            r == saturated(
                spec_total(self@, MetricKind::Communication, status, metrics_for, metrics),
            ),
    {
        self.aggregate_cost(MetricKind::Communication, status, metrics_for, metrics)
    }
}

} // verus!
