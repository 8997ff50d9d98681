//! Cost tables: for each metric (energy, communication), each disruption
//! status and each device role, how many messages a device sends and receives
//! and what one sent or received message costs.
//!
//! Costs are fixed-point integers: `COST_SCALE` units make one whole unit of
//! cost (one joule, one byte, whatever the table is denominated in).

use vstd::prelude::*;

verus! {

/// Number of fixed-point cost units in one whole unit of cost.
pub const COST_SCALE: u64 = 1_000_000_000;

/// The role of a device in the network.
#[derive(Debug, Clone, Copy, PartialEq, Eq, Structural)]
pub enum NodeType {
    Gateway,
    Constrained,
}

/// A disruption that can hit a device.
#[derive(Debug, Clone, Copy, PartialEq, Eq, Structural)]
pub enum NodeStatus {
    Compromised,
    Leaving,
    Draining,
}

/// The two cost dimensions of a table.
#[derive(Debug, Clone, Copy, PartialEq, Eq, Structural)]
pub enum MetricKind {
    Energy,
    Communication,
}

/// Messages exchanged by one device for one event.
#[derive(Debug, Clone, Copy, PartialEq, Eq, Structural)]
pub struct ExchangeType {
    pub sent: u32,
    pub received: u32,
}

/// Cost of one sent and of one received message, in fixed-point units.
#[derive(Debug, Clone, Copy, PartialEq, Eq, Structural)]
pub struct ExchangeCostType {
    pub sent: u64,
    pub received: u64,
}

/// One entry of a cost table.
#[derive(Debug, Clone, Copy, PartialEq, Eq, Structural)]
pub struct StateCostType {
    pub exchange: ExchangeType,
    pub exchange_cost: ExchangeCostType,
    pub number_of_involved_devices: u32,
}

impl StateCostType {
    /// Cost of one device under this entry: sent messages times the cost of
    /// a sent message, plus received messages times the cost of a received one.
    pub open spec fn spec_unit_cost(self) -> nat {
        (self.exchange.sent as nat) * (self.exchange_cost.sent as nat) + (
        self.exchange.received as nat) * (self.exchange_cost.received as nat)
    }

    /// The cost of one device under this entry; it cannot overflow.
    pub fn unit_cost(&self) -> (r: u128)
        ensures
            r == self.spec_unit_cost(),
    {
        let sent = self.exchange.sent as u128;
        let sent_cost = self.exchange_cost.sent as u128;
        let received = self.exchange.received as u128;
        let received_cost = self.exchange_cost.received as u128;
        proof {
            lemma_product_below(sent as nat, sent_cost as nat);
            lemma_product_below(received as nat, received_cost as nat);
        }
        sent * sent_cost + received * received_cost
    }
}

/// A `u32` count times a `u64` cost stays below 2^96.
proof fn lemma_product_below(a: nat, b: nat)
    requires
        a <= u32::MAX,
        b <= u64::MAX,
    ensures
        a * b <= 0xffff_ffff_0000_0000_0000_0000nat,
{
    assert(a * b <= 0xffff_ffffnat * b) by (nonlinear_arith)
        requires
            a <= 0xffff_ffffnat,
    ;
    assert(0xffff_ffffnat * b <= 0xffff_ffffnat * 0x1_0000_0000_0000_0000nat) by (nonlinear_arith)
        requires
            b <= u64::MAX,
    ;
}

/// Entries of one disruption status for the energy metric, by role.
#[derive(Debug, Clone, Copy, PartialEq, Eq, Structural)]
pub struct EnergyConsumptionType {
    pub constrained: StateCostType,
    pub gateway: StateCostType,
    pub left: StateCostType,
}

/// Entries of one disruption status for the communication metric, by role.
#[derive(Debug, Clone, Copy, PartialEq, Eq, Structural)]
pub struct CommunicationOverheadType {
    pub constrained: StateCostType,
    pub gateway: StateCostType,
    pub left: StateCostType,
}

/// The energy half of a cost table, by disruption status.
#[derive(Debug, Clone, Copy, PartialEq, Eq, Structural)]
pub struct EnergyType {
    pub compromised: EnergyConsumptionType,
    pub leaving: EnergyConsumptionType,
    pub draining: EnergyConsumptionType,
}

/// The communication half of a cost table, by disruption status.
#[derive(Debug, Clone, Copy, PartialEq, Eq, Structural)]
pub struct CommunicationType {
    pub compromised: CommunicationOverheadType,
    pub leaving: CommunicationOverheadType,
    pub draining: CommunicationOverheadType,
}

/// A full cost table of one scheme.
#[derive(Debug, Clone, Copy, PartialEq, Eq, Structural)]
pub struct MetricsType {
    pub energy: EnergyType,
    pub communication: CommunicationType,
}

/// The entry made of the given exchange counts, unit costs and group size.
pub open spec fn entry(
    sent: u32,
    received: u32,
    sent_cost: u64,
    received_cost: u64,
    involved: u32,
) -> StateCostType {
    StateCostType {
        exchange: ExchangeType { sent, received },
        exchange_cost: ExchangeCostType { sent: sent_cost, received: received_cost },
        number_of_involved_devices: involved,
    }
}

/// Builds `entry(sent, received, sent_cost, received_cost, involved)`.
pub(crate) fn make_entry(
    sent: u32,
    received: u32,
    sent_cost: u64,
    received_cost: u64,
    involved: u32,
) -> (r: StateCostType)
    ensures
        r == entry(sent, received, sent_cost, received_cost, involved),
{
    StateCostType {
        exchange: ExchangeType { sent, received },
        exchange_cost: ExchangeCostType { sent: sent_cost, received: received_cost },
        number_of_involved_devices: involved,
    }
}

impl EnergyType {
    /// Builds the energy half of a table. Within one status the three roles
    /// share the exchange counts and unit costs and differ in group size:
    /// `cc`, `cg`, `cl` are the constrained, gateway and left group sizes
    /// for a compromise, `l*` for a departure, `d*` for draining.
    pub fn new(
        compromised_sent: u32,
        compromised_received: u32,
        compromised_sent_cost: u64,
        compromised_received_cost: u64,
        leaving_sent: u32,
        leaving_received: u32,
        leaving_sent_cost: u64,
        leaving_received_cost: u64,
        draining_sent: u32,
        draining_received: u32,
        draining_sent_cost: u64,
        draining_received_cost: u64,
        cc_involved_devices: u32,
        cg_involved_devices: u32,
        cl_involved_devices: u32,
        lc_involved_devices: u32,
        lg_involved_devices: u32,
        ll_involved_devices: u32,
        dc_involved_devices: u32,
        dg_involved_devices: u32,
        dl_involved_devices: u32,
    ) -> (r: Self)
        ensures
            r == (EnergyType {
                compromised: EnergyConsumptionType {
                    constrained: entry(compromised_sent, compromised_received,
                        compromised_sent_cost, compromised_received_cost, cc_involved_devices),
                    gateway: entry(compromised_sent, compromised_received,
                        compromised_sent_cost, compromised_received_cost, cg_involved_devices),
                    left: entry(compromised_sent, compromised_received,
                        compromised_sent_cost, compromised_received_cost, cl_involved_devices),
                },
                leaving: EnergyConsumptionType {
                    constrained: entry(leaving_sent, leaving_received, leaving_sent_cost,
                        leaving_received_cost, lc_involved_devices),
                    gateway: entry(leaving_sent, leaving_received, leaving_sent_cost,
                        leaving_received_cost, lg_involved_devices),
                    left: entry(leaving_sent, leaving_received, leaving_sent_cost,
                        leaving_received_cost, ll_involved_devices),
                },
                draining: EnergyConsumptionType {
                    constrained: entry(draining_sent, draining_received, draining_sent_cost,
                        draining_received_cost, dc_involved_devices),
                    gateway: entry(draining_sent, draining_received, draining_sent_cost,
                        draining_received_cost, dg_involved_devices),
                    left: entry(draining_sent, draining_received, draining_sent_cost,
                        draining_received_cost, dl_involved_devices),
                },
            }),
    {
        EnergyType {
            compromised: EnergyConsumptionType {
                constrained: make_entry(compromised_sent, compromised_received,
                    compromised_sent_cost, compromised_received_cost, cc_involved_devices),
                gateway: make_entry(compromised_sent, compromised_received,
                    compromised_sent_cost, compromised_received_cost, cg_involved_devices),
                left: make_entry(compromised_sent, compromised_received, compromised_sent_cost,
                    compromised_received_cost, cl_involved_devices),
            },
            leaving: EnergyConsumptionType {
                constrained: make_entry(leaving_sent, leaving_received, leaving_sent_cost,
                    leaving_received_cost, lc_involved_devices),
                gateway: make_entry(leaving_sent, leaving_received, leaving_sent_cost,
                    leaving_received_cost, lg_involved_devices),
                left: make_entry(leaving_sent, leaving_received, leaving_sent_cost,
                    leaving_received_cost, ll_involved_devices),
            },
            draining: EnergyConsumptionType {
                constrained: make_entry(draining_sent, draining_received, draining_sent_cost,
                    draining_received_cost, dc_involved_devices),
                gateway: make_entry(draining_sent, draining_received, draining_sent_cost,
                    draining_received_cost, dg_involved_devices),
                left: make_entry(draining_sent, draining_received, draining_sent_cost,
                    draining_received_cost, dl_involved_devices),
            },
        }
    }
}

impl CommunicationType {
    /// Builds the communication half of a table. Within one status the three roles
    /// share the exchange counts and unit costs and differ in group size:
    /// `cc`, `cg`, `cl` are the constrained, gateway and left group sizes
    /// for a compromise, `l*` for a departure, `d*` for draining.
    pub fn new(
        compromised_sent: u32,
        compromised_received: u32,
        compromised_sent_cost: u64,
        compromised_received_cost: u64,
        leaving_sent: u32,
        leaving_received: u32,
        leaving_sent_cost: u64,
        leaving_received_cost: u64,
        draining_sent: u32,
        draining_received: u32,
        draining_sent_cost: u64,
        draining_received_cost: u64,
        cc_involved_devices: u32,
        cg_involved_devices: u32,
        cl_involved_devices: u32,
        lc_involved_devices: u32,
        lg_involved_devices: u32,
        ll_involved_devices: u32,
        dc_involved_devices: u32,
        dg_involved_devices: u32,
        dl_involved_devices: u32,
    ) -> (r: Self)
        ensures
            r == (CommunicationType {
                compromised: CommunicationOverheadType {
                    constrained: entry(compromised_sent, compromised_received,
                        compromised_sent_cost, compromised_received_cost, cc_involved_devices),
                    gateway: entry(compromised_sent, compromised_received,
                        compromised_sent_cost, compromised_received_cost, cg_involved_devices),
                    left: entry(compromised_sent, compromised_received,
                        compromised_sent_cost, compromised_received_cost, cl_involved_devices),
                },
                leaving: CommunicationOverheadType {
                    constrained: entry(leaving_sent, leaving_received, leaving_sent_cost,
                        leaving_received_cost, lc_involved_devices),
                    gateway: entry(leaving_sent, leaving_received, leaving_sent_cost,
                        leaving_received_cost, lg_involved_devices),
                    left: entry(leaving_sent, leaving_received, leaving_sent_cost,
                        leaving_received_cost, ll_involved_devices),
                },
                draining: CommunicationOverheadType {
                    constrained: entry(draining_sent, draining_received, draining_sent_cost,
                        draining_received_cost, dc_involved_devices),
                    gateway: entry(draining_sent, draining_received, draining_sent_cost,
                        draining_received_cost, dg_involved_devices),
                    left: entry(draining_sent, draining_received, draining_sent_cost,
                        draining_received_cost, dl_involved_devices),
                },
            }),
    {
        CommunicationType {
            compromised: CommunicationOverheadType {
                constrained: make_entry(compromised_sent, compromised_received,
                    compromised_sent_cost, compromised_received_cost, cc_involved_devices),
                gateway: make_entry(compromised_sent, compromised_received,
                    compromised_sent_cost, compromised_received_cost, cg_involved_devices),
                left: make_entry(compromised_sent, compromised_received, compromised_sent_cost,
                    compromised_received_cost, cl_involved_devices),
            },
            leaving: CommunicationOverheadType {
                constrained: make_entry(leaving_sent, leaving_received, leaving_sent_cost,
                    leaving_received_cost, lc_involved_devices),
                gateway: make_entry(leaving_sent, leaving_received, leaving_sent_cost,
                    leaving_received_cost, lg_involved_devices),
                left: make_entry(leaving_sent, leaving_received, leaving_sent_cost,
                    leaving_received_cost, ll_involved_devices),
            },
            draining: CommunicationOverheadType {
                constrained: make_entry(draining_sent, draining_received, draining_sent_cost,
                    draining_received_cost, dc_involved_devices),
                gateway: make_entry(draining_sent, draining_received, draining_sent_cost,
                    draining_received_cost, dg_involved_devices),
                left: make_entry(draining_sent, draining_received, draining_sent_cost,
                    draining_received_cost, dl_involved_devices),
            },
        }
    }
}

impl MetricsType {
    /// A table made of its energy and communication halves.
    pub fn new(energy: EnergyType, communication: CommunicationType) -> (r: Self)
        ensures
            r == (MetricsType { energy, communication }),
    {
        MetricsType { energy, communication }
    }

    /// The entry of this table for a metric, a disruption status and a role.
    pub open spec fn spec_state_cost(self, metric: MetricKind, status: NodeStatus, kind: NodeType)
        -> StateCostType {
        match metric {
            MetricKind::Energy => {
                let by_role = match status {
                    NodeStatus::Compromised => self.energy.compromised,
                    NodeStatus::Leaving => self.energy.leaving,
                    NodeStatus::Draining => self.energy.draining,
                };
                match kind {
                    NodeType::Gateway => by_role.gateway,
                    NodeType::Constrained => by_role.constrained,
                }
            },
            MetricKind::Communication => {
                let by_role = match status {
                    NodeStatus::Compromised => self.communication.compromised,
                    NodeStatus::Leaving => self.communication.leaving,
                    NodeStatus::Draining => self.communication.draining,
                };
                match kind {
                    NodeType::Gateway => by_role.gateway,
                    NodeType::Constrained => by_role.constrained,
                }
            },
        }
    }

    /// The entry of this table for `metric`, `status` and `kind`.
    pub fn state_cost(&self, metric: MetricKind, status: NodeStatus, kind: NodeType) -> (r:
        StateCostType)
        ensures
            r == self.spec_state_cost(metric, status, kind),
    {
        match metric {
            MetricKind::Energy => {
                let by_role = match status {
                    NodeStatus::Compromised => self.energy.compromised,
                    NodeStatus::Leaving => self.energy.leaving,
                    NodeStatus::Draining => self.energy.draining,
                };
                match kind {
                    NodeType::Gateway => by_role.gateway,
                    NodeType::Constrained => by_role.constrained,
                }
            },
            MetricKind::Communication => {
                let by_role = match status {
                    NodeStatus::Compromised => self.communication.compromised,
                    NodeStatus::Leaving => self.communication.leaving,
                    NodeStatus::Draining => self.communication.draining,
                };
                match kind {
                    NodeType::Gateway => by_role.gateway,
                    NodeType::Constrained => by_role.constrained,
                }
            },
        }
    }

    /// What one device of role `kind` costs under `metric` and `status`.
    pub open spec fn spec_device_cost(self, metric: MetricKind, status: NodeStatus, kind: NodeType)
        -> nat {
        self.spec_state_cost(metric, status, kind).spec_unit_cost()
    }

    /// What one device of role `kind` costs under `metric` and `status`.
    pub fn device_cost(&self, metric: MetricKind, status: NodeStatus, kind: NodeType) -> (r: u128)
        ensures
            r == self.spec_device_cost(metric, status, kind),
    {
        self.state_cost(metric, status, kind).unit_cost()
    }
}

} // verus!
