//! The cost table of the BKRSC scheme.

use crate::costs::{
    entry, make_entry, CommunicationOverheadType, CommunicationType, EnergyConsumptionType,
    EnergyType, MetricsType, COST_SCALE,
};
use vstd::prelude::*;

verus! {

/// Energy to send or to receive one bit when nothing else is configured:
/// 0.0001 of a unit, in fixed-point cost units.
pub const DEFAULT_BIT_ENERGY: u64 = 100_000;

/// Size of a sent or received message when nothing else is configured.
pub const DEFAULT_MESSAGE_SIZE: u32 = 16;

/// The numeric constants of the scheme.
#[derive(Debug, Clone, Copy, PartialEq, Eq, Structural)]
pub struct SchemeConstants {
    /// Energy of one sent unit, in fixed-point cost units.
    pub sent_energy_cost: u64,
    /// Energy of one received unit, in fixed-point cost units.
    pub received_energy_cost: u64,
    /// Size of a sent message.
    pub sent_message_size: u32,
    /// Size of a received message.
    pub received_message_size: u32,
}

impl SchemeConstants {
    /// The constants that hold where nothing else is configured.
    pub fn defaults() -> (r: Self)
        ensures
            r == (SchemeConstants {
                sent_energy_cost: DEFAULT_BIT_ENERGY,
                received_energy_cost: DEFAULT_BIT_ENERGY,
                sent_message_size: DEFAULT_MESSAGE_SIZE,
                received_message_size: DEFAULT_MESSAGE_SIZE,
            }),
    {
        SchemeConstants {
            sent_energy_cost: DEFAULT_BIT_ENERGY,
            received_energy_cost: DEFAULT_BIT_ENERGY,
            sent_message_size: DEFAULT_MESSAGE_SIZE,
            received_message_size: DEFAULT_MESSAGE_SIZE,
        }
    }
}

/// A message size as a communication cost in fixed-point units.
pub open spec fn size_cost(size: u32) -> u64 {
    (size * COST_SCALE) as u64
}

fn to_size_cost(size: u32) -> (r: u64)
    ensures
        r == size_cost(size),
{
    proof {
        assert(size * COST_SCALE <= u32::MAX * COST_SCALE) by (nonlinear_arith)
            requires
                size <= u32::MAX,
        ;
    }
    (size as u64) * COST_SCALE
}

/// The BKRSC table for a network of `number_of_nodes` devices with groups
/// of `number_of_gateway_members` under a gateway and
/// `number_of_neighbors` neighbors per device on average.
///
/// A constrained device sends and receives one message under every
/// disruption, with a group of `number_of_gateway_members`. A gateway sends
/// one message and receives one from every device on a compromise, one from
/// each group member on draining and one from each neighbor on a departure,
/// at no energy cost. A device that has left exchanges one message each way
/// on a departure and none otherwise. Energy is priced per sent and
/// received unit by `constants`; communication by the message sizes.
pub fn get_metrics(
    number_of_nodes: u32,
    number_of_gateway_members: u32,
    number_of_neighbors: u32,
    constants: &SchemeConstants,
) -> (r: MetricsType)
    ensures
        ({
            let eps = constants.sent_energy_cost;
            let epr = constants.received_energy_cost;
            let s = size_cost(constants.sent_message_size);
            let v = size_cost(constants.received_message_size);
            let m = number_of_gateway_members;
            &&& r.energy.compromised.constrained == entry(1, 1, eps, epr, m)
            &&& r.energy.compromised.gateway == entry(1, number_of_nodes, 0, 0, 1)
            &&& r.energy.compromised.left == entry(0, 0, eps, epr, 0)
            &&& r.energy.draining.constrained == entry(1, 1, eps, epr, m)
            &&& r.energy.draining.gateway == entry(1, m, 0, 0, 1)
            &&& r.energy.draining.left == entry(0, 0, eps, epr, 0)
            &&& r.energy.leaving.constrained == entry(1, 1, eps, epr, m)
            &&& r.energy.leaving.gateway == entry(1, number_of_neighbors, 0, 0, 1)
            &&& r.energy.leaving.left == entry(1, 1, eps, epr, 0)
            &&& r.communication.compromised.constrained == entry(1, 1, s, v, m)
            &&& r.communication.compromised.gateway == entry(1, number_of_nodes, s, v, 1)
            &&& r.communication.compromised.left == entry(0, 0, s, v, 0)
            &&& r.communication.draining.constrained == entry(1, 1, s, v, m)
            &&& r.communication.draining.gateway == entry(1, m, s, v, 1)
            &&& r.communication.draining.left == entry(0, 0, s, v, 0)
            &&& r.communication.leaving.constrained == entry(1, 1, s, v, m)
            &&& r.communication.leaving.gateway == entry(1, number_of_neighbors, s, v, 1)
            &&& r.communication.leaving.left == entry(1, 1, s, v, 0)
        }),
{
    let eps = constants.sent_energy_cost;
    let epr = constants.received_energy_cost;
    let s = to_size_cost(constants.sent_message_size);
    let v = to_size_cost(constants.received_message_size);
    let m = number_of_gateway_members;
    MetricsType {
        energy: EnergyType {
            compromised: EnergyConsumptionType {
                constrained: make_entry(1, 1, eps, epr, m),
                gateway: make_entry(1, number_of_nodes, 0, 0, 1),
                left: make_entry(0, 0, eps, epr, 0),
            },
            leaving: EnergyConsumptionType {
                constrained: make_entry(1, 1, eps, epr, m),
                gateway: make_entry(1, number_of_neighbors, 0, 0, 1),
                left: make_entry(1, 1, eps, epr, 0),
            },
            draining: EnergyConsumptionType {
                constrained: make_entry(1, 1, eps, epr, m),
                gateway: make_entry(1, m, 0, 0, 1),
                left: make_entry(0, 0, eps, epr, 0),
            },
        },
        communication: CommunicationType {
            compromised: CommunicationOverheadType {
                constrained: make_entry(1, 1, s, v, m),
                gateway: make_entry(1, number_of_nodes, s, v, 1),
                left: make_entry(0, 0, s, v, 0),
            },
            leaving: CommunicationOverheadType {
                constrained: make_entry(1, 1, s, v, m),
                gateway: make_entry(1, number_of_neighbors, s, v, 1),
                left: make_entry(1, 1, s, v, 0),
            },
            draining: CommunicationOverheadType {
                constrained: make_entry(1, 1, s, v, m),
                gateway: make_entry(1, m, s, v, 1),
                left: make_entry(0, 0, s, v, 0),
            },
        },
    }
}

} // verus!
