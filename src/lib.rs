//! Simulation of device-membership management costs in constrained device
//! networks: a degree-capped random topology generator, per-device status
//! flags, a per-role and per-status cost model, and a Monte-Carlo driver that
//! averages the costs of two schemes over many rounds.

pub mod cost_model;
pub mod costs;
pub mod generator;
pub mod methods;
pub mod network;
pub mod simulation;
mod random;

pub use cost_model::{MetricsFor, TotalCommunicationOverhead, TotalEnergyConsumption};
pub use generator::initialize_network;
pub use network::{Node, NodesVec};
pub use costs::{
    CommunicationOverheadType, CommunicationType, EnergyConsumptionType, EnergyType,
    ExchangeCostType, ExchangeType, MetricKind, MetricsType, NodeStatus, NodeType, StateCostType,
    COST_SCALE,
};
