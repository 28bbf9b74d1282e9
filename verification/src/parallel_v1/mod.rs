//! The first parallel tuner: workers share a pool of neighbouring
//! configurations and the counters of the annealing, and a proxy between
//! benchmark and target measures the traffic.

pub mod shared;
pub mod meter_proxy;
pub mod energy_eval;
