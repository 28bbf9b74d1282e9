//! Verified core of a simulated-annealing tuner for SGX-enabled libc parameters.
//!
//! The crate holds the logic of the tuner that does not depend on floating
//! point arithmetic, threads or I/O: parsing of configuration documents,
//! generation of the parameter space and of neighbouring configurations,
//! the work pools shared by the parallel solvers, the parsers of the
//! benchmark outputs and the message formats exchanged with the agents.

pub mod text;
pub mod rng;
pub mod keyed;
pub mod xml_events;
pub mod pool;
pub mod tuner;
pub mod agent_bench;
pub mod core_tuner;
pub mod agent_target;
pub mod parallel_v1;
pub mod sequential;
pub mod annealing;
pub mod params_file;
