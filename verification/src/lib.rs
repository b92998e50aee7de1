//! Deterministic workload generation, fault scheduling and consistency checks
//! for a replicated message-streaming cluster.

pub mod action;
pub mod cluster;
pub mod driver;
pub mod faults;
pub mod fuzz;
pub mod invariants;
pub mod listing;
pub mod names;
pub mod network;
pub mod options;
pub mod oracle;
pub mod report;
pub mod retry;
pub mod rng;
pub mod shadow;
pub mod state_checker;
pub mod text;
pub mod weights;
pub mod workload;
