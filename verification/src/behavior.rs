//! Deterministic compilation of authored Feature behavior into intended flow graphs.

pub mod analysis;
pub mod bfg;
pub mod compile;
pub mod dominance;
pub mod flow;
pub mod graph;
pub mod model;
