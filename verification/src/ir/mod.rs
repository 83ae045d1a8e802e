//! Typed intermediate representation: the model graph and the inputs of plan search.

pub mod canonical;
mod clone;
pub mod cluster;
pub mod error;
pub mod graph;
pub mod hash;
pub mod identity;
pub mod model;
pub mod plan;
pub mod types;
pub mod workload;
