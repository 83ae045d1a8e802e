//! Multi-process, multi-GPU execution: one process per rank, joined by collectives.

pub mod barrier_collective;
pub mod batch_driver;
pub mod capture;
pub mod continuous;
pub mod generation;
pub mod handoff;
pub mod launcher;
pub mod local_topology;
pub mod moe;
pub mod pipeline;
pub mod prefill;
pub mod rank_executor;
pub mod rank_plan;
pub mod resolve;
pub mod sampling;
pub mod segment_plan;
pub mod segment_runner;
pub mod world;
