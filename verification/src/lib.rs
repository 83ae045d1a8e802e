//! Verified core of a compiler and runtime for distributed LLM inference.
//!
//! - [`ir`]: the typed model graph, the plan and its identity, the cluster and workload
//!   inputs, and the Mixtral importer.
//! - [`parity`]: whether a compiled artifact computes what its reference does.
//! - [`runtime`]: batching, collectives, hot swaps, drift, and the ranks of a group that
//!   decode together.
//! - [`text`]: numerals and scanning.
//!
//! Numbers that only ever get compared, carried or stored are held as IEEE-754 bit
//! patterns ([`ieee`]); arithmetic on them belongs to the callers.

pub mod ieee;
pub mod ir;
pub mod parity;
pub mod runtime;
pub mod text;
