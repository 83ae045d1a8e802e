//! Error types of the importer, the cluster and workload parsers, and `Plan`.
//!
//! Failures of files and of the JSON and TOML syntax belong to the callers that read
//! them; what remains here are the rules on the content.

use vstd::prelude::*;

verus! {

/// Failure modes of the importer.
#[derive(Debug, Clone, PartialEq, Eq)]
pub enum ImportError {
    /// The config has no `architectures` array to dispatch on.
    NoArchitecture,
    /// The architecture is recognized but has no importer yet.
    ArchitectureNotYetImplemented { arch: String },
    /// The architecture is unknown.
    UnsupportedArchitecture(String),
    /// A field's value would produce an inconsistent graph.
    InvalidConfig { field: &'static str, value: String, constraint: &'static str },
}

/// Failure modes of cluster validation.
#[derive(Debug, Clone, PartialEq, Eq)]
pub enum ClusterError {
    /// The declared device count differs from the sum over the nodes.
    DeviceCountMismatch { declared: u32, actual: u32 },
    /// A link endpoint is in no node.
    UnknownDeviceInLink { device: String },
    /// A link joins a device to itself.
    SelfLink { a: String, b: String },
    /// A device id appears more than once.
    DuplicateDevice(String),
    /// A node id appears more than once.
    DuplicateNode(String),
}

/// Failure modes of a workload trace.
#[derive(Debug, Clone, PartialEq, Eq)]
pub enum WorkloadError {
    /// The trace has no line but blank ones.
    Empty,
    /// The line is not the JSON that stands there; `source` says why.
    Json { line: usize, source: String },
    /// The first line is an object without the SLO header.
    MissingSlo,
    /// A request arrives before its predecessor.
    NonMonotonicArrival { line: usize, arrival: u64, previous: u64 },
}

/// Failure modes when composing a `Plan`.
#[derive(Debug, Clone, Copy, PartialEq, Eq, Structural)]
pub enum PlanError {
    /// The dtype map does not have one entry per model layer.
    DtypeMapLengthMismatch { expected: usize, actual: usize },
}

} // verus!
