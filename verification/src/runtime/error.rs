//! Errors of the runtime.
//!
//! Failures of files, sockets and other libraries belong to the callers that use them.

use vstd::prelude::*;

use crate::runtime::hotswap::InputMismatch;

verus! {

#[derive(Debug, Clone, PartialEq, Eq)]
pub enum RuntimeError {
    /// The request is not in flight.
    UnknownRequest(u64),
    /// No page is free, and none can be evicted.
    KvExhausted,
    /// The prompt can never fit the device's pages.
    KvUndersized { capacity_pages: u32, prompt_pages: u32 },
    /// A candidate artifact does not accept the inputs of the running one.
    IncompatibleArtifact { reason: InputMismatch },
    /// Requests were still in flight when the time to drain was over.
    DrainTimeout { remaining: u32, timeout_seconds: u32 },
    /// The server could not be set up.
    ServerInit(String),
    /// The code path needs a CUDA build.
    RequiresCuda { what: &'static str },
    /// The code path is laid out but not filled in.
    PhaseBOnly { what: &'static str },
    /// The operation has no implementation here.
    NotImplemented { what: &'static str },
}

} // verus!
