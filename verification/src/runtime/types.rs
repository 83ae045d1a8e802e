//! Requests as the runtime sees them.

use vstd::prelude::*;

verus! {

/// The identity of a request.
#[derive(Debug, Clone, Copy, PartialEq, Eq, Hash, Structural)]
pub struct RequestId(pub u64);

/// A request as it arrives.
#[derive(Debug, Clone, PartialEq, Eq)]
pub struct IncomingRequest {
    pub id: RequestId,
    pub prompt_tokens: Vec<u32>,
    pub max_output_tokens: u32,
    pub arrival_ms: u64,
}

/// The handle of the stream that a request's tokens are sent on.
#[derive(Debug, Clone, Copy, PartialEq, Eq, Hash, Structural)]
pub struct TokenSender {
    pub stream: u64,
}

} // verus!
