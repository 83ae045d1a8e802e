//! Continuous batching: admission, the requests in flight, chunked prefill, retirement.

pub mod admission;
pub mod chunking;
pub mod continuous;
pub mod inflight;
pub mod queue;
pub mod retire;
