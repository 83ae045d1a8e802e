//! Kernel dispatch.

use vstd::prelude::*;

verus! {

/// How a step was dispatched.
#[derive(Debug, Clone, Copy, PartialEq, Eq, Structural)]
pub enum DispatchOutcome {
    Eager,
}

/// Runs every step eagerly.
#[derive(Debug, Clone, Copy, PartialEq, Eq, Structural)]
pub struct EagerDispatcher;

/// Knows the batch size and KV class pairs that were captured.
#[derive(Debug)]
pub struct CudaGraphDispatcher {
    pub captured: Vec<(u32, u32)>,
}

impl CudaGraphDispatcher {
    /// Nothing is captured yet.
    pub fn new() -> (res: Self)
        ensures
            res.captured@.len() == 0,
    {
        CudaGraphDispatcher { captured: Vec::new() }
    }

    pub fn captured_len(&self) -> (res: usize)
        ensures
            res == self.captured@.len(),
    {
        self.captured.len()
    }
}

} // verus!
