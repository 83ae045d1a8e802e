//! Errors of the parity gate.

use vstd::prelude::*;

verus! {

#[derive(Debug, Clone, PartialEq, Eq)]
pub enum ParityError {
    /// Two things that should be equally long are not.
    ShapeMismatch { expected: usize, got: usize },
    /// The plan does not have one dtype entry per decoder block.
    DtypeMapIncomplete { expected: usize, actual: usize },
    /// The reference cannot run in that dtype.
    InvalidReferenceDtype { dtype: String },
    /// The reference process could not be used; `source` says why.
    PythonIo { action: &'static str, source: String },
    /// The reference process did not finish in time.
    PythonSubprocessTimeout { timeout_ms: u64, stderr: String },
    /// The reference process failed.
    PythonSubprocessFailed { exit_code: Option<i32>, stderr: String },
    /// The reference process said something unexpected.
    PythonProtocol(String),
    /// The artifact could not be run.
    Compile(String),
}

} // verus!
