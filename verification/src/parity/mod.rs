//! Post-compile parity gate: whether a compiled artifact computes what its reference does,
//! within the tolerances of its dtypes and the drift that the SLO allows.

pub mod comparison;
pub mod drift_update;
pub mod error;
pub mod reference;
pub mod report;
pub mod tolerance;
pub mod verdict;
pub mod verify;
