//! Serving runtime: batching, collectives, distributed execution, hot swap.

pub mod batcher;
pub mod collective_kind;
pub mod collectives;
pub mod cuda;
pub mod dispatch;
pub mod distributed;
pub mod drift_monitor;
pub mod error;
pub mod hotswap;
pub mod tensor;
pub mod types;
