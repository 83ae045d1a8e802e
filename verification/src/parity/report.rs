//! What the parity gate reports.

use vstd::prelude::*;

use crate::ieee::Ieee64;
use crate::ir::types::{Component, Dtype};

verus! {

#[derive(Debug, Clone, PartialEq)]
pub struct ParityReport {
    pub passed: bool,
    /// The plan's content hash in hexadecimal.
    pub plan_hash: String,
    pub model: String,
    pub num_prompts: usize,
    pub per_prompt: Vec<PerPromptReport>,
    pub avg_final_kl: Ieee64,
    pub max_final_kl: Ieee64,
    pub slo_max_drift: Ieee64,
    /// The worst layer, if any layer is out of tolerance.
    pub failing_layer: Option<FailingLayerReport>,
}

#[derive(Debug, Clone, PartialEq)]
pub struct PerPromptReport {
    pub prompt_idx: usize,
    /// One entry per decoder block.
    pub per_layer_mse: Vec<Ieee64>,
    pub final_kl: Ieee64,
}

#[derive(Debug, Clone, PartialEq)]
pub struct FailingLayerReport {
    pub layer_idx: usize,
    pub component: Component,
    pub dtype: Dtype,
    pub measured_mse: Ieee64,
    pub tolerance: Ieee64,
    /// The prompts that are out of tolerance at this layer.
    pub prompts_violating: Vec<usize>,
}

} // verus!
