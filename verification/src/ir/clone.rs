//! Copies of plans.

use vstd::prelude::*;

use crate::ieee::Ieee32;
use crate::ir::graph::ModelMeta;
use crate::ir::identity::{same_execution, same_meta, same_plan};
use crate::ir::plan::{Disaggregation, DtypeMap, PerLayerDtype, Plan};
use crate::ir::types::{
    CaptureClass, CudaGraphsConfig, DraftSpec, ExecutionConfig, SpecDecodeConfig,
};

verus! {

fn copy_layers(v: &Vec<PerLayerDtype>) -> (res: Vec<PerLayerDtype>)
    ensures
        res@ == v@,
{
    let mut out: Vec<PerLayerDtype> = Vec::new();
    let mut i: usize = 0;
    while i < v.len()
        invariant
            i <= v@.len(),
            out@ == v@.take(i as int),
        decreases v.len() - i,
    {
        out.push(v[i]);
        i += 1;
        assert(out@ =~= v@.take(i as int));
    }
    assert(out@ =~= v@);
    out
}

fn copy_classes(v: &Vec<CaptureClass>) -> (res: Vec<CaptureClass>)
    ensures
        res@ == v@,
{
    let mut out: Vec<CaptureClass> = Vec::new();
    let mut i: usize = 0;
    while i < v.len()
        invariant
            i <= v@.len(),
            out@ == v@.take(i as int),
        decreases v.len() - i,
    {
        out.push(v[i]);
        i += 1;
        assert(out@ =~= v@.take(i as int));
    }
    assert(out@ =~= v@);
    out
}

fn copy_execution(e: &ExecutionConfig) -> (res: ExecutionConfig)
    ensures
        same_execution(*e, res),
{
    let draft = match &e.spec_decode.draft {
        Some(d) => Some(
            DraftSpec {
                model_path: d.model_path.clone(),
                speculation_depth: d.speculation_depth,
            },
        ),
        None => None,
    };
    ExecutionConfig {
        cuda_graphs: CudaGraphsConfig {
            enable: e.cuda_graphs.enable,
            capture_classes: copy_classes(&e.cuda_graphs.capture_classes),
        },
        spec_decode: SpecDecodeConfig { enable: e.spec_decode.enable, draft },
        prefix_cache: e.prefix_cache,
    }
}

fn copy_meta(m: &ModelMeta) -> (res: ModelMeta)
    ensures
        forall|text: spec_fn(Ieee32) -> Seq<char>| #[trigger] same_meta(*m, res, text),
{
    ModelMeta {
        architecture: m.architecture.clone(),
        num_layers: m.num_layers,
        hidden: m.hidden,
        vocab: m.vocab,
        max_position: m.max_position,
        num_attention_heads: m.num_attention_heads,
        num_kv_heads: m.num_kv_heads,
        head_dim: m.head_dim,
        num_experts: m.num_experts,
        top_k: m.top_k,
        intermediate: m.intermediate,
        rope_theta: m.rope_theta,
        rms_norm_eps: m.rms_norm_eps,
        sliding_window: m.sliding_window,
        tied_embeddings: m.tied_embeddings,
    }
}

fn copy_plan(p: &Plan) -> (res: Plan)
    ensures
        forall|text: spec_fn(Ieee32) -> Seq<char>| #[trigger] same_plan(*p, res, text),
    decreases p,
{
    let disaggregation = match &p.disaggregation {
        Some(d) => Some(
            Disaggregation {
                prefill: Box::new(copy_plan(&d.prefill)),
                decode: Box::new(copy_plan(&d.decode)),
                transfer: d.transfer,
            },
        ),
        None => None,
    };
    let res = Plan {
        parallelism: p.parallelism,
        kv: p.kv,
        batching: p.batching,
        dtype_map: DtypeMap { per_layer: copy_layers(&p.dtype_map.per_layer) },
        execution: copy_execution(&p.execution),
        disaggregation,
        model_meta: copy_meta(&p.model_meta),
    };
    assert forall|text: spec_fn(Ieee32) -> Seq<char>| #[trigger] same_plan(*p, res, text) by {
        assert(same_meta(p.model_meta, res.model_meta, text));
        if let (Some(x), Some(y)) = (p.disaggregation, res.disaggregation) {
            assert(same_plan(*x.prefill, *y.prefill, text));
            assert(same_plan(*x.decode, *y.decode, text));
        }
    }
    res
}

impl Clone for Plan {
    fn clone(&self) -> (res: Self)
        ensures
            forall|text: spec_fn(Ieee32) -> Seq<char>| #[trigger] same_plan(*self, res, text),
    {
        copy_plan(self)
    }
}

} // verus!
