//! The comparison of artifacts with their reference.

use std::collections::{BTreeMap, HashMap};

use skein::ieee::{Ieee32, Ieee64};
use skein::ir::graph::{Graph, ModelMeta};
use skein::ir::plan::{DtypeMap, ParallelismPlacement, PerLayerDtype, Plan};
use skein::ir::types::{
    BatchPolicy, Component, CudaGraphsConfig, Dtype, ExecutionConfig, KVCacheSpec, KVLayout,
    PrefixCacheConfig, RadixReusePolicy, SpecDecodeConfig,
};
use skein::ir::workload::{Slo, Workload};
use skein::parity::comparison::{kl_divergence, mse};
use skein::parity::drift_update::update_drift_table_on_failure;
use skein::parity::error::ParityError;
use skein::parity::reference::{
    answer_lines, ReferenceBatch, ReferenceCache, ReferenceDtype, ReferenceOutput,
};
use skein::parity::report::{FailingLayerReport, ParityReport, PerPromptReport};
use skein::parity::tolerance::{dominant_dtype_at_layer, tolerance_for_layer, ToleranceTable};
use skein::parity::verdict::judge;
use skein::parity::verify::{
    tokenize_prompt_bytes, verify_plan, verify_skein_pair, HFReference, ParityMath, SkeinForward,
    SkeinOutput,
};

const NUM_BLOCKS: usize = 32;
const HIDDEN: usize = 4;
const VOCAB: usize = 6;

fn ieee32(x: f32) -> Ieee32 {
    Ieee32 { bits: x.to_bits() }
}

fn ieee64(x: f64) -> Ieee64 {
    Ieee64 { bits: x.to_bits() }
}

fn value(x: Ieee64) -> f64 {
    f64::from_bits(x.bits)
}

fn tensor(v: &[f32]) -> Vec<Ieee32> {
    v.iter().map(|x| ieee32(*x)).collect()
}

fn floats(v: &Vec<Ieee32>) -> Vec<f32> {
    v.iter().map(|x| f32::from_bits(x.bits)).collect()
}

fn mean_square(a: &Vec<Ieee32>, b: &Vec<Ieee32>) -> Ieee64 {
    let (a, b) = (floats(a), floats(b));
    let sum: f64 = a
        .iter()
        .zip(b.iter())
        .map(|(x, y)| {
            let d = (*x as f64) - (*y as f64);
            d * d
        })
        .sum();
    ieee64(sum / a.len() as f64)
}

fn log_softmax(logits: &[f32]) -> Vec<f32> {
    let max = logits.iter().copied().fold(f32::NEG_INFINITY, f32::max);
    let shifted: Vec<f32> = logits.iter().map(|x| x - max).collect();
    let log_sum_exp: f32 = shifted.iter().map(|x| x.exp()).sum::<f32>().ln();
    shifted.iter().map(|x| x - log_sum_exp).collect()
}

fn divergence(p: &Vec<Ieee32>, q: &Vec<Ieee32>) -> Ieee64 {
    let (lp, lq) = (log_softmax(&floats(p)), log_softmax(&floats(q)));
    let kl: f64 = lp
        .iter()
        .zip(lq.iter())
        .map(|(a, b)| (*a as f64).exp() * ((*a as f64) - (*b as f64)))
        .sum();
    ieee64(kl.max(0.0))
}

fn mean(v: &Vec<Ieee64>) -> Ieee64 {
    ieee64(v.iter().map(|x| value(*x)).sum::<f64>() / v.len() as f64)
}

fn write(x: Ieee32) -> String {
    format!("{}", f32::from_bits(x.bits))
}

fn mse_of(a: &[f32], b: &[f32]) -> Result<f64, ParityError> {
    mse(&tensor(a), &tensor(b), &mean_square).map(value)
}

fn kl_of(a: &[f32], b: &[f32]) -> Result<f64, ParityError> {
    kl_divergence(&tensor(a), &tensor(b), &divergence).map(value)
}

fn mixtral_meta() -> ModelMeta {
    ModelMeta {
        architecture: "MixtralForCausalLM".to_string(),
        num_layers: NUM_BLOCKS,
        hidden: 4096,
        vocab: 32_000,
        max_position: 32_768,
        num_attention_heads: 32,
        num_kv_heads: 8,
        head_dim: 128,
        num_experts: Some(8),
        top_k: Some(2),
        intermediate: 14_336,
        rope_theta: ieee32(1_000_000.0),
        rms_norm_eps: ieee32(1e-5),
        sliding_window: None,
        tied_embeddings: false,
    }
}

fn mk_plan(weight: Dtype, activation: Dtype, kv: Dtype) -> Plan {
    Plan {
        parallelism: ParallelismPlacement {
            tp: 2,
            pp: 1,
            ep: 1,
        },
        kv: KVCacheSpec {
            layout: KVLayout::Paged { page_size: 32 },
            kv_sharded: false,
        },
        batching: BatchPolicy::Continuous { max_batch: 8 },
        dtype_map: DtypeMap {
            per_layer: vec![
                PerLayerDtype {
                    weight,
                    activation,
                    kv_cache: kv,
                };
                NUM_BLOCKS
            ],
        },
        execution: ExecutionConfig {
            cuda_graphs: CudaGraphsConfig {
                enable: false,
                capture_classes: vec![],
            },
            spec_decode: SpecDecodeConfig {
                enable: false,
                draft: None,
            },
            prefix_cache: PrefixCacheConfig {
                enable: false,
                reuse_policy: RadixReusePolicy::LruByLastAccess,
            },
        },
        disaggregation: None,
        model_meta: mixtral_meta(),
    }
}

fn slo(max_accuracy_drift: f64) -> Workload {
    Workload {
        slo: Slo {
            ttft_p95_ms: 500,
            tpot_p95_ms: 50,
            max_accuracy_drift: ieee64(max_accuracy_drift),
            recompile_drift_threshold_kl: ieee64(0.05),
        },
        requests: vec![],
    }
}

fn loose_slo() -> Workload {
    slo(1.0)
}

fn tight_slo() -> Workload {
    slo(1.0e-6)
}

fn load_tolerances() -> ToleranceTable {
    ToleranceTable {
        bf16: ieee64(1.0e-3),
        fp16: ieee64(1.0e-3),
        fp8_e4m3: ieee64(5.0e-3),
        fp8_e5m2: ieee64(5.0e-3),
        int8: ieee64(1.0e-2),
        int4: ieee64(2.0e-2),
    }
}

fn sample_prompts() -> Vec<String> {
    vec![
        "alpha".to_string(),
        "bravo".to_string(),
        "charlie".to_string(),
        "delta".to_string(),
    ]
}

fn tokenize_for_test(prompt: &str) -> Vec<u32> {
    let bytes = prompt.as_bytes();
    (0..4)
        .map(|i| {
            let mut acc = 0u32;
            for (j, b) in bytes.iter().enumerate() {
                if j % 4 == i {
                    acc = acc.wrapping_mul(31).wrapping_add(*b as u32);
                }
            }
            acc % 32_000
        })
        .collect()
}

#[derive(Debug, Clone)]
struct InMemoryReference {
    entries: HashMap<Vec<u32>, ReferenceOutput>,
}

impl InMemoryReference {
    fn for_prompts(prompts: &[String]) -> Self {
        let mut entries = HashMap::new();
        for prompt in prompts {
            let per_layer_activations = (0..NUM_BLOCKS)
                .map(|b| vec![ieee32(0.1_f32 * (b as f32 + 1.0)); HIDDEN])
                .collect();
            let final_logits = (0..VOCAB).map(|i| ieee32(i as f32)).collect();
            entries.insert(
                tokenize_for_test(prompt),
                ReferenceOutput {
                    per_layer_activations,
                    final_logits,
                },
            );
        }
        Self { entries }
    }

    fn lookup(&self, tokens: &Vec<u32>) -> ReferenceOutput {
        self.entries
            .get(tokens)
            .cloned()
            .expect("reference has no entry for tokens")
    }
}

impl HFReference for InMemoryReference {
    fn forward_with_hooks(&self, tokens: &Vec<u32>) -> Result<ReferenceOutput, ParityError> {
        Ok(self.lookup(tokens))
    }

    fn tokenize(&self, prompt: &str) -> Result<Vec<u32>, ParityError> {
        Ok(tokenize_for_test(prompt))
    }
}

struct OffsetForward {
    reference: InMemoryReference,
    layer_offsets: Vec<f32>,
    tilt: f32,
}

impl OffsetForward {
    fn new(reference: InMemoryReference) -> Self {
        Self {
            reference,
            layer_offsets: Vec::new(),
            tilt: 0.0,
        }
    }

    fn with_layer_offsets(mut self, offsets: Vec<f32>) -> Self {
        self.layer_offsets = offsets;
        self
    }
}

impl SkeinForward for OffsetForward {
    fn forward_with_hooks(&mut self, tokens: &Vec<u32>) -> Result<SkeinOutput, ParityError> {
        let ReferenceOutput {
            mut per_layer_activations,
            mut final_logits,
        } = self.reference.lookup(tokens);
        for (i, layer) in per_layer_activations.iter_mut().enumerate() {
            let offset = self.layer_offsets.get(i).copied().unwrap_or(0.0);
            if offset != 0.0 {
                for v in layer.iter_mut() {
                    *v = ieee32(f32::from_bits(v.bits) + offset);
                }
            }
        }
        for (i, v) in final_logits.iter_mut().enumerate() {
            *v = ieee32(f32::from_bits(v.bits) + (i as f32) * self.tilt);
        }
        Ok(SkeinOutput {
            per_layer_activations,
            final_logits,
        })
    }
}

fn make_ir_from_meta(meta: ModelMeta) -> Graph {
    Graph {
        meta,
        layers: Vec::new(),
        tensors: BTreeMap::new(),
    }
}

fn verify(
    skein: &mut OffsetForward,
    plan: &Plan,
    workload: &Workload,
    prompts: &Vec<String>,
) -> Result<ParityReport, ParityError> {
    let reference = skein.reference.clone();
    let math = ParityMath {
        mean_square,
        divergence,
        mean,
        write,
    };
    verify_plan(
        &reference,
        skein,
        &make_ir_from_meta(plan.model_meta.clone()),
        plan,
        workload,
        &load_tolerances(),
        prompts,
        &math,
    )
}

#[test]
fn mse_basic_correctness() {
    assert_eq!(mse_of(&[1.0, 2.0, 3.0], &[1.0, 2.0, 3.0]).unwrap(), 0.0);
    assert_eq!(mse_of(&[1.0, 2.0], &[2.0, 3.0]).unwrap(), 1.0);
    assert_eq!(mse_of(&[0.0, 0.0, 0.0], &[2.0, 2.0, 2.0]).unwrap(), 4.0);
    assert_eq!(mse_of(&[], &[]).unwrap(), 0.0);
    match mse_of(&[1.0, 2.0], &[1.0]) {
        Err(ParityError::ShapeMismatch {
            expected: 2,
            got: 1,
        }) => {}
        other => panic!("expected ShapeMismatch, got {other:?}"),
    }
}

#[test]
fn kl_divergence_basic_correctness() {
    let p = [0.5f32, -1.0, 3.0, 2.0, -0.5];
    let kl_self = kl_of(&p, &p).unwrap();
    assert!(
        kl_self.abs() < 1e-10,
        "KL(p || p) should be ~0, got {kl_self}"
    );
    let q = [0.0f32, 0.0, 0.0, 0.0, 0.0];
    let kl_pq = kl_of(&p, &q).unwrap();
    assert!(kl_pq > 0.0, "KL(p || uniform) should be > 0, got {kl_pq}");
}

#[test]
fn kl_divergence_numerically_stable_at_extreme_logits() {
    let p = vec![1.0e6_f32, -1.0e6_f32, 0.0_f32, 0.0_f32];
    let q = vec![-1.0e6_f32, 1.0e6_f32, 0.0_f32, 0.0_f32];
    let kl = kl_of(&p, &q).unwrap();
    assert!(kl.is_finite(), "expected finite KL, got {kl}");
    assert!(kl > 0.0, "expected positive KL on extreme distinct logits");
    let kl_self = kl_of(&p, &p).unwrap();
    assert!(kl_self.abs() < 1e-9);
}

#[test]
fn kl_divergence_shape_mismatch_errors() {
    let r = kl_of(&[1.0, 2.0], &[1.0]);
    assert!(matches!(r, Err(ParityError::ShapeMismatch { .. })));
    assert_eq!(kl_of(&[], &[]).unwrap(), 0.0);
}

#[test]
fn verify_plan_passes_under_mock_reference_no_drift() {
    let prompts = sample_prompts();
    let mut skein = OffsetForward::new(InMemoryReference::for_prompts(&prompts));
    let plan = mk_plan(Dtype::Bf16, Dtype::Bf16, Dtype::Bf16);
    let report = verify(&mut skein, &plan, &loose_slo(), &prompts)
        .expect("verify_plan should succeed under no-drift mock");
    assert!(report.passed, "report should pass: {report:?}");
    assert!(report.failing_layer.is_none());
    for p in &report.per_prompt {
        for &m in &p.per_layer_mse {
            assert_eq!(value(m), 0.0);
        }
        assert!(value(p.final_kl).abs() < 1e-10);
    }
    assert_eq!(report.num_prompts, 4);
    assert_eq!(report.model, "MixtralForCausalLM");
    assert_eq!(report.plan_hash, plan.content_hash(&write).to_hex());
}

#[test]
fn verify_plan_fails_when_layer_exceeds_tolerance() {
    let prompts = sample_prompts();
    let mut offsets = vec![0.0_f32; NUM_BLOCKS];
    offsets[10] = 0.5;
    let mut skein =
        OffsetForward::new(InMemoryReference::for_prompts(&prompts)).with_layer_offsets(offsets);
    let plan = mk_plan(Dtype::Bf16, Dtype::Bf16, Dtype::Bf16);
    let report =
        verify(&mut skein, &plan, &loose_slo(), &prompts).expect("verify_plan should run");
    assert!(!report.passed);
    let failing = report.failing_layer.expect("expected failing_layer");
    assert_eq!(failing.layer_idx, 10);
    assert_eq!(failing.dtype, Dtype::Bf16);
    assert_eq!(failing.component, Component::Weight);
    assert_eq!(failing.prompts_violating.len(), prompts.len());
    assert!(value(failing.measured_mse) > value(failing.tolerance));
}

#[test]
fn verify_plan_fails_when_kl_exceeds_slo() {
    let prompts = sample_prompts();
    let mut skein = OffsetForward::new(InMemoryReference::for_prompts(&prompts));
    skein.tilt = 2.0;
    let plan = mk_plan(Dtype::Bf16, Dtype::Bf16, Dtype::Bf16);
    let report =
        verify(&mut skein, &plan, &tight_slo(), &prompts).expect("verify_plan should run");
    assert!(!report.passed, "tilted logits should fail KL SLO");
    assert!(
        report.failing_layer.is_none(),
        "per-layer MSE is zero, so failing_layer must be None"
    );
    assert!(value(report.avg_final_kl) > value(report.slo_max_drift));
}

#[test]
fn verify_plan_rejects_what_it_cannot_compare() {
    let prompts = sample_prompts();
    let mut skein = OffsetForward::new(InMemoryReference::for_prompts(&prompts));
    let mut plan = mk_plan(Dtype::Bf16, Dtype::Bf16, Dtype::Bf16);
    assert!(matches!(
        verify(&mut skein, &plan, &loose_slo(), &vec![]),
        Err(ParityError::ShapeMismatch { expected: 1, got: 0 })
    ));
    plan.dtype_map.per_layer.pop();
    assert!(matches!(
        verify(&mut skein, &plan, &loose_slo(), &prompts),
        Err(ParityError::DtypeMapIncomplete { expected: 32, actual: 31 })
    ));
    plan.model_meta.num_layers = 31;
    assert!(matches!(
        verify(&mut skein, &plan, &loose_slo(), &prompts),
        Err(ParityError::ShapeMismatch { expected: 31, got: 32 })
    ));
}

struct Shorter {
    reference: InMemoryReference,
}

impl SkeinForward for Shorter {
    fn forward_with_hooks(&mut self, tokens: &Vec<u32>) -> Result<SkeinOutput, ParityError> {
        let mut o = self.reference.lookup(tokens);
        o.per_layer_activations[3].pop();
        Ok(SkeinOutput {
            per_layer_activations: o.per_layer_activations,
            final_logits: o.final_logits,
        })
    }
}

#[test]
fn two_artifacts_are_compared() {
    let prompts = sample_prompts();
    let tokens: Vec<Vec<u32>> = prompts.iter().map(|p| tokenize_for_test(p)).collect();
    let reference = InMemoryReference::for_prompts(&prompts);
    let plan = mk_plan(Dtype::Int8, Dtype::Bf16, Dtype::Int4);
    let math = ParityMath {
        mean_square,
        divergence,
        mean,
        write,
    };
    let mut a = OffsetForward::new(reference.clone());
    let mut b = OffsetForward::new(reference.clone());
    let report = verify_skein_pair(
        &mut a,
        &mut b,
        &tokens,
        &plan,
        &loose_slo(),
        &load_tolerances(),
        &math,
    )
    .unwrap();
    assert!(report.passed);
    let mut b = Shorter {
        reference: reference.clone(),
    };
    assert!(matches!(
        verify_skein_pair(&mut a, &mut b, &tokens, &plan, &loose_slo(), &load_tolerances(), &math),
        Err(ParityError::ShapeMismatch { expected: 4, got: 3 })
    ));
    let mut b = OffsetForward::new(reference.clone()).with_layer_offsets(vec![0.5, 0.0, 1.0]);
    let report = verify_skein_pair(
        &mut a,
        &mut b,
        &tokens,
        &plan,
        &loose_slo(),
        &load_tolerances(),
        &math,
    )
    .unwrap();
    let failing = report.failing_layer.unwrap();
    assert_eq!(failing.layer_idx, 2);
    assert_eq!(failing.component, Component::KvCache);
    assert_eq!(failing.dtype, Dtype::Int4);
    assert_eq!(failing.prompts_violating, vec![0, 1, 2, 3]);
    assert_eq!(value(failing.tolerance), 2.0e-2);
    assert!(!report.passed);
    assert!(matches!(
        verify_skein_pair(&mut a, &mut b, &vec![], &plan, &loose_slo(), &load_tolerances(), &math),
        Err(ParityError::ShapeMismatch { expected: 1, got: 0 })
    ));
}

#[test]
fn a_pair_reports_what_the_reference_reports() {
    let prompts = sample_prompts();
    let tokens: Vec<Vec<u32>> = prompts.iter().map(|p| tokenize_for_test(p)).collect();
    let reference = InMemoryReference::for_prompts(&prompts);
    let plan = mk_plan(Dtype::Int8, Dtype::Bf16, Dtype::Int4);
    let math = ParityMath {
        mean_square,
        divergence,
        mean,
        write,
    };
    let skewed =
        || OffsetForward::new(reference.clone()).with_layer_offsets(vec![0.5, 0.0, 1.0]);
    let by_plan = verify(&mut skewed(), &plan, &tight_slo(), &prompts).unwrap();
    let by_pair = verify_skein_pair(
        &mut OffsetForward::new(reference.clone()),
        &mut skewed(),
        &tokens,
        &plan,
        &tight_slo(),
        &load_tolerances(),
        &math,
    )
    .unwrap();
    assert_eq!(by_plan, by_pair);
    assert_eq!(by_pair.failing_layer.unwrap().layer_idx, 2);
}

fn measured(prompt_idx: usize, mses: &[f64], kl: f64) -> PerPromptReport {
    PerPromptReport {
        prompt_idx,
        per_layer_mse: mses.iter().map(|m| ieee64(*m)).collect(),
        final_kl: ieee64(kl),
    }
}

#[test]
fn the_worst_layer_has_most_prompts_and_the_greatest_error() {
    let mut plan = mk_plan(Dtype::Bf16, Dtype::Bf16, Dtype::Bf16);
    plan.dtype_map.per_layer.truncate(3);
    let verdict = |reports: Vec<PerPromptReport>| {
        judge(
            reports,
            ieee64(0.5),
            ieee64(1.0),
            &plan,
            &load_tolerances(),
            3,
            "hash".to_string(),
            "model".to_string(),
        )
    };
    let r = verdict(vec![
        measured(0, &[9.0, 0.1, 0.0], 0.25),
        measured(1, &[0.0, 0.2, 0.0], 0.75),
    ]);
    let f = r.failing_layer.unwrap();
    assert_eq!(f.layer_idx, 1);
    assert_eq!(f.prompts_violating, vec![0, 1]);
    assert_eq!(value(f.measured_mse), 0.2);
    assert_eq!(value(r.max_final_kl), 0.75);
    assert!(!r.passed);
    let r = verdict(vec![measured(0, &[0.5, 0.1, 0.7], 0.25)]);
    assert_eq!(r.failing_layer.unwrap().layer_idx, 2);
    let r = verdict(vec![measured(0, &[0.001, 0.0, 0.0], 0.25)]);
    assert!(r.passed);
    assert!(r.failing_layer.is_none());
    assert_eq!(r.num_prompts, 1);
    let r = verdict(vec![measured(0, &[0.5, f64::NAN, 0.7], 0.25)]);
    assert!(!r.passed);
    let f = r.failing_layer.unwrap();
    assert_eq!(f.layer_idx, 1);
    assert!(value(f.measured_mse).is_nan());
    assert_eq!(f.prompts_violating, vec![0]);
}

#[test]
fn drift_table_update_monotonic() {
    let failing = FailingLayerReport {
        layer_idx: 7,
        component: Component::Weight,
        dtype: Dtype::Int4,
        measured_mse: ieee64(0.05),
        tolerance: ieee64(0.02),
        prompts_violating: vec![0, 1],
    };
    let after_high = update_drift_table_on_failure(Some(ieee64(0.0)), &failing);
    assert!((value(after_high) - 0.05).abs() < 1e-12);
    let failing_smaller = FailingLayerReport {
        measured_mse: ieee64(0.01),
        ..failing.clone()
    };
    let after_smaller = update_drift_table_on_failure(Some(after_high), &failing_smaller);
    assert!(
        (value(after_smaller) - 0.05).abs() < 1e-12,
        "monotonic-up violated: shrank to {}",
        value(after_smaller)
    );
    let failing_larger = FailingLayerReport {
        measured_mse: ieee64(0.15),
        ..failing
    };
    let after_larger = update_drift_table_on_failure(Some(after_smaller), &failing_larger);
    assert!((value(after_larger) - 0.15).abs() < 1e-12);
    assert_eq!(value(update_drift_table_on_failure(None, &failing_larger)), 0.15);
}

#[test]
fn python_subprocess_reference_validates_reference_dtype() {
    let r = ReferenceDtype::new("float32".to_string())
        .expect("valid dtype should construct the reference config");
    assert_eq!(r.as_str(), "float32");
    let bad = ReferenceDtype::new("fp32".to_string());
    assert!(matches!(
        bad,
        Err(ParityError::InvalidReferenceDtype { dtype }) if dtype == "fp32"
    ));
}

#[test]
fn tolerance_picks_loosest_component() {
    let plan = mk_plan(Dtype::Bf16, Dtype::Fp8E4m3, Dtype::Int8);
    let tol = value(tolerance_for_layer(5, &plan, &load_tolerances()));
    assert!((tol - 1.0e-2).abs() < 1e-12, "got {tol}");
    assert_eq!(dominant_dtype_at_layer(&plan, 5), (Component::Activation, Dtype::Fp8E4m3));
}

#[test]
fn tolerance_all_bf16_is_tight() {
    let plan = mk_plan(Dtype::Bf16, Dtype::Bf16, Dtype::Bf16);
    let tol = value(tolerance_for_layer(0, &plan, &load_tolerances()));
    assert!((tol - 1.0e-3).abs() < 1e-12);
}

#[test]
fn tolerance_layer_out_of_range_defaults_bf16() {
    let plan = mk_plan(Dtype::Int4, Dtype::Int4, Dtype::Int4);
    let tol = value(tolerance_for_layer(9_999, &plan, &load_tolerances()));
    assert!((tol - 1.0e-3).abs() < 1e-12);
    assert_eq!(dominant_dtype_at_layer(&plan, 9_999), (Component::Weight, Dtype::Bf16));
}

#[test]
fn prompts_are_tokenized_by_their_bytes() {
    assert_eq!(tokenize_prompt_bytes("ab", 32_000), vec![97, 98]);
    assert_eq!(tokenize_prompt_bytes("ab", 90), vec![7, 8]);
    assert_eq!(tokenize_prompt_bytes("", 90), vec![0]);
    assert_eq!(tokenize_prompt_bytes("ab", 0), vec![0, 0]);
    assert_eq!(tokenize_prompt_bytes("\u{e9}", 256), vec![0xc3, 0xa9]);
}

fn output(x: f32) -> ReferenceOutput {
    ReferenceOutput {
        per_layer_activations: vec![tensor(&[x])],
        final_logits: tensor(&[x, x]),
    }
}

#[test]
fn reference_outputs_are_cached_by_prompt() {
    let mut cache = ReferenceCache::new();
    cache.insert(vec![1, 2], output(1.0));
    let prompts = vec![vec![3], vec![1, 2], vec![4]];
    let mut batch = ReferenceBatch::plan(&cache, &prompts);
    assert_eq!(batch.missing, vec![(0, vec![3]), (2, vec![4])]);
    assert!(batch.accept(&mut cache, 0, output(3.0)).is_ok());
    assert!(matches!(
        batch.accept(&mut cache, 2, output(9.0)),
        Err(ParityError::PythonProtocol(m)) if m == "forward response prompt_idx 2 out of range"
    ));
    let early = ReferenceBatch {
        outputs: batch.outputs.clone(),
        missing: batch.missing.clone(),
    };
    assert!(matches!(
        early.finish(),
        Err(ParityError::PythonProtocol(m)) if m == "missing forward response for prompt 2"
    ));
    assert!(batch.accept(&mut cache, 1, output(4.0)).is_ok());
    assert_eq!(batch.finish().unwrap(), vec![output(3.0), output(1.0), output(4.0)]);
    assert_eq!(cache.get(&vec![4]), Some(output(4.0)));
    assert_eq!(cache.get(&vec![5]), None);
    assert!(ReferenceBatch::plan(&cache, &prompts).missing.is_empty());
    assert_eq!(cache.entries.len(), 3);
    cache.insert(vec![3], output(8.0));
    assert_eq!(cache.entries.len(), 3);
    assert_eq!(cache.get(&vec![3]), Some(output(8.0)));
    assert_eq!(cache.get(&vec![1, 2]), Some(output(1.0)));
    assert_eq!(cache.get(&vec![4]), Some(output(4.0)));
}

#[test]
fn answers_are_the_lines_that_hold_something() {
    assert_eq!(
        answer_lines("{\"a\":1}\n\n  \r\n{\"b\":2}"),
        vec!["{\"a\":1}".to_string(), "{\"b\":2}".to_string()]
    );
}
