//! Plans and their identity.

use serde_json::Value;
use skein::ieee::Ieee32;
use skein::ir::canonical::canonical_json;
use skein::ir::error::PlanError;
use skein::ir::graph::ModelMeta;
use skein::ir::hash::hash_text;
use skein::ir::plan::{
    Disaggregation, DtypeMap, KvTransferMode, ParallelismPlacement, Plan, TransferTopology,
};
use skein::ir::types::{
    BatchPolicy, CaptureClass, CudaGraphsConfig, DraftSpec, Dtype, ExecutionConfig, KVCacheSpec,
    KVLayout, PrefixCacheConfig, RadixReusePolicy, SpecDecodeConfig,
};

fn ieee32(x: f32) -> Ieee32 {
    Ieee32 { bits: x.to_bits() }
}

fn write(x: Ieee32) -> String {
    serde_json::to_string(&f32::from_bits(x.bits)).unwrap()
}

fn dummy_meta(num_layers: usize) -> ModelMeta {
    ModelMeta {
        architecture: "test".to_string(),
        num_layers,
        hidden: 4096,
        vocab: 32000,
        max_position: 32768,
        num_attention_heads: 32,
        num_kv_heads: 8,
        head_dim: 128,
        num_experts: Some(8),
        top_k: Some(2),
        intermediate: 14336,
        rope_theta: ieee32(1_000_000.0),
        rms_norm_eps: ieee32(1e-5),
        sliding_window: None,
        tied_embeddings: false,
    }
}

fn dummy_plan(num_layers: usize) -> Plan {
    Plan {
        parallelism: ParallelismPlacement {
            tp: 2,
            pp: 1,
            ep: 1,
        },
        kv: KVCacheSpec {
            layout: KVLayout::Paged { page_size: 32 },
            kv_sharded: false,
        },
        batching: BatchPolicy::Continuous { max_batch: 16 },
        dtype_map: DtypeMap::uniform(num_layers, Dtype::Bf16),
        execution: ExecutionConfig {
            cuda_graphs: CudaGraphsConfig {
                enable: false,
                capture_classes: vec![],
            },
            spec_decode: SpecDecodeConfig {
                enable: false,
                draft: None,
            },
            prefix_cache: PrefixCacheConfig {
                enable: true,
                reuse_policy: RadixReusePolicy::LruByLastAccess,
            },
        },
        disaggregation: None,
        model_meta: dummy_meta(num_layers),
    }
}

fn split_plan() -> Plan {
    let mut prefill = dummy_plan(2);
    prefill.batching = BatchPolicy::ContinuousChunked {
        max_batch: 4,
        chunk_tokens: 512,
    };
    let mut decode = dummy_plan(3);
    decode.kv.layout = KVLayout::Contiguous;
    decode.execution.cuda_graphs = CudaGraphsConfig {
        enable: true,
        capture_classes: vec![
            CaptureClass {
                batch_size: 1,
                kv_class: 2,
            },
            CaptureClass {
                batch_size: 8,
                kv_class: 0,
            },
        ],
    };
    decode.execution.spec_decode = SpecDecodeConfig {
        enable: true,
        draft: Some(DraftSpec {
            model_path: "a \"quoted\"\\path\n\u{1}\u{e9}".to_string(),
            speculation_depth: 5,
        }),
    };
    let mut plan = dummy_plan(1);
    plan.model_meta.sliding_window = Some(4096);
    plan.disaggregation = Some(Disaggregation {
        prefill: Box::new(prefill),
        decode: Box::new(decode),
        transfer: TransferTopology {
            mode: KvTransferMode::NcclByLayer,
            layer_overlap: true,
        },
    });
    plan
}

#[test]
fn validate_catches_dtype_length_mismatch() {
    let mut plan = dummy_plan(32);
    plan.dtype_map = DtypeMap::uniform(31, Dtype::Bf16);
    let err = plan.validate().unwrap_err();
    match err {
        PlanError::DtypeMapLengthMismatch { expected, actual } => {
            assert_eq!(expected, 32);
            assert_eq!(actual, 31);
        }
    }
}

#[test]
fn validate_looks_into_the_pools() {
    assert!(split_plan().validate().is_ok());
    let mut plan = split_plan();
    if let Some(d) = &mut plan.disaggregation {
        d.decode.dtype_map = DtypeMap::uniform(7, Dtype::Bf16);
    }
    assert!(matches!(
        plan.validate(),
        Err(PlanError::DtypeMapLengthMismatch { expected: 3, actual: 7 })
    ));
    if let Some(d) = &mut plan.disaggregation {
        d.prefill.dtype_map = DtypeMap::uniform(9, Dtype::Bf16);
    }
    assert!(matches!(
        plan.validate(),
        Err(PlanError::DtypeMapLengthMismatch { expected: 2, actual: 9 })
    ));
    assert_eq!(plan.num_layers(), 1);
}

#[test]
fn content_hash_is_stable_across_clones() {
    let plan = dummy_plan(32);
    let h1 = plan.content_hash(&write);
    let h2 = plan.clone().content_hash(&write);
    assert_eq!(h1, h2);
    assert_eq!(
        split_plan().content_hash(&write),
        split_plan().clone().content_hash(&write)
    );
    assert_eq!(split_plan().clone(), split_plan());
}

#[test]
fn content_hash_changes_when_any_axis_changes() {
    let plan = dummy_plan(32);
    let mut other = plan.clone();
    other.parallelism.tp = 4;
    assert_ne!(plan.content_hash(&write), other.content_hash(&write));

    let mut other = plan.clone();
    other.batching = BatchPolicy::Static { max_batch: 16 };
    assert_ne!(plan.content_hash(&write), other.content_hash(&write));

    let mut other = plan.clone();
    other.dtype_map.per_layer[0].kv_cache = Dtype::Fp8E4m3;
    assert_ne!(plan.content_hash(&write), other.content_hash(&write));
}

#[test]
fn canonical_text_is_json_with_sorted_keys() {
    for plan in [dummy_plan(0), dummy_plan(4), split_plan()] {
        let text = canonical_json(&plan, &write);
        let value: Value = serde_json::from_str(&text).unwrap();
        let meta = &value["model_meta"];
        assert_eq!(meta["hidden"], Value::from(4096));
        assert_eq!(meta["rope_theta"].as_f64(), Some(1_000_000.0));
        assert_eq!(value["parallelism"]["tp"], Value::from(2));
        assert_eq!(value["kv"]["layout"]["page_size"], Value::from(32));
        assert_eq!(value["batching"]["kind"], Value::from("continuous"));
        assert_eq!(
            value["dtype_map"]["per_layer"].as_array().unwrap().len(),
            plan.dtype_map.len()
        );
        let keys: Vec<&String> = value.as_object().unwrap().keys().collect();
        let mut sorted = keys.clone();
        sorted.sort();
        assert_eq!(keys, sorted);
        assert_eq!(keys.len(), 7);
    }
    let value: Value = serde_json::from_str(&canonical_json(&split_plan(), &write)).unwrap();
    let decode = &value["disaggregation"]["decode"];
    assert_eq!(
        decode["execution"]["spec_decode"]["draft"]["model_path"],
        Value::from("a \"quoted\"\\path\n\u{1}\u{e9}")
    );
    assert_eq!(decode["kv"]["layout"]["kind"], Value::from("contiguous"));
    assert_eq!(
        decode["execution"]["cuda_graphs"]["capture_classes"][1]["batch_size"],
        Value::from(8)
    );
    assert_eq!(
        value["disaggregation"]["prefill"]["batching"]["chunk_tokens"],
        Value::from(512)
    );
    assert_eq!(value["disaggregation"]["transfer"]["layer_overlap"], Value::from(true));
    assert_eq!(value["model_meta"]["sliding_window"], Value::from(4096));
    assert!(decode["disaggregation"].is_null());
}

#[test]
fn canonical_text_is_exact() {
    let text = canonical_json(&dummy_plan(1), &write);
    assert_eq!(
        text,
        "{\"batching\":{\"kind\":\"continuous\",\"max_batch\":16},\"disaggregation\":null,\
         \"dtype_map\":{\"per_layer\":[{\"activation\":\"bf16\",\"kv_cache\":\"bf16\",\"weight\":\"bf16\"}]},\
         \"execution\":{\"cuda_graphs\":{\"capture_classes\":[],\"enable\":false},\
         \"prefix_cache\":{\"enable\":true,\"reuse_policy\":\"lru_by_last_access\"},\
         \"spec_decode\":{\"draft\":null,\"enable\":false}},\
         \"kv\":{\"kv_sharded\":false,\"layout\":{\"kind\":\"paged\",\"page_size\":32}},\
         \"model_meta\":{\"architecture\":\"test\",\"head_dim\":128,\"hidden\":4096,\
         \"intermediate\":14336,\"max_position\":32768,\"num_attention_heads\":32,\
         \"num_experts\":8,\"num_kv_heads\":8,\"num_layers\":1,\"rms_norm_eps\":0.00001,\
         \"rope_theta\":1000000.0,\"sliding_window\":null,\"tied_embeddings\":false,\
         \"top_k\":2,\"vocab\":32000},\"parallelism\":{\"ep\":1,\"pp\":1,\"tp\":2}}"
    );
}

#[test]
fn texts_of_different_plans_differ() {
    let mut other = split_plan();
    if let Some(d) = &mut other.disaggregation {
        d.transfer.mode = KvTransferMode::RdmaWrite;
    }
    assert_ne!(canonical_json(&split_plan(), &write), canonical_json(&other, &write));
}

#[test]
fn hashes_are_the_published_ones() {
    assert_eq!(
        hash_text("").to_hex(),
        "af1349b9f5f9a1a6a0404dea36dcc9499bcb25c9adc112b7cc9a93cae41f3262"
    );
    let plan = dummy_plan(2);
    let text = canonical_json(&plan, &write);
    let digest = blake3::hash(text.as_bytes());
    let hash = plan.content_hash(&write);
    assert_eq!(hash.bytes, *digest.as_bytes());
    assert_eq!(hash.to_hex(), digest.to_hex().to_string());
    assert_eq!(hash.to_hex().len(), 64);
}
