//! The importer of Mixtral configs.

use serde_json::Value;
use skein::ieee::Ieee32;
use skein::ir::error::ImportError;
use skein::ir::graph::{Graph, Layer, LayerKind, LmheadCfg};
use skein::ir::model::mixtral::{build, MixtralConfig};
use skein::ir::model::{select_importer, Importer};
use skein::ir::types::{Dim, Dtype};

const MIXTRAL_8X7B_CONFIG: &str = r#"{
        "architectures": ["MixtralForCausalLM"],
        "model_type": "mixtral",
        "hidden_size": 4096,
        "intermediate_size": 14336,
        "max_position_embeddings": 32768,
        "num_attention_heads": 32,
        "num_hidden_layers": 32,
        "num_key_value_heads": 8,
        "num_local_experts": 8,
        "num_experts_per_tok": 2,
        "rope_theta": 1000000.0,
        "rms_norm_eps": 1e-5,
        "vocab_size": 32000,
        "sliding_window": null,
        "tie_word_embeddings": false,
        "hidden_act": "silu"
    }"#;

fn architectures(v: &Value) -> Vec<String> {
    match v.get("architectures") {
        Some(Value::Array(names)) => names
            .iter()
            .map(|n| n.as_str().unwrap().to_string())
            .collect(),
        _ => vec![],
    }
}

fn number(v: &Value, key: &str) -> usize {
    v.get(key).and_then(|n| n.as_u64()).unwrap() as usize
}

fn single(v: &Value, key: &str) -> Ieee32 {
    let x = v.get(key).and_then(|n| n.as_f64()).unwrap() as f32;
    Ieee32 { bits: x.to_bits() }
}

fn config(s: &str) -> MixtralConfig {
    let v: Value = serde_json::from_str(s).unwrap();
    MixtralConfig {
        architectures: architectures(&v),
        hidden_size: number(&v, "hidden_size"),
        intermediate_size: number(&v, "intermediate_size"),
        max_position_embeddings: number(&v, "max_position_embeddings"),
        num_attention_heads: number(&v, "num_attention_heads"),
        num_hidden_layers: number(&v, "num_hidden_layers"),
        num_key_value_heads: number(&v, "num_key_value_heads"),
        num_local_experts: number(&v, "num_local_experts"),
        num_experts_per_tok: number(&v, "num_experts_per_tok"),
        rope_theta: single(&v, "rope_theta"),
        rms_norm_eps: single(&v, "rms_norm_eps"),
        vocab_size: number(&v, "vocab_size"),
        sliding_window: v.get("sliding_window").and_then(|n| n.as_u64()).map(|n| n as usize),
        tie_word_embeddings: v.get("tie_word_embeddings").and_then(|b| b.as_bool()).unwrap_or(false),
        head_dim: v.get("head_dim").and_then(|n| n.as_u64()).map(|n| n as usize),
        hidden_act: v.get("hidden_act").and_then(|a| a.as_str()).map(|a| a.to_string()),
    }
}

fn build_from_str(s: &str) -> Result<Graph, ImportError> {
    build(config(s))
}

fn importer_of(s: &str) -> Result<Importer, ImportError> {
    let v: Value = serde_json::from_str(s).unwrap();
    select_importer(&architectures(&v))
}

#[test]
fn imports_mixtral_8x7b_shape() {
    let g = build_from_str(MIXTRAL_8X7B_CONFIG).unwrap();
    assert_eq!(g.meta.num_layers, 32);
    assert_eq!(g.meta.hidden, 4096);
    assert_eq!(g.meta.head_dim, 128);
    assert_eq!(g.meta.num_attention_heads, 32);
    assert_eq!(g.meta.num_kv_heads, 8);
    assert_eq!(g.meta.num_experts, Some(8));
    assert_eq!(g.meta.top_k, Some(2));
    assert_eq!(g.meta.intermediate, 14336);
    assert_eq!(g.meta.vocab, 32000);
    assert!(!g.meta.tied_embeddings);

    assert_eq!(g.layers.len(), 1 + 4 * 32 + 1 + 1);
    assert_eq!(g.num_decoder_blocks(), 32);

    match &g.layers[0].kind {
        LayerKind::Embedding(e) => {
            assert_eq!(e.vocab, 32000);
            assert_eq!(e.hidden, 4096);
        }
        other => panic!("expected Embedding, got {other:?}"),
    }
    match &g.layers.last().unwrap().kind {
        LayerKind::Lmhead(l) => {
            assert_eq!(l.vocab, 32000);
            assert!(!l.tied);
        }
        other => panic!("expected Lmhead, got {other:?}"),
    }
    let block5: Vec<&Layer> = g.layers.iter().filter(|l| l.block_idx == Some(5)).collect();
    assert_eq!(block5.len(), 4);
    assert!(matches!(block5[0].kind, LayerKind::RmsNorm(_)));
    assert!(matches!(block5[1].kind, LayerKind::Attention(_)));
    assert!(matches!(block5[2].kind, LayerKind::RmsNorm(_)));
    assert!(matches!(block5[3].kind, LayerKind::Moe(_)));

    assert_eq!(block5[3].params.len(), 25);
}

#[test]
fn param_count_matches_published_mixtral_8x7b() {
    let g = build_from_str(MIXTRAL_8X7B_CONFIG).unwrap();
    assert_eq!(g.param_count(), 46_702_792_704);
}

#[test]
fn rejects_unsupported_activation() {
    let cfg = MIXTRAL_8X7B_CONFIG.replace(r#""hidden_act": "silu""#, r#""hidden_act": "gelu""#);
    let err = build_from_str(&cfg).unwrap_err();
    match err {
        ImportError::InvalidConfig { field, value, .. } => {
            assert_eq!(field, "hidden_act");
            assert_eq!(value, "gelu");
        }
        other => panic!("unexpected error: {other:?}"),
    }
}

#[test]
fn rejects_gqa_indivisibility() {
    let cfg =
        MIXTRAL_8X7B_CONFIG.replace(r#""num_key_value_heads": 8"#, r#""num_key_value_heads": 7"#);
    let err = build_from_str(&cfg).unwrap_err();
    assert!(matches!(err, ImportError::InvalidConfig { .. }));
    match err {
        ImportError::InvalidConfig { field, value, .. } => {
            assert_eq!(field, "num_attention_heads / num_key_value_heads");
            assert_eq!(value, "32 / 7");
        }
        other => panic!("unexpected error: {other:?}"),
    }
}

#[test]
fn honours_tied_embeddings() {
    let cfg = MIXTRAL_8X7B_CONFIG.replace(
        r#""tie_word_embeddings": false"#,
        r#""tie_word_embeddings": true"#,
    );
    let g = build_from_str(&cfg).unwrap();
    let lmhead = g.layers.last().unwrap();
    assert!(matches!(
        lmhead.kind,
        LayerKind::Lmhead(LmheadCfg { tied: true, .. })
    ));
    assert!(
        lmhead.params.is_empty(),
        "tied lm_head must not duplicate the embedding param"
    );
}

#[test]
fn rejects_missing_architectures() {
    let bad = r#"{"hidden_size": 4096}"#;
    assert!(matches!(
        importer_of(bad),
        Err(ImportError::NoArchitecture)
    ));
}

#[test]
fn flags_recognized_but_unimplemented_archs() {
    let llama = r#"{"architectures": ["LlamaForCausalLM"]}"#;
    match importer_of(llama).unwrap_err() {
        ImportError::ArchitectureNotYetImplemented { arch } => {
            assert_eq!(arch, "LlamaForCausalLM")
        }
        other => panic!("unexpected error: {other:?}"),
    }
}

#[test]
fn rejects_unknown_arch() {
    let bad = r#"{"architectures": ["GpuGoBrrrForCausalLM"]}"#;
    assert!(matches!(
        importer_of(bad),
        Err(ImportError::UnsupportedArchitecture(_))
    ));
}

#[test]
fn selects_the_mixtral_importer() {
    assert!(matches!(importer_of(MIXTRAL_8X7B_CONFIG), Ok(Importer::Mixtral)));
    for arch in ["MistralForCausalLM", "Qwen2ForCausalLM"] {
        assert!(matches!(
            select_importer(&vec![arch.to_string()]),
            Err(ImportError::ArchitectureNotYetImplemented { arch: a }) if a == arch
        ));
    }
    assert!(matches!(
        select_importer(&vec!["X".to_string(), "MixtralForCausalLM".to_string()]),
        Err(ImportError::UnsupportedArchitecture(a)) if a == "X"
    ));
}

#[test]
fn rejects_indivisible_hidden_size_without_head_dim() {
    let cfg = MIXTRAL_8X7B_CONFIG.replace(r#""hidden_size": 4096"#, r#""hidden_size": 4097"#);
    match build_from_str(&cfg).unwrap_err() {
        ImportError::InvalidConfig { field, value, .. } => {
            assert_eq!(field, "hidden_size / num_attention_heads");
            assert_eq!(value, "4097 / 32");
        }
        other => panic!("unexpected error: {other:?}"),
    }
    let given = cfg.replace(r#""vocab_size""#, r#""head_dim": 64, "vocab_size""#);
    assert_eq!(build_from_str(&given).unwrap().meta.head_dim, 64);
}

#[test]
fn rejects_top_k_over_experts() {
    let cfg =
        MIXTRAL_8X7B_CONFIG.replace(r#""num_experts_per_tok": 2"#, r#""num_experts_per_tok": 9"#);
    match build_from_str(&cfg).unwrap_err() {
        ImportError::InvalidConfig { field, value, .. } => {
            assert_eq!(field, "num_experts_per_tok");
            assert_eq!(value, "9");
        }
        other => panic!("unexpected error: {other:?}"),
    }
}

#[test]
fn layers_are_chained_by_their_tensors() {
    let g = build_from_str(MIXTRAL_8X7B_CONFIG).unwrap();
    for (i, layer) in g.layers.iter().enumerate() {
        assert_eq!(layer.idx, i);
        assert_eq!(layer.outputs.len(), 1);
        if i > 0 {
            assert_eq!(layer.inputs, g.layers[i - 1].outputs);
        } else {
            assert!(layer.inputs.is_empty());
        }
        for t in layer.outputs.iter() {
            let tensor = g.tensors.get(t).unwrap();
            assert_eq!(tensor.id, *t);
            assert_eq!(tensor.dtype, Dtype::Bf16);
        }
        for p in layer.params.iter() {
            assert!(p.shape.static_numel().is_some());
        }
    }
    let logits = g.tensors.get(&g.layers.last().unwrap().outputs[0]).unwrap();
    assert_eq!(
        logits.shape.0,
        vec![Dim::Batch, Dim::SeqLen, Dim::Fixed(32000)]
    );
}

#[test]
fn parameters_have_their_published_names() {
    let g = build_from_str(MIXTRAL_8X7B_CONFIG).unwrap();
    assert_eq!(g.layers[0].params[0].name, "model.embed_tokens.weight");
    let attention = &g.layers[4 * 31 + 2];
    let names: Vec<&str> = attention.params.iter().map(|p| p.name.as_str()).collect();
    assert_eq!(
        names,
        vec![
            "model.layers.31.self_attn.q_proj.weight",
            "model.layers.31.self_attn.k_proj.weight",
            "model.layers.31.self_attn.v_proj.weight",
            "model.layers.31.self_attn.o_proj.weight",
        ]
    );
    let moe = &g.layers[4];
    assert_eq!(moe.params[0].name, "model.layers.0.block_sparse_moe.gate.weight");
    assert_eq!(
        moe.params[24].name,
        "model.layers.0.block_sparse_moe.experts.7.w3.weight"
    );
    assert_eq!(g.layers.last().unwrap().params[0].name, "lm_head.weight");
}
