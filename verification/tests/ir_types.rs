//! Scalars, shapes, placements and batching policies.

use std::collections::BTreeMap;

use skein::ieee::{Ieee32, Ieee64};
use skein::ir::graph::{
    Activation, Graph, Layer, LayerKind, MlpCfg, ModelMeta, Param, TensorIdGen,
};
use skein::ir::plan::{DtypeMap, ParallelismPlacement, PerLayerDtype};
use skein::ir::types::{BatchPolicy, Component, Dim, Dtype, Shape};

fn ieee32(x: f32) -> Ieee32 {
    Ieee32 { bits: x.to_bits() }
}

fn ieee64(x: f64) -> Ieee64 {
    Ieee64 { bits: x.to_bits() }
}

fn mk_param(name: &str, dims: Vec<Dim>) -> Param {
    Param {
        name: name.to_string(),
        shape: Shape(dims),
        dtype: Dtype::Bf16,
    }
}

fn mlp_layer(idx: usize, block_idx: Option<usize>, params: Vec<Param>) -> Layer {
    Layer {
        idx,
        block_idx,
        kind: LayerKind::Mlp(MlpCfg {
            hidden: 4,
            intermediate: 8,
            activation: Activation::Silu,
        }),
        params,
        inputs: vec![],
        outputs: vec![],
    }
}

fn graph_of(layers: Vec<Layer>) -> Graph {
    Graph {
        meta: ModelMeta {
            architecture: "test".to_string(),
            num_layers: 1,
            hidden: 4,
            vocab: 32,
            max_position: 16,
            num_attention_heads: 1,
            num_kv_heads: 1,
            head_dim: 4,
            num_experts: None,
            top_k: None,
            intermediate: 8,
            rope_theta: ieee32(10_000.0),
            rms_norm_eps: ieee32(1e-5),
            sliding_window: None,
            tied_embeddings: false,
        },
        layers,
        tensors: BTreeMap::new(),
    }
}

#[test]
fn dtype_bytes_int4_packs() {
    assert_eq!(Dtype::Int4.bytes_for(1), 1);
    assert_eq!(Dtype::Int4.bytes_for(2), 1);
    assert_eq!(Dtype::Int4.bytes_for(3), 2);
    assert_eq!(Dtype::Int4.bytes_for(1024), 512);
}

#[test]
fn dtype_bytes_bf16() {
    assert_eq!(Dtype::Bf16.bytes_for(1), 2);
    assert_eq!(Dtype::Bf16.bytes_for(1024), 2048);
}

#[test]
fn dtypes_have_their_widths() {
    let bits: Vec<u32> = Dtype::ALL.iter().map(|d| d.bits()).collect();
    assert_eq!(bits, vec![16, 16, 8, 8, 8, 4]);
    let float: Vec<bool> = Dtype::ALL.iter().map(|d| d.is_float()).collect();
    assert_eq!(float, vec![true, true, true, true, false, false]);
    assert_eq!(Component::ALL.len(), 3);
}

#[test]
fn shape_static_numel_includes_tp_and_ep() {
    let s = Shape(vec![Dim::Fixed(4), Dim::Tp(4096), Dim::Ep(8)]);
    assert_eq!(s.static_numel(), Some(4 * 4096 * 8));
    assert_eq!(s.rank(), 3);
}

#[test]
fn shape_static_numel_none_when_symbolic() {
    let s = Shape(vec![Dim::Batch, Dim::Fixed(4096)]);
    assert!(s.static_numel().is_none());
    assert!(Shape(vec![Dim::SeqLen]).static_numel().is_none());
    assert!(Shape(vec![Dim::KvLen]).static_numel().is_none());
    assert_eq!(Shape(vec![]).static_numel(), Some(1));
}

#[test]
fn shape_static_numel_saturates() {
    let s = Shape(vec![Dim::Fixed(usize::MAX), Dim::Fixed(usize::MAX)]);
    assert_eq!(s.static_numel(), Some(u64::MAX));
}

#[test]
fn batch_policy_max_batch_extract() {
    assert_eq!(BatchPolicy::Static { max_batch: 32 }.max_batch(), 32);
    assert_eq!(
        BatchPolicy::ContinuousChunked {
            max_batch: 16,
            chunk_tokens: 1024
        }
        .max_batch(),
        16
    );
    assert_eq!(BatchPolicy::Continuous { max_batch: 7 }.max_batch(), 7);
}

#[test]
fn placement_devices_used() {
    let p = ParallelismPlacement {
        tp: 2,
        pp: 4,
        ep: 1,
    };
    assert_eq!(p.devices_used(), 8);
}

#[test]
fn dtype_maps_are_uniform() {
    let m = DtypeMap::uniform(3, Dtype::Int8);
    assert_eq!(m.len(), 3);
    assert!(!m.is_empty());
    assert!(m.per_layer.iter().all(|l| *l == PerLayerDtype::uniform(Dtype::Int8)));
    assert!(DtypeMap::uniform(0, Dtype::Int8).is_empty());
}

#[test]
fn param_count_sums_static_numel() {
    let layer = mlp_layer(
        0,
        Some(0),
        vec![
            mk_param("a", vec![Dim::Fixed(4), Dim::Fixed(8)]),
            mk_param("b", vec![Dim::Fixed(8), Dim::Fixed(4)]),
        ],
    );
    let g = graph_of(vec![layer]);
    assert_eq!(g.param_count(), 4 * 8 + 8 * 4);
    assert_eq!(g.num_decoder_blocks(), 1);
}

#[test]
fn decoder_blocks_are_counted_once() {
    let g = graph_of(vec![
        mlp_layer(0, None, vec![]),
        mlp_layer(1, Some(7), vec![]),
        mlp_layer(2, Some(3), vec![]),
        mlp_layer(3, Some(7), vec![]),
    ]);
    assert_eq!(g.num_decoder_blocks(), 2);
    assert_eq!(g.param_count(), 0);
    assert_eq!(graph_of(vec![]).num_decoder_blocks(), 0);
}

#[test]
fn tensor_id_gen_monotonic() {
    let mut g = TensorIdGen::default();
    assert_eq!(g.fresh(), 0);
    assert_eq!(g.fresh(), 1);
    assert_eq!(g.fresh(), 2);
}

#[test]
fn bit_patterns_compare_like_numbers() {
    let values = [
        f64::NEG_INFINITY,
        -2.5,
        -0.0,
        0.0,
        5e-324,
        1.0,
        1.5,
        1e300,
        f64::INFINITY,
        f64::NAN,
    ];
    for a in values {
        for b in values {
            let (x, y) = (ieee64(a), ieee64(b));
            assert_eq!(x.gt(y), a > b, "{a} > {b}");
            assert_eq!(x.le(y), a <= b, "{a} <= {b}");
            let larger = f64::from_bits(x.max(y).bits);
            if a.is_nan() && b.is_nan() {
                assert!(larger.is_nan());
            } else {
                assert_eq!(larger, a.max(b), "max of {a} and {b}");
            }
        }
        assert_eq!(ieee64(a).is_nan(), a.is_nan());
    }
    assert_eq!(f64::from_bits(Ieee64::zero().bits), 0.0);
    let singles = [f32::NEG_INFINITY, -1.0, -0.0, 0.0, 1e-45, 3.5, f32::INFINITY, f32::NAN];
    for a in singles {
        for b in singles {
            assert_eq!(ieee32(a).gt(ieee32(b)), a > b, "{a} > {b}");
        }
        assert_eq!(ieee32(a).is_nan(), a.is_nan());
    }
    assert_eq!(f32::from_bits(Ieee32::neg_infinity().bits), f32::NEG_INFINITY);
    assert_eq!(f32::from_bits(Ieee32::zero().bits), 0.0);
}

#[test]
fn bit_patterns_convert_like_numbers() {
    for n in [0u32, 1, 2, 3, 50, 500, 60_000, u32::MAX] {
        assert_eq!(f64::from_bits(Ieee64::from_u32(n).bits), n as f64);
    }
    for x in [
        0.0,
        -0.0,
        -3.5,
        0.99,
        1.0,
        1.75,
        123456.789,
        4503599627370497.0,
        9.3e18,
        1.8e19,
        1e30,
        f64::INFINITY,
        f64::NEG_INFINITY,
        f64::NAN,
    ] {
        assert_eq!(ieee64(x).to_u64(), x as u64, "{x}");
    }
}
