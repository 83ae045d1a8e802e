//! Mixtral importer.
//!
//! Layer order, for `N` decoder blocks:
//!
//! - `0`: embedding
//! - `4i + 1 ..= 4i + 4` for block `i`: input norm, attention, post-attention norm,
//!   mixture of experts
//! - `4N + 1`: final norm
//! - `4N + 2`: LM head
//!
//! Parameter names are the safetensors keys of the checkpoint. Activations are
//! catalogued with the bf16 reference dtype.

use std::collections::BTreeMap;

use vstd::prelude::*;

use crate::ieee::Ieee32;
use crate::ir::error::ImportError;
use crate::ir::graph::{
    block_occurs, block_set, block_witness, weights_static, Activation, AttentionCfg, AttentionPosition, EmbeddingCfg, Graph, Layer, LayerKind, LayerView,
    LmheadCfg, ModelMeta, MoeCfg, NormCfg, Param, ParamView, Tensor, TensorIdGen, TensorView,
};
use crate::ir::types::{is_static, Dim, Dtype, Shape};
use crate::text::{decimal, push_decimal, same};

verus! {

/// The fields of `config.json` whose values change the graph.
#[derive(Debug)]
pub struct MixtralConfig {
    pub architectures: Vec<String>,
    pub hidden_size: usize,
    pub intermediate_size: usize,
    pub max_position_embeddings: usize,
    pub num_attention_heads: usize,
    pub num_hidden_layers: usize,
    pub num_key_value_heads: usize,
    pub num_local_experts: usize,
    pub num_experts_per_tok: usize,
    pub rope_theta: Ieee32,
    pub rms_norm_eps: Ieee32,
    pub vocab_size: usize,
    pub sliding_window: Option<usize>,
    pub tie_word_embeddings: bool,
    /// `hidden_size / num_attention_heads` when absent.
    pub head_dim: Option<usize>,
    /// `silu` when absent; nothing else is supported.
    pub hidden_act: Option<String>,
}

impl MixtralConfig {
    /// `hidden_size` does not split over the heads, and no `head_dim` is given.
    pub open spec fn bad_head_dim(self) -> bool {
        self.head_dim is None && self.hidden_size as int % self.num_attention_heads as int != 0
    }

    /// The query heads do not split over the key-value heads.
    pub open spec fn bad_gqa(self) -> bool {
        self.num_attention_heads as int % self.num_key_value_heads as int != 0
    }

    /// More experts per token than experts.
    pub open spec fn bad_top_k(self) -> bool {
        self.num_experts_per_tok > self.num_local_experts
    }

    /// An activation other than `silu`.
    pub open spec fn bad_activation(self) -> bool {
        self.hidden_act is Some && self.hidden_act->0@ != "silu"@
    }

    /// The config describes a consistent graph.
    pub open spec fn consistent(self) -> bool {
        &&& !self.bad_head_dim()
        &&& !self.bad_gqa()
        &&& !self.bad_top_k()
        &&& !self.bad_activation()
        &&& self.architectures@.len() > 0
    }

    /// The width of one attention head.
    pub open spec fn head_width(self) -> int {
        match self.head_dim {
            Some(d) => d as int,
            None => self.hidden_size as int / self.num_attention_heads as int,
        }
    }

    /// The divisors that the checks divide by are not zero.
    pub open spec fn divisible(self) -> bool {
        &&& self.head_dim is None ==> self.num_attention_heads != 0
        &&& !self.bad_head_dim() ==> self.num_key_value_heads != 0
    }

    /// The sizes and counts of the graph fit the machine's integers.
    pub open spec fn representable(self) -> bool {
        &&& 4 * self.num_hidden_layers + 3 <= u32::MAX
        &&& self.num_hidden_layers > 0 ==> {
            &&& self.num_attention_heads * self.head_width() <= usize::MAX
            &&& self.num_key_value_heads * self.head_width() <= usize::MAX
            &&& 1 + 3 * self.num_local_experts <= usize::MAX
        }
    }
}

/// Whether the error is the one owed to an inconsistent config: the first rule that it
/// breaks.
pub open spec fn rejection(cfg: MixtralConfig, e: ImportError) -> bool {
    if cfg.bad_head_dim() {
        e matches ImportError::InvalidConfig { field, value, constraint } && {
            &&& field@ == "hidden_size / num_attention_heads"@
            &&& value@ == decimal(cfg.hidden_size as nat) + " / "@ + decimal(
                cfg.num_attention_heads as nat,
            )
            &&& constraint@
                == "hidden_size must be divisible by num_attention_heads when head_dim is absent"@
        }
    } else if cfg.bad_gqa() {
        e matches ImportError::InvalidConfig { field, value, constraint } && {
            &&& field@ == "num_attention_heads / num_key_value_heads"@
            &&& value@ == decimal(cfg.num_attention_heads as nat) + " / "@ + decimal(
                cfg.num_key_value_heads as nat,
            )
            &&& constraint@ == "num_attention_heads must be divisible by num_key_value_heads (GQA)"@
        }
    } else if cfg.bad_top_k() {
        e matches ImportError::InvalidConfig { field, value, constraint } && {
            &&& field@ == "num_experts_per_tok"@
            &&& value@ == decimal(cfg.num_experts_per_tok as nat)
            &&& constraint@ == "top-k must not exceed num_local_experts"@
        }
    } else if cfg.bad_activation() {
        e matches ImportError::InvalidConfig { field, value, constraint } && {
            &&& field@ == "hidden_act"@
            &&& value@ == cfg.hidden_act->0@
            &&& constraint@ == "Mixtral importer supports hidden_act = silu only"@
        }
    } else {
        e == ImportError::NoArchitecture
    }
}

/// The safetensors key of a weight of decoder block `block`.
pub open spec fn block_key(block: nat, suffix: Seq<char>) -> Seq<char> {
    "model.layers."@ + decimal(block) + suffix
}

/// The safetensors key of a weight of one expert.
pub open spec fn expert_key(block: nat, expert: nat, suffix: Seq<char>) -> Seq<char> {
    block_key(block, ".block_sparse_moe.experts."@ + decimal(expert) + suffix)
}

/// A bf16 vector of weights.
pub open spec fn vector(name: Seq<char>, a: int) -> ParamView {
    ParamView { name, shape: seq![Dim::Fixed(a as usize)], dtype: Dtype::Bf16 }
}

/// A bf16 matrix of weights.
pub open spec fn matrix(name: Seq<char>, a: int, b: int) -> ParamView {
    ParamView {
        name,
        shape: seq![Dim::Fixed(a as usize), Dim::Fixed(b as usize)],
        dtype: Dtype::Bf16,
    }
}

/// Parameter `j` of the mixture-of-experts layer of a block: the router gate, then
/// `w1`, `w2`, `w3` of each expert.
pub open spec fn moe_param(cfg: MixtralConfig, block: nat, j: int) -> ParamView {
    let h = cfg.hidden_size as int;
    let inner = cfg.intermediate_size as int;
    if j == 0 {
        matrix(
            block_key(block, ".block_sparse_moe.gate.weight"@),
            cfg.num_local_experts as int,
            h,
        )
    } else if (j - 1) % 3 == 0 {
        matrix(expert_key(block, ((j - 1) / 3) as nat, ".w1.weight"@), inner, h)
    } else if (j - 1) % 3 == 1 {
        matrix(expert_key(block, ((j - 1) / 3) as nat, ".w2.weight"@), h, inner)
    } else {
        matrix(expert_key(block, ((j - 1) / 3) as nat, ".w3.weight"@), inner, h)
    }
}

/// The parameters of the attention layer of a block: the query, key, value and output
/// projections.
pub open spec fn attention_params(cfg: MixtralConfig, block: nat) -> Seq<ParamView> {
    let h = cfg.hidden_size as int;
    let q = cfg.num_attention_heads * cfg.head_width();
    let kv = cfg.num_key_value_heads * cfg.head_width();
    seq![
        matrix(block_key(block, ".self_attn.q_proj.weight"@), q, h),
        matrix(block_key(block, ".self_attn.k_proj.weight"@), kv, h),
        matrix(block_key(block, ".self_attn.v_proj.weight"@), kv, h),
        matrix(block_key(block, ".self_attn.o_proj.weight"@), h, q),
    ]
}

pub open spec fn norm_kind(cfg: MixtralConfig) -> LayerKind {
    LayerKind::RmsNorm(NormCfg { eps: cfg.rms_norm_eps, hidden: cfg.hidden_size })
}

pub open spec fn attention_kind(cfg: MixtralConfig) -> LayerKind {
    LayerKind::Attention(
        AttentionCfg {
            num_heads: cfg.num_attention_heads,
            num_kv_heads: cfg.num_key_value_heads,
            head_dim: cfg.head_width() as usize,
            position: AttentionPosition::Rope { theta: cfg.rope_theta },
            sliding_window: cfg.sliding_window,
        },
    )
}

pub open spec fn moe_kind(cfg: MixtralConfig) -> LayerKind {
    LayerKind::Moe(
        MoeCfg {
            num_experts: cfg.num_local_experts,
            top_k: cfg.num_experts_per_tok,
            hidden: cfg.hidden_size,
            intermediate: cfg.intermediate_size,
            activation: Activation::Silu,
        },
    )
}

/// What kind of layer stands at position `i`.
pub open spec fn layer_kind(cfg: MixtralConfig, i: int) -> LayerKind {
    let n = cfg.num_hidden_layers as int;
    if i == 0 {
        LayerKind::Embedding(EmbeddingCfg { vocab: cfg.vocab_size, hidden: cfg.hidden_size })
    } else if i <= 4 * n {
        if (i - 1) % 4 == 1 {
            attention_kind(cfg)
        } else if (i - 1) % 4 == 3 {
            moe_kind(cfg)
        } else {
            norm_kind(cfg)
        }
    } else if i == 4 * n + 1 {
        norm_kind(cfg)
    } else {
        LayerKind::Lmhead(
            LmheadCfg {
                vocab: cfg.vocab_size,
                hidden: cfg.hidden_size,
                tied: cfg.tie_word_embeddings,
            },
        )
    }
}

/// The weights of the layer at position `i`.
pub open spec fn layer_params(cfg: MixtralConfig, i: int) -> Seq<ParamView> {
    let n = cfg.num_hidden_layers as int;
    let h = cfg.hidden_size as int;
    let v = cfg.vocab_size as int;
    let block = ((i - 1) / 4) as nat;
    if i == 0 {
        seq![matrix("model.embed_tokens.weight"@, v, h)]
    } else if i <= 4 * n {
        if (i - 1) % 4 == 0 {
            seq![vector(block_key(block, ".input_layernorm.weight"@), h)]
        } else if (i - 1) % 4 == 1 {
            attention_params(cfg, block)
        } else if (i - 1) % 4 == 2 {
            seq![vector(block_key(block, ".post_attention_layernorm.weight"@), h)]
        } else {
            Seq::new((1 + 3 * cfg.num_local_experts) as nat, |j: int| moe_param(cfg, block, j))
        }
    } else if i == 4 * n + 1 {
        seq![vector("model.norm.weight"@, h)]
    } else if cfg.tie_word_embeddings {
        seq![]
    } else {
        seq![matrix("lm_head.weight"@, v, h)]
    }
}

/// The layer at position `i`: it reads what its predecessor wrote, and writes the
/// tensor that has its own position as id.
pub open spec fn mixtral_layer(cfg: MixtralConfig, i: int) -> LayerView {
    LayerView {
        idx: i as usize,
        block_idx: if 1 <= i <= 4 * cfg.num_hidden_layers {
            Some(((i - 1) / 4) as usize)
        } else {
            None
        },
        kind: layer_kind(cfg, i),
        params: layer_params(cfg, i),
        inputs: if i == 0 {
            seq![]
        } else {
            seq![(i - 1) as u32]
        },
        outputs: seq![i as u32],
    }
}

/// The tensor with id `i`: hidden states, and the logits last.
pub open spec fn mixtral_tensor(cfg: MixtralConfig, i: int) -> TensorView {
    let width = if i == 4 * cfg.num_hidden_layers + 2 {
        cfg.vocab_size
    } else {
        cfg.hidden_size
    };
    TensorView {
        id: i as u32,
        shape: seq![Dim::Batch, Dim::SeqLen, Dim::Fixed(width)],
        dtype: Dtype::Bf16,
    }
}

/// The metadata that a config gives.
pub open spec fn meta_of(cfg: MixtralConfig, m: ModelMeta) -> bool {
    &&& m.architecture@ == cfg.architectures@[0]@
    &&& m.num_layers == cfg.num_hidden_layers
    &&& m.hidden == cfg.hidden_size
    &&& m.vocab == cfg.vocab_size
    &&& m.max_position == cfg.max_position_embeddings
    &&& m.num_attention_heads == cfg.num_attention_heads
    &&& m.num_kv_heads == cfg.num_key_value_heads
    &&& m.head_dim == cfg.head_width()
    &&& m.num_experts == Some(cfg.num_local_experts)
    &&& m.top_k == Some(cfg.num_experts_per_tok)
    &&& m.intermediate == cfg.intermediate_size
    &&& m.rope_theta == cfg.rope_theta
    &&& m.rms_norm_eps == cfg.rms_norm_eps
    &&& m.sliding_window == cfg.sliding_window
    &&& m.tied_embeddings == cfg.tie_word_embeddings
}

/// The layers of the graph of a config.
pub open spec fn layers_of(cfg: MixtralConfig, layers: Seq<Layer>) -> bool {
    &&& layers.len() == 4 * cfg.num_hidden_layers + 3
    &&& forall|i: int| 0 <= i < layers.len() ==> (#[trigger] layers[i])@ == mixtral_layer(cfg, i)
}

/// The tensor catalog of the graph of a config: one tensor per layer.
pub open spec fn tensors_of(cfg: MixtralConfig, tensors: Map<u32, Tensor>) -> bool {
    forall|id: u32|
        {
            &&& #[trigger] tensors.contains_key(id) <==> id < 4 * cfg.num_hidden_layers + 3
            &&& tensors.contains_key(id) ==> tensors[id]@ == mixtral_tensor(cfg, id as int)
        }
}

/// The graph of a config.
pub open spec fn graph_of(cfg: MixtralConfig, g: Graph) -> bool {
    &&& meta_of(cfg, g.meta)
    &&& layers_of(cfg, g.layers@)
    &&& tensors_of(cfg, g.tensors@)
}

fn block_name(block: usize, suffix: &str) -> (res: String)
    ensures
        res@ == block_key(block as nat, suffix@),
{
    let mut s = "model.layers.".to_owned();
    push_decimal(&mut s, block as u64);
    s.append(suffix);
    s
}

fn expert_name(block: usize, expert: usize, suffix: &str) -> (res: String)
    ensures
        res@ == expert_key(block as nat, expert as nat, suffix@),
{
    let mut s = block_name(block, ".block_sparse_moe.experts.");
    push_decimal(&mut s, expert as u64);
    s.append(suffix);
    assert(s@ =~= expert_key(block as nat, expert as nat, suffix@));
    s
}

fn ratio(a: usize, b: usize) -> (res: String)
    ensures
        res@ == decimal(a as nat) + " / "@ + decimal(b as nat),
{
    let mut s = String::new();
    push_decimal(&mut s, a as u64);
    assert(s@ =~= decimal(a as nat));
    s.append(" / ");
    push_decimal(&mut s, b as u64);
    s
}

fn weight_vector(name: String, a: usize) -> (res: Param)
    ensures
        res@ == vector(name@, a as int),
{
    let p = Param { name, shape: Shape(vec![Dim::Fixed(a)]), dtype: Dtype::Bf16 };
    assert(p@.shape =~= seq![Dim::Fixed(a)]);
    p
}

fn weight_matrix(name: String, a: usize, b: usize) -> (res: Param)
    ensures
        res@ == matrix(name@, a as int, b as int),
{
    let p = Param { name, shape: Shape(vec![Dim::Fixed(a), Dim::Fixed(b)]), dtype: Dtype::Bf16 };
    assert(p@.shape =~= seq![Dim::Fixed(a), Dim::Fixed(b)]);
    p
}

/// Allocates an activation tensor of the given width and enters it in the catalog.
fn fresh_tensor(tids: &mut TensorIdGen, tensors: &mut BTreeMap<u32, Tensor>, width: usize) -> (res:
    u32)
    requires
        old(tids).next < u32::MAX,
    ensures
        res == old(tids).next,
        final(tids).next == old(tids).next + 1,
        final(tensors)@.dom() == old(tensors)@.dom().insert(res),
        forall|id: u32|
            id != res && old(tensors)@.contains_key(id) ==> #[trigger] final(tensors)@[id] == old(
                tensors,
            )@[id],
        final(tensors)@[res]@ == (TensorView {
            id: res,
            shape: seq![Dim::Batch, Dim::SeqLen, Dim::Fixed(width)],
            dtype: Dtype::Bf16,
        }),
{
    broadcast use vstd::std_specs::btree::group_btree_axioms;

    let id = tids.fresh();
    let t = Tensor {
        id,
        shape: Shape(vec![Dim::Batch, Dim::SeqLen, Dim::Fixed(width)]),
        dtype: Dtype::Bf16,
    };
    assert(t@.shape =~= seq![Dim::Batch, Dim::SeqLen, Dim::Fixed(width)]);
    tensors.insert(id, t);
    assert(tensors@ == old(tensors)@.insert(id, t));
    assert(tensors@.dom() =~= old(tensors)@.dom().insert(id));
    id
}

/// The views of a parameter list.
pub open spec fn param_views(params: Seq<Param>) -> Seq<ParamView> {
    Seq::new(params.len(), |i: int| params[i]@)
}

fn layer(
    idx: usize,
    block_idx: Option<usize>,
    kind: LayerKind,
    params: Vec<Param>,
    inputs: Vec<u32>,
    output: u32,
) -> (res: Layer)
    ensures
        res@ == (LayerView {
            idx,
            block_idx,
            kind,
            params: param_views(params@),
            inputs: inputs@,
            outputs: seq![output],
        }),
{
    let l = Layer { idx, block_idx, kind, params, inputs, outputs: vec![output] };
    assert(l@.outputs =~= seq![output]);
    assert(l@.params =~= param_views(params@));
    l
}

/// Checks the rules on the config and gives the head width.
fn validate(cfg: &MixtralConfig) -> (res: Result<usize, ImportError>)
    requires
        cfg.divisible(),
    ensures
        res is Ok <==> cfg.consistent(),
        res is Ok ==> res->Ok_0 == cfg.head_width(),
        res is Err ==> rejection(*cfg, res->Err_0),
{
    let head_dim: usize = match cfg.head_dim {
        Some(d) => d,
        None => {
            if cfg.hidden_size % cfg.num_attention_heads != 0 {
                return Err(
                    ImportError::InvalidConfig {
                        field: "hidden_size / num_attention_heads",
                        value: ratio(cfg.hidden_size, cfg.num_attention_heads),
                        constraint:
                            "hidden_size must be divisible by num_attention_heads when head_dim is absent",
                    },
                );
            }
            cfg.hidden_size / cfg.num_attention_heads
        },
    };
    if cfg.num_attention_heads % cfg.num_key_value_heads != 0 {
        return Err(
            ImportError::InvalidConfig {
                field: "num_attention_heads / num_key_value_heads",
                value: ratio(cfg.num_attention_heads, cfg.num_key_value_heads),
                constraint: "num_attention_heads must be divisible by num_key_value_heads (GQA)",
            },
        );
    }
    if cfg.num_experts_per_tok > cfg.num_local_experts {
        let mut value = String::new();
        push_decimal(&mut value, cfg.num_experts_per_tok as u64);
        assert(value@ =~= decimal(cfg.num_experts_per_tok as nat));
        return Err(
            ImportError::InvalidConfig {
                field: "num_experts_per_tok",
                value,
                constraint: "top-k must not exceed num_local_experts",
            },
        );
    }
    if let Some(act) = &cfg.hidden_act {
        if !same(act.as_str(), "silu") {
            return Err(
                ImportError::InvalidConfig {
                    field: "hidden_act",
                    value: act.clone(),
                    constraint: "Mixtral importer supports hidden_act = silu only",
                },
            );
        }
    }
    if cfg.architectures.len() == 0 {
        return Err(ImportError::NoArchitecture);
    }
    Ok(head_dim)
}

/// The weights of the mixture-of-experts layer of a block.
fn moe_params(cfg: &MixtralConfig, block: usize) -> (res: Vec<Param>)
    requires
        1 + 3 * cfg.num_local_experts <= usize::MAX,
    ensures
        param_views(res@) == Seq::new(
            (1 + 3 * cfg.num_local_experts) as nat,
            |j: int| moe_param(*cfg, block as nat, j),
        ),
{
    let h = cfg.hidden_size;
    let inner = cfg.intermediate_size;
    let mut params: Vec<Param> = Vec::new();
    params.push(
        weight_matrix(block_name(block, ".block_sparse_moe.gate.weight"), cfg.num_local_experts, h),
    );
    let mut e: usize = 0;
    while e < cfg.num_local_experts
        invariant
            e <= cfg.num_local_experts,
            h == cfg.hidden_size,
            inner == cfg.intermediate_size,
            params@.len() == 1 + 3 * e,
            forall|j: int|
                0 <= j < params@.len() ==> (#[trigger] params@[j])@ == moe_param(
                    *cfg,
                    block as nat,
                    j,
                ),
        decreases cfg.num_local_experts - e,
    {
        params.push(weight_matrix(expert_name(block, e, ".w1.weight"), inner, h));
        params.push(weight_matrix(expert_name(block, e, ".w2.weight"), h, inner));
        params.push(weight_matrix(expert_name(block, e, ".w3.weight"), inner, h));
        e += 1;
    }
    assert(param_views(params@) =~= Seq::new(
        (1 + 3 * cfg.num_local_experts) as nat,
        |j: int| moe_param(*cfg, block as nat, j),
    ));
    params
}

/// The weights of the attention layer of a block.
fn attention_weights(cfg: &MixtralConfig, block: usize, q: usize, kv: usize) -> (res: Vec<Param>)
    requires
        q == cfg.num_attention_heads * cfg.head_width(),
        kv == cfg.num_key_value_heads * cfg.head_width(),
    ensures
        param_views(res@) == attention_params(*cfg, block as nat),
{
    let h = cfg.hidden_size;
    let params = vec![
        weight_matrix(block_name(block, ".self_attn.q_proj.weight"), q, h),
        weight_matrix(block_name(block, ".self_attn.k_proj.weight"), kv, h),
        weight_matrix(block_name(block, ".self_attn.v_proj.weight"), kv, h),
        weight_matrix(block_name(block, ".self_attn.o_proj.weight"), h, q),
    ];
    assert(param_views(params@) =~= attention_params(*cfg, block as nat));
    params
}

/// The layers, ids and catalog entries made so far are those of the config's graph.
spec fn built(
    cfg: MixtralConfig,
    layers: Seq<Layer>,
    tensors: Map<u32, Tensor>,
    next: u32,
) -> bool {
    &&& next == layers.len()
    &&& forall|i: int| 0 <= i < layers.len() ==> (#[trigger] layers[i])@ == mixtral_layer(cfg, i)
    &&& forall|id: u32| #[trigger] tensors.contains_key(id) <==> id < next
    &&& forall|id: u32|
        #[trigger] tensors.contains_key(id) ==> tensors[id]@ == mixtral_tensor(cfg, id as int)
}

/// Appends the next layer together with the tensor that it writes.
fn append_layer(
    Ghost(cfg): Ghost<MixtralConfig>,
    layers: &mut Vec<Layer>,
    tensors: &mut BTreeMap<u32, Tensor>,
    tids: &mut TensorIdGen,
    block_idx: Option<usize>,
    kind: LayerKind,
    params: Vec<Param>,
    width: usize,
)
    requires
        built(cfg, old(layers)@, old(tensors)@, old(tids).next),
        old(layers)@.len() < 4 * cfg.num_hidden_layers + 3,
        cfg.representable(),
        ({
            let i = old(layers)@.len() as int;
            &&& block_idx == mixtral_layer(cfg, i).block_idx
            &&& kind == layer_kind(cfg, i)
            &&& param_views(params@) == layer_params(cfg, i)
            &&& width == if i == 4 * cfg.num_hidden_layers + 2 {
                cfg.vocab_size
            } else {
                cfg.hidden_size
            }
        }),
    ensures
        built(cfg, final(layers)@, final(tensors)@, final(tids).next),
        final(layers)@.len() == old(layers)@.len() + 1,
{
    let idx: usize = layers.len();
    let inputs: Vec<u32> = if idx == 0 {
        Vec::new()
    } else {
        vec![(idx - 1) as u32]
    };
    let output: u32 = fresh_tensor(tids, tensors, width);
    let l = layer(idx, block_idx, kind, params, inputs, output);
    proof {
        let i = idx as int;
        assert(l@.inputs =~= mixtral_layer(cfg, i).inputs);
        assert(l@.outputs =~= mixtral_layer(cfg, i).outputs);
        assert(l@ == mixtral_layer(cfg, i));
        assert(tensors@[output]@ == mixtral_tensor(cfg, i));
    }
    layers.push(l);
    assert forall|id: u32| #[trigger] tensors@.contains_key(id) implies tensors@[id]@
        == mixtral_tensor(cfg, id as int) by {
        if id != output {
            assert(old(tensors)@.contains_key(id));
        }
    }
}

/// Builds the graph of a config, or says which rule the config breaks first.
pub fn build(cfg: MixtralConfig) -> (res: Result<Graph, ImportError>)
    requires
        cfg.divisible(),
        cfg.consistent() ==> cfg.representable(),
    ensures
        res is Ok <==> cfg.consistent(),
        res is Ok ==> graph_of(cfg, res->Ok_0),
        res is Err ==> rejection(cfg, res->Err_0),
{
    broadcast use vstd::std_specs::btree::group_btree_axioms;

    let head_dim: usize = match validate(&cfg) {
        Ok(d) => d,
        Err(e) => {
            return Err(e);
        },
    };
    let hidden = cfg.hidden_size;
    let vocab = cfg.vocab_size;
    let num_blocks = cfg.num_hidden_layers;
    let meta = ModelMeta {
        architecture: cfg.architectures[0].clone(),
        num_layers: num_blocks,
        hidden,
        vocab,
        max_position: cfg.max_position_embeddings,
        num_attention_heads: cfg.num_attention_heads,
        num_kv_heads: cfg.num_key_value_heads,
        head_dim,
        num_experts: Some(cfg.num_local_experts),
        top_k: Some(cfg.num_experts_per_tok),
        intermediate: cfg.intermediate_size,
        rope_theta: cfg.rope_theta,
        rms_norm_eps: cfg.rms_norm_eps,
        sliding_window: cfg.sliding_window,
        tied_embeddings: cfg.tie_word_embeddings,
    };
    let norm = LayerKind::RmsNorm(NormCfg { eps: cfg.rms_norm_eps, hidden });
    let attention = LayerKind::Attention(
        AttentionCfg {
            num_heads: cfg.num_attention_heads,
            num_kv_heads: cfg.num_key_value_heads,
            head_dim,
            position: AttentionPosition::Rope { theta: cfg.rope_theta },
            sliding_window: cfg.sliding_window,
        },
    );
    let moe = LayerKind::Moe(
        MoeCfg {
            num_experts: cfg.num_local_experts,
            top_k: cfg.num_experts_per_tok,
            hidden,
            intermediate: cfg.intermediate_size,
            activation: Activation::Silu,
        },
    );

    let mut tids = TensorIdGen { next: 0 };
    let mut tensors: BTreeMap<u32, Tensor> = BTreeMap::new();
    let mut layers: Vec<Layer> = Vec::new();

    let embed = vec![weight_matrix("model.embed_tokens.weight".to_owned(), vocab, hidden)];
    assert(param_views(embed@) =~= layer_params(cfg, 0));
    append_layer(
        Ghost(cfg),
        &mut layers,
        &mut tensors,
        &mut tids,
        None,
        LayerKind::Embedding(EmbeddingCfg { vocab, hidden }),
        embed,
        hidden,
    );

    let mut block: usize = 0;
    while block < num_blocks
        invariant
            block <= num_blocks,
            num_blocks == cfg.num_hidden_layers,
            hidden == cfg.hidden_size,
            head_dim == cfg.head_width(),
            norm == norm_kind(cfg),
            attention == attention_kind(cfg),
            moe == moe_kind(cfg),
            cfg.representable(),
            layers@.len() == 4 * block + 1,
            built(cfg, layers@, tensors@, tids.next),
        decreases num_blocks - block,
    {
        let q: usize = cfg.num_attention_heads * head_dim;
        let kv: usize = cfg.num_key_value_heads * head_dim;
        let at: usize = 4 * block + 1;

        let w = vec![weight_vector(block_name(block, ".input_layernorm.weight"), hidden)];
        assert(param_views(w@) =~= layer_params(cfg, at as int));
        append_layer(
            Ghost(cfg),
            &mut layers,
            &mut tensors,
            &mut tids,
            Some(block),
            norm,
            w,
            hidden,
        );
        let w = attention_weights(&cfg, block, q, kv);
        assert(param_views(w@) =~= layer_params(cfg, at + 1));
        append_layer(
            Ghost(cfg),
            &mut layers,
            &mut tensors,
            &mut tids,
            Some(block),
            attention,
            w,
            hidden,
        );
        let w = vec![weight_vector(block_name(block, ".post_attention_layernorm.weight"), hidden)];
        assert(param_views(w@) =~= layer_params(cfg, at + 2));
        append_layer(
            Ghost(cfg),
            &mut layers,
            &mut tensors,
            &mut tids,
            Some(block),
            norm,
            w,
            hidden,
        );
        let w = moe_params(&cfg, block);
        assert(param_views(w@) =~= layer_params(cfg, at + 3));
        append_layer(Ghost(cfg), &mut layers, &mut tensors, &mut tids, Some(block), moe, w, hidden);
        block += 1;
    }

    let w = vec![weight_vector("model.norm.weight".to_owned(), hidden)];
    assert(param_views(w@) =~= layer_params(cfg, 4 * num_blocks + 1));
    append_layer(Ghost(cfg), &mut layers, &mut tensors, &mut tids, None, norm, w, hidden);

    let w = if cfg.tie_word_embeddings {
        Vec::new()
    } else {
        vec![weight_matrix("lm_head.weight".to_owned(), vocab, hidden)]
    };
    assert(param_views(w@) =~= layer_params(cfg, 4 * num_blocks + 2));
    append_layer(
        Ghost(cfg),
        &mut layers,
        &mut tensors,
        &mut tids,
        None,
        LayerKind::Lmhead(LmheadCfg { vocab, hidden, tied: cfg.tie_word_embeddings }),
        w,
        vocab,
    );
    Ok(Graph { meta, layers, tensors })
}

/// The layers of a config's graph are numbered by position, each reads exactly what its
/// predecessor wrote, and whatever a layer reads or writes is catalogued under its id.
pub proof fn layers_are_chained(cfg: MixtralConfig, g: Graph, i: int)
    requires
        graph_of(cfg, g),
        cfg.representable(),
        0 <= i < g.layers@.len(),
    ensures
        g.layers@[i].idx == i,
        g.layers@[i].outputs@.len() == 1,
        i == 0 ==> g.layers@[i].inputs@.len() == 0,
        i > 0 ==> g.layers@[i].inputs@ == g.layers@[i - 1].outputs@,
        forall|k: int|
            0 <= k < g.layers@[i].inputs@.len() ==> g.tensors@.contains_key(
                #[trigger] g.layers@[i].inputs@[k],
            ),
        g.tensors@.contains_key(g.layers@[i].outputs@[0]),
        g.tensors@[g.layers@[i].outputs@[0]].id == g.layers@[i].outputs@[0],
{
    let l = g.layers@[i];
    assert(l@ == mixtral_layer(cfg, i));
    assert(g.tensors@.contains_key(i as u32));
    assert(l.outputs@ == seq![i as u32]);
    assert(g.tensors@[i as u32]@ == mixtral_tensor(cfg, i));
    if i > 0 {
        assert(g.layers@[i - 1]@ == mixtral_layer(cfg, i - 1));
        assert(g.tensors@.contains_key((i - 1) as u32));
    }
}

/// The graph of a config has exactly the decoder blocks that the config declares,
/// numbered from zero.
pub proof fn blocks_are_the_declared_ones(cfg: MixtralConfig, g: Graph)
    requires
        graph_of(cfg, g),
        cfg.representable(),
    ensures
        forall|b: usize|
            #[trigger] block_set(g.layers@).contains(b) <==> b < cfg.num_hidden_layers,
        block_set(g.layers@).len() == cfg.num_hidden_layers,
        g.meta.num_layers == cfg.num_hidden_layers,
{
    let n = cfg.num_hidden_layers;
    let layers = g.layers@;
    assert forall|b: usize| #[trigger] block_set(layers).contains(b) implies b < n by {
        let i = block_witness(layers, b);
        assert(layers[i]@ == mixtral_layer(cfg, i));
    }
    assert forall|b: usize| b < n implies #[trigger] block_set(layers).contains(b) by {
        let i = 4 * b + 1;
        assert(layers[i]@ == mixtral_layer(cfg, i));
        block_occurs(layers, i);
    }
    let ids = Seq::new(n as nat, |b: int| b as usize);
    assert(ids.no_duplicates());
    ids.unique_seq_to_set();
    assert forall|b: usize| b < n implies #[trigger] ids.to_set().contains(b) by {
        assert(ids[b as int] == b);
    }
    assert(ids.to_set() =~= block_set(layers));
}

/// Every weight of the graph of a config has a static shape.
pub proof fn weights_are_static(cfg: MixtralConfig, g: Graph)
    requires
        graph_of(cfg, g),
        cfg.representable(),
    ensures
        weights_static(g.layers@),
{
    let layers = g.layers@;
    assert forall|i: int, j: int|
        0 <= i < layers.len() && 0 <= j < layers[i].params@.len() implies is_static(
        (#[trigger] layers[i].params@[j]).shape@,
    ) by {
        assert(layers[i]@ == mixtral_layer(cfg, i));
        assert(layers[i]@.params[j] == layers[i].params@[j]@);
        assert(layers[i]@.params == layer_params(cfg, i));
        weight_is_static(cfg, i, j);
    }
}

proof fn weight_is_static(cfg: MixtralConfig, i: int, j: int)
    requires
        0 <= i,
        0 <= j < layer_params(cfg, i).len(),
    ensures
        is_static(layer_params(cfg, i)[j].shape),
{
    let block = ((i - 1) / 4) as nat;
    let p = layer_params(cfg, i)[j];
    if 0 < i <= 4 * cfg.num_hidden_layers && (i - 1) % 4 == 1 {
        assert(p == attention_params(cfg, block)[j]);
        assert(j == 0 || j == 1 || j == 2 || j == 3);
    } else if 0 < i <= 4 * cfg.num_hidden_layers && (i - 1) % 4 == 3 {
        assert(p == moe_param(cfg, block, j));
    } else {
        assert(j == 0);
    }
    assert(p.shape.len() == 1 || p.shape.len() == 2);
    assert(p.shape[0] is Fixed);
    assert(p.shape.len() == 2 ==> p.shape[1] is Fixed);
}

/// The width of a tensor of a graph: its last dimension.
pub open spec fn tensor_width(g: Graph, id: u32) -> Dim {
    g.tensors@[id].shape@.last()
}

/// The width of what a layer reads.
pub open spec fn width_read(g: Graph, i: int) -> Dim {
    tensor_width(g, g.layers@[i].inputs@[0])
}

/// The width of what a layer writes.
pub open spec fn width_written(g: Graph, i: int) -> Dim {
    tensor_width(g, g.layers@[i].outputs@[0])
}

/// Whether a weight is a matrix, stored as `[out, in]`, that takes vectors of one width to
/// vectors of another.
pub open spec fn takes(p: Param, from: Dim, to: Dim) -> bool {
    p.shape@ == seq![to, from]
}

proof fn layer_at(cfg: MixtralConfig, g: Graph, i: int)
    requires
        graph_of(cfg, g),
        cfg.representable(),
        0 <= i < g.layers@.len(),
    ensures
        g.layers@[i]@ == mixtral_layer(cfg, i),
        g.layers@[i].kind == layer_kind(cfg, i),
        g.layers@[i].params@.len() == layer_params(cfg, i).len(),
        forall|j: int|
            0 <= j < g.layers@[i].params@.len() ==> (#[trigger] g.layers@[i].params@[j])@
                == layer_params(cfg, i)[j],
        width_written(g, i) == Dim::Fixed(
            if i == 4 * cfg.num_hidden_layers + 2 {
                cfg.vocab_size
            } else {
                cfg.hidden_size
            },
        ),
        g.tensors@[g.layers@[i].outputs@[0]].shape@.len() == 3,
        i > 0 ==> width_read(g, i) == Dim::Fixed(cfg.hidden_size),
{
    layers_are_chained(cfg, g, i);
    let l = g.layers@[i];
    assert(l@ == mixtral_layer(cfg, i));
    assert(l@.params == layer_params(cfg, i));
    assert forall|j: int| 0 <= j < l.params@.len() implies (#[trigger] l.params@[j])@
        == layer_params(cfg, i)[j] by {
        assert(l@.params[j] == l.params@[j]@);
    }
    assert(l.outputs@ == seq![i as u32]);
    assert(g.tensors@.contains_key(i as u32));
    assert(g.tensors@[i as u32]@ == mixtral_tensor(cfg, i));
    if i > 0 {
        assert(l.inputs@ == seq![(i - 1) as u32]);
        assert(g.tensors@.contains_key((i - 1) as u32));
        assert(g.tensors@[(i - 1) as u32]@ == mixtral_tensor(cfg, i - 1));
    }
}

/// The weights of an expert compose. `w1` and `w3` take what the layer reads to the
/// intermediate width, and `w2` takes that width to what the layer writes; the router takes
/// what the layer reads to one score per expert. Each has the name that the checkpoint
/// gives it.
pub proof fn expert_weights_compose(cfg: MixtralConfig, g: Graph, i: int, e: int)
    requires
        graph_of(cfg, g),
        cfg.representable(),
        0 <= i < g.layers@.len(),
        g.layers@[i].kind is Moe,
        0 <= e < cfg.num_local_experts,
    ensures
        ({
            let l = g.layers@[i];
            let m = l.kind->Moe_0;
            let inner = Dim::Fixed(cfg.intermediate_size);
            let block = "model.layers."@ + decimal(l.block_idx->0 as nat);
            let expert = ".block_sparse_moe.experts."@ + decimal(e as nat);
            let (w1, w2, w3) = (l.params@[1 + 3 * e], l.params@[2 + 3 * e], l.params@[3 + 3 * e]);
            &&& l.block_idx is Some
            &&& l.params@.len() == 1 + 3 * cfg.num_local_experts
            &&& m.num_experts == cfg.num_local_experts
            &&& m.top_k == cfg.num_experts_per_tok
            &&& Dim::Fixed(m.hidden) == width_read(g, i)
            &&& width_read(g, i) == width_written(g, i)
            &&& Dim::Fixed(m.intermediate) == inner
            &&& takes(l.params@[0], width_read(g, i), Dim::Fixed(cfg.num_local_experts))
            &&& takes(w1, width_read(g, i), inner)
            &&& takes(w3, width_read(g, i), inner)
            &&& takes(w2, inner, width_written(g, i))
            &&& l.params@[0].name@ == block + ".block_sparse_moe.gate.weight"@
            &&& w1.name@ == block + (expert + ".w1.weight"@)
            &&& w2.name@ == block + (expert + ".w2.weight"@)
            &&& w3.name@ == block + (expert + ".w3.weight"@)
        }),
{
    layer_at(cfg, g, i);
    let l = g.layers@[i];
    let block = ((i - 1) / 4) as nat;
    assert(0 < i <= 4 * cfg.num_hidden_layers && (i - 1) % 4 == 3);
    assert(l.params@.len() == 1 + 3 * cfg.num_local_experts);
    assert(l.params@[0]@ == moe_param(cfg, block, 0));
    assert(l.params@[1 + 3 * e]@ == moe_param(cfg, block, 1 + 3 * e));
    assert(l.params@[2 + 3 * e]@ == moe_param(cfg, block, 2 + 3 * e));
    assert(l.params@[3 + 3 * e]@ == moe_param(cfg, block, 3 + 3 * e));
    assert((1 + 3 * e - 1) / 3 == e && (2 + 3 * e - 1) / 3 == e && (3 + 3 * e - 1) / 3 == e);
}

/// The projections of an attention layer compose. Queries, keys and values are taken from
/// what the layer reads, every query head has a key-value head to go with, shared by as many
/// query heads as every other, and the output projection takes the queries' width to what
/// the layer writes.
pub proof fn attention_weights_compose(cfg: MixtralConfig, g: Graph, i: int)
    requires
        graph_of(cfg, g),
        cfg.representable(),
        cfg.divisible(),
        cfg.consistent(),
        0 <= i < g.layers@.len(),
        g.layers@[i].kind is Attention,
    ensures
        ({
            let l = g.layers@[i];
            let a = l.kind->Attention_0;
            let q = Dim::Fixed((a.num_heads * a.head_dim) as usize);
            let kv = Dim::Fixed((a.num_kv_heads * a.head_dim) as usize);
            let block = "model.layers."@ + decimal(l.block_idx->0 as nat);
            &&& l.block_idx is Some
            &&& l.params@.len() == 4
            &&& a.num_heads * a.head_dim <= usize::MAX
            &&& a.num_kv_heads * a.head_dim <= usize::MAX
            &&& a.num_heads == cfg.num_attention_heads
            &&& a.num_kv_heads == cfg.num_key_value_heads
            &&& match cfg.head_dim {
                Some(d) => a.head_dim == d,
                None => a.num_heads * a.head_dim == cfg.hidden_size,
            }
            &&& exists|k: int| a.num_heads == #[trigger] (k * a.num_kv_heads)
            &&& takes(l.params@[0], width_read(g, i), q)
            &&& takes(l.params@[1], width_read(g, i), kv)
            &&& takes(l.params@[2], width_read(g, i), kv)
            &&& takes(l.params@[3], q, width_written(g, i))
            &&& l.params@[0].name@ == block + ".self_attn.q_proj.weight"@
            &&& l.params@[1].name@ == block + ".self_attn.k_proj.weight"@
            &&& l.params@[2].name@ == block + ".self_attn.v_proj.weight"@
            &&& l.params@[3].name@ == block + ".self_attn.o_proj.weight"@
        }),
{
    layer_at(cfg, g, i);
    let l = g.layers@[i];
    let block = ((i - 1) / 4) as nat;
    let p = attention_params(cfg, block);
    assert(0 < i <= 4 * cfg.num_hidden_layers && (i - 1) % 4 == 1);
    assert(cfg.num_hidden_layers > 0);
    let heads = cfg.num_attention_heads as int;
    let kv = cfg.num_key_value_heads as int;
    let w = cfg.head_width();
    assert(kv != 0);
    assert(heads == (heads / kv) * kv) by (nonlinear_arith)
        requires
            kv > 0,
            heads % kv == 0,
    ;
    if cfg.head_dim is None {
        let h = cfg.hidden_size as int;
        assert(heads * (h / heads) == h && 0 <= h / heads <= h) by (nonlinear_arith)
            requires
                heads > 0,
                h >= 0,
                h % heads == 0,
        ;
    }
    assert(l.params@[0]@ == p[0]);
    assert(l.params@[1]@ == p[1]);
    assert(l.params@[2]@ == p[2]);
    assert(l.params@[3]@ == p[3]);
}

/// The layers stand in the order of the model: the embedding, then in every block a norm,
/// attention, a norm and the experts, then the last norm and the head. Every norm keeps the
/// width of what it reads, with one weight per element; the embedding has a row per token,
/// of the width that it writes; the head takes what it reads to one logit per token, by
/// weights of its own unless the embeddings are tied.
pub proof fn the_stack_is_in_order(cfg: MixtralConfig, g: Graph)
    requires
        graph_of(cfg, g),
        cfg.representable(),
    ensures
        ({
            let n = cfg.num_hidden_layers as int;
            let hidden = Dim::Fixed(cfg.hidden_size);
            let vocab = Dim::Fixed(cfg.vocab_size);
            let first = g.layers@[0];
            let norm = g.layers@[4 * n + 1];
            let head = g.layers@[4 * n + 2];
            &&& g.layers@.len() == 1 + 4 * n + 2
            &&& first.kind is Embedding && first.block_idx is None && first.params@.len() == 1
            &&& takes(first.params@[0], width_written(g, 0), vocab)
            &&& first.params@[0].name@ == "model.embed_tokens.weight"@
            &&& first.kind->Embedding_0 == EmbeddingCfg {
                vocab: cfg.vocab_size,
                hidden: cfg.hidden_size,
            }
            &&& norm.block_idx is None && norm_fits(cfg, g, 4 * n + 1, "model.norm.weight"@)
            &&& head.kind is Lmhead && head.block_idx is None
            &&& head.kind->Lmhead_0 == LmheadCfg {
                vocab: cfg.vocab_size,
                hidden: cfg.hidden_size,
                tied: cfg.tie_word_embeddings,
            }
            &&& width_written(g, 4 * n + 2) == vocab
            &&& cfg.tie_word_embeddings ==> head.params@.len() == 0
            &&& !cfg.tie_word_embeddings ==> {
                &&& head.params@.len() == 1
                &&& takes(head.params@[0], width_read(g, 4 * n + 2), width_written(g, 4 * n + 2))
                &&& head.params@[0].name@ == "lm_head.weight"@
            }
            &&& forall|i: int|
                0 <= i < 4 * n + 2 ==> #[trigger] width_written(g, i) == hidden
            &&& forall|b: int| #![trigger g.layers@[4 * b + 1]]
                0 <= b < n ==> {
                    let block = "model.layers."@ + decimal(b as nat);
                    &&& g.layers@[4 * b + 1].block_idx == Some(b as usize)
                    &&& g.layers@[4 * b + 2].block_idx == Some(b as usize)
                    &&& g.layers@[4 * b + 3].block_idx == Some(b as usize)
                    &&& g.layers@[4 * b + 4].block_idx == Some(b as usize)
                    &&& norm_fits(cfg, g, 4 * b + 1, block + ".input_layernorm.weight"@)
                    &&& g.layers@[4 * b + 2].kind is Attention
                    &&& norm_fits(cfg, g, 4 * b + 3, block + ".post_attention_layernorm.weight"@)
                    &&& g.layers@[4 * b + 4].kind is Moe
                }
        }),
{
    let n = cfg.num_hidden_layers as int;
    layer_at(cfg, g, 0);
    layer_at(cfg, g, 4 * n + 1);
    layer_at(cfg, g, 4 * n + 2);
    assert(g.layers@[0].params@[0]@ == layer_params(cfg, 0)[0]);
    assert(g.layers@[4 * n + 1].params@[0]@ == layer_params(cfg, 4 * n + 1)[0]);
    if !cfg.tie_word_embeddings {
        assert(g.layers@[4 * n + 2].params@[0]@ == layer_params(cfg, 4 * n + 2)[0]);
    }
    assert forall|i: int| 0 <= i < 4 * n + 2 implies #[trigger] width_written(g, i) == Dim::Fixed(
        cfg.hidden_size,
    ) by {
        layer_at(cfg, g, i);
    }
    assert forall|b: int| #![trigger g.layers@[4 * b + 1]] 0 <= b < n implies {
        let block = "model.layers."@ + decimal(b as nat);
        &&& g.layers@[4 * b + 1].block_idx == Some(b as usize)
        &&& g.layers@[4 * b + 2].block_idx == Some(b as usize)
        &&& g.layers@[4 * b + 3].block_idx == Some(b as usize)
        &&& g.layers@[4 * b + 4].block_idx == Some(b as usize)
        &&& norm_fits(cfg, g, 4 * b + 1, block + ".input_layernorm.weight"@)
        &&& g.layers@[4 * b + 2].kind is Attention
        &&& norm_fits(cfg, g, 4 * b + 3, block + ".post_attention_layernorm.weight"@)
        &&& g.layers@[4 * b + 4].kind is Moe
    } by {
        layer_at(cfg, g, 4 * b + 1);
        layer_at(cfg, g, 4 * b + 2);
        layer_at(cfg, g, 4 * b + 3);
        layer_at(cfg, g, 4 * b + 4);
        assert(g.layers@[4 * b + 1].params@[0]@ == layer_params(cfg, 4 * b + 1)[0]);
        assert(g.layers@[4 * b + 3].params@[0]@ == layer_params(cfg, 4 * b + 3)[0]);
    }
}

/// Whether a layer is a norm with one weight, of this name, per element of what it reads and
/// writes.
pub open spec fn norm_fits(cfg: MixtralConfig, g: Graph, i: int, name: Seq<char>) -> bool {
    let l = g.layers@[i];
    &&& l.kind == LayerKind::RmsNorm(NormCfg { eps: cfg.rms_norm_eps, hidden: cfg.hidden_size })
    &&& l.params@.len() == 1
    &&& l.params@[0].name@ == name
    &&& l.params@[0].shape@ == seq![width_read(g, i)]
    &&& width_read(g, i) == width_written(g, i)
}

/// A config is accepted exactly when the heads share the key-value heads evenly, no token is
/// routed to more experts than there are, the hidden width splits over the heads unless the
/// head width is given, and the activation is `silu` unless it is not given.
pub proof fn accepted_configs(cfg: MixtralConfig)
    requires
        cfg.divisible(),
    ensures
        cfg.consistent() <==> {
            &&& cfg.head_dim is None ==> exists|d: int|
                cfg.hidden_size == #[trigger] (d * cfg.num_attention_heads)
            &&& exists|k: int| cfg.num_attention_heads == #[trigger] (k * cfg.num_key_value_heads)
            &&& cfg.num_key_value_heads > 0
            &&& cfg.num_experts_per_tok <= cfg.num_local_experts
            &&& cfg.hidden_act is None || cfg.hidden_act->0@ == seq!['s', 'i', 'l', 'u']
            &&& cfg.architectures@.len() > 0
        },
{
    reveal_strlit("silu");
    assert("silu"@ =~= seq!['s', 'i', 'l', 'u']);
    let h = cfg.hidden_size as int;
    let heads = cfg.num_attention_heads as int;
    let kv = cfg.num_key_value_heads as int;
    if cfg.head_dim is None {
        divides(h, heads);
    }
    if !cfg.bad_head_dim() {
        divides(heads, kv);
    }
}

proof fn divides(a: int, b: int)
    requires
        a >= 0,
        b > 0,
    ensures
        a % b == 0 <==> exists|k: int| a == #[trigger] (k * b),
{
    if a % b == 0 {
        let k = a / b;
        assert(a == k * b) by (nonlinear_arith)
            requires
                k == a / b,
                a % b == 0,
                b > 0,
        ;
    }
    if exists|k: int| a == #[trigger] (k * b) {
        let k = choose|k: int| a == #[trigger] (k * b);
        vstd::arithmetic::div_mod::lemma_mod_multiples_basic(k, b);
    }
}

/// The metadata say what the layers are: the blocks, the widths between the layers, the
/// logits, the heads and the experts.
pub proof fn metadata_describe_the_layers(cfg: MixtralConfig, g: Graph, i: int)
    requires
        graph_of(cfg, g),
        cfg.representable(),
        0 <= i < g.layers@.len(),
    ensures
        g.meta.architecture@ == cfg.architectures@[0]@,
        g.meta.max_position == cfg.max_position_embeddings,
        g.meta.tied_embeddings == cfg.tie_word_embeddings,
        i < g.layers@.len() - 1 ==> width_written(g, i) == Dim::Fixed(g.meta.hidden),
        i == g.layers@.len() - 1 ==> width_written(g, i) == Dim::Fixed(g.meta.vocab),
        g.layers@.len() == 4 * g.meta.num_layers + 3,
        match g.layers@[i].kind {
            LayerKind::Attention(a) => {
                &&& a.num_heads == g.meta.num_attention_heads
                &&& a.num_kv_heads == g.meta.num_kv_heads
                &&& a.head_dim == g.meta.head_dim
                &&& a.sliding_window == g.meta.sliding_window
                &&& a.position == AttentionPosition::Rope { theta: g.meta.rope_theta }
                &&& a.sliding_window == cfg.sliding_window
                &&& g.meta.rope_theta == cfg.rope_theta
            },
            LayerKind::Moe(m) => {
                &&& g.meta.num_experts == Some(m.num_experts)
                &&& g.meta.top_k == Some(m.top_k)
                &&& m.hidden == g.meta.hidden
                &&& m.intermediate == g.meta.intermediate
                &&& m.activation == Activation::Silu
            },
            LayerKind::RmsNorm(c) => c.hidden == g.meta.hidden && c.eps == g.meta.rms_norm_eps
                && c.eps == cfg.rms_norm_eps,
            LayerKind::Embedding(c) => c.hidden == g.meta.hidden && c.vocab == g.meta.vocab,
            LayerKind::Lmhead(c) => c.hidden == g.meta.hidden && c.vocab == g.meta.vocab
                && c.tied == g.meta.tied_embeddings,
            _ => false,
        },
{
    layer_at(cfg, g, i);
}

/// Everything in the graph of a config is catalogued as bf16, and activations run over the
/// batch and the sequence.
pub proof fn everything_is_bf16(cfg: MixtralConfig, g: Graph, i: int, j: int)
    requires
        graph_of(cfg, g),
        cfg.representable(),
        0 <= i < g.layers@.len(),
        0 <= j < g.layers@[i].params@.len(),
    ensures
        g.layers@[i].params@[j].dtype == Dtype::Bf16,
        ({
            let t = g.tensors@[g.layers@[i].outputs@[0]];
            &&& t.dtype == Dtype::Bf16
            &&& t.shape@.len() == 3
            &&& t.shape@[0] == Dim::Batch
            &&& t.shape@[1] == Dim::SeqLen
        }),
{
    layer_at(cfg, g, i);
    let l = g.layers@[i];
    assert(l.params@[j]@ == layer_params(cfg, i)[j]);
    assert(g.tensors@.contains_key(i as u32));
    assert(l@.outputs == seq![i as u32]);
    assert(g.tensors@[i as u32]@ == mixtral_tensor(cfg, i));
    let block = ((i - 1) / 4) as nat;
    if 0 < i <= 4 * cfg.num_hidden_layers && (i - 1) % 4 == 1 {
        assert(l.params@[j]@ == attention_params(cfg, block)[j]);
        assert(j == 0 || j == 1 || j == 2 || j == 3);
    } else if 0 < i <= 4 * cfg.num_hidden_layers && (i - 1) % 4 == 3 {
        assert(l.params@[j]@ == moe_param(cfg, block, j));
    } else {
        assert(j == 0);
    }
}

/// A refusal names the first rule that is broken and the values that break it: the hidden width
/// and the heads, the query and the key-value heads, the experts per token, the activation,
/// and last a missing architecture.
pub proof fn refusals_name_the_broken_rule(cfg: MixtralConfig, e: ImportError)
    requires
        cfg.divisible(),
        rejection(cfg, e),
    ensures
        ({
            let h = cfg.hidden_size as int;
            let heads = cfg.num_attention_heads as int;
            let kv = cfg.num_key_value_heads as int;
            if cfg.head_dim is None && h % heads != 0 {
                e is InvalidConfig && e->value@ == decimal(h as nat) + " / "@ + decimal(
                    heads as nat,
                )
            } else if heads % kv != 0 {
                e is InvalidConfig && e->value@ == decimal(heads as nat) + " / "@ + decimal(
                    kv as nat,
                )
            } else if cfg.num_experts_per_tok > cfg.num_local_experts {
                e is InvalidConfig && e->value@ == decimal(cfg.num_experts_per_tok as nat)
            } else if cfg.hidden_act is Some && cfg.hidden_act->0@ != "silu"@ {
                e is InvalidConfig && e->value@ == cfg.hidden_act->0@
            } else {
                e is NoArchitecture
            }
        }),
{
}

} // verus!
