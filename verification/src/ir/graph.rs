//! Typed graph: layers in execution order from token embedding through the LM head.

use std::collections::BTreeMap;

use vstd::prelude::*;

use crate::ieee::Ieee32;
use crate::ir::types::{capped, is_static, product, Dim, Dtype, Shape};

verus! {

/// Stable, monotonically assigned tensor identifier.
pub type TensorId = u32;

/// An activation tensor of the graph.
#[derive(Debug, Clone, PartialEq, Eq, Hash)]
pub struct Tensor {
    pub id: TensorId,
    pub shape: Shape,
    pub dtype: Dtype,
}

/// What a [`Tensor`] is, with its shape as a sequence.
pub struct TensorView {
    pub id: TensorId,
    pub shape: Seq<Dim>,
    pub dtype: Dtype,
}

impl View for Tensor {
    type V = TensorView;

    open spec fn view(&self) -> TensorView {
        TensorView { id: self.id, shape: self.shape@, dtype: self.dtype }
    }
}

/// A weight tensor; the name is its safetensors key.
#[derive(Debug, Clone, PartialEq, Eq, Hash)]
pub struct Param {
    pub name: String,
    pub shape: Shape,
    pub dtype: Dtype,
}

/// What a [`Param`] is, with its name and shape as sequences.
pub struct ParamView {
    pub name: Seq<char>,
    pub shape: Seq<Dim>,
    pub dtype: Dtype,
}

impl View for Param {
    type V = ParamView;

    open spec fn view(&self) -> ParamView {
        ParamView { name: self.name@, shape: self.shape@, dtype: self.dtype }
    }
}

/// Activation used inside MLP and MoE blocks.
#[derive(Debug, Clone, Copy, PartialEq, Eq, Hash, Structural)]
pub enum Activation {
    Silu,
    Gelu,
}

/// Positional encoding of attention.
#[derive(Debug, Clone, Copy, PartialEq)]
pub enum AttentionPosition {
    Rope { theta: Ieee32 },
}

#[derive(Debug, Clone, Copy, PartialEq, Eq, Structural)]
pub struct EmbeddingCfg {
    pub vocab: usize,
    pub hidden: usize,
}

#[derive(Debug, Clone, Copy, PartialEq)]
pub struct NormCfg {
    pub eps: Ieee32,
    pub hidden: usize,
}

#[derive(Debug, Clone, Copy, PartialEq)]
pub struct AttentionCfg {
    pub num_heads: usize,
    pub num_kv_heads: usize,
    pub head_dim: usize,
    pub position: AttentionPosition,
    /// Width of the sliding window; `None` for full attention.
    pub sliding_window: Option<usize>,
}

#[derive(Debug, Clone, Copy, PartialEq, Eq, Structural)]
pub struct MlpCfg {
    pub hidden: usize,
    pub intermediate: usize,
    pub activation: Activation,
}

/// Mixture-of-experts block: `top_k` of `num_experts` are routed per token.
#[derive(Debug, Clone, Copy, PartialEq, Eq, Structural)]
pub struct MoeCfg {
    pub num_experts: usize,
    pub top_k: usize,
    pub hidden: usize,
    pub intermediate: usize,
    pub activation: Activation,
}

#[derive(Debug, Clone, Copy, PartialEq, Eq, Structural)]
pub struct LmheadCfg {
    pub vocab: usize,
    pub hidden: usize,
    /// Whether the weights are those of the embedding table.
    pub tied: bool,
}

#[derive(Debug, Clone, Copy, PartialEq)]
pub enum LayerKind {
    Embedding(EmbeddingCfg),
    RmsNorm(NormCfg),
    Attention(AttentionCfg),
    Mlp(MlpCfg),
    Moe(MoeCfg),
    Lmhead(LmheadCfg),
}

/// A single layer in execution order.
#[derive(Debug, Clone, PartialEq)]
pub struct Layer {
    /// Position in `Graph::layers`.
    pub idx: usize,
    /// Decoder-block index; `None` for the embedding, the final norm and the LM head.
    pub block_idx: Option<usize>,
    pub kind: LayerKind,
    pub params: Vec<Param>,
    pub inputs: Vec<TensorId>,
    pub outputs: Vec<TensorId>,
}

/// What a [`Layer`] is, with its parts as sequences.
pub struct LayerView {
    pub idx: usize,
    pub block_idx: Option<usize>,
    pub kind: LayerKind,
    pub params: Seq<ParamView>,
    pub inputs: Seq<TensorId>,
    pub outputs: Seq<TensorId>,
}

impl View for Layer {
    type V = LayerView;

    open spec fn view(&self) -> LayerView {
        LayerView {
            idx: self.idx,
            block_idx: self.block_idx,
            kind: self.kind,
            params: Seq::new(self.params@.len(), |i: int| self.params@[i]@),
            inputs: self.inputs@,
            outputs: self.outputs@,
        }
    }
}

/// Top-level model metadata.
#[derive(Debug, Clone, PartialEq)]
pub struct ModelMeta {
    pub architecture: String,
    pub num_layers: usize,
    pub hidden: usize,
    pub vocab: usize,
    pub max_position: usize,
    pub num_attention_heads: usize,
    pub num_kv_heads: usize,
    pub head_dim: usize,
    /// Number of experts, for a mixture-of-experts model only.
    pub num_experts: Option<usize>,
    /// Experts routed per token.
    pub top_k: Option<usize>,
    pub intermediate: usize,
    pub rope_theta: Ieee32,
    pub rms_norm_eps: Ieee32,
    pub sliding_window: Option<usize>,
    pub tied_embeddings: bool,
}

/// The complete typed graph of a model.
#[derive(Debug, Clone, PartialEq)]
pub struct Graph {
    pub meta: ModelMeta,
    pub layers: Vec<Layer>,
    /// Tensor catalog, in the order of the ids.
    pub tensors: BTreeMap<TensorId, Tensor>,
}

/// The decoder blocks that occur in a sequence of layers.
pub open spec fn block_set(layers: Seq<Layer>) -> Set<usize>
    decreases layers.len(),
{
    if layers.len() == 0 {
        Set::empty()
    } else {
        match layers.last().block_idx {
            Some(b) => block_set(layers.drop_last()).insert(b),
            None => block_set(layers.drop_last()),
        }
    }
}

/// The block of every layer occurs.
pub proof fn block_occurs(layers: Seq<Layer>, i: int)
    requires
        0 <= i < layers.len(),
        layers[i].block_idx is Some,
    ensures
        block_set(layers).contains(layers[i].block_idx->0),
    decreases layers.len(),
{
    if i < layers.len() - 1 {
        block_occurs(layers.drop_last(), i);
    }
}

/// A block that occurs is the block of some layer.
pub proof fn block_witness(layers: Seq<Layer>, b: usize) -> (i: int)
    requires
        block_set(layers).contains(b),
    ensures
        0 <= i < layers.len(),
        layers[i].block_idx == Some(b),
    decreases layers.len(),
{
    if layers.last().block_idx == Some(b) {
        layers.len() - 1
    } else {
        block_witness(layers.drop_last(), b)
    }
}

/// The elements of one parameter, capped.
pub open spec fn param_numel(p: Param) -> nat {
    capped(product(p.shape@)) as nat
}

/// The sum of the capped element counts of some parameters.
pub open spec fn params_total(params: Seq<Param>) -> nat
    decreases params.len(),
{
    if params.len() == 0 {
        0
    } else {
        params_total(params.drop_last()) + param_numel(params.last())
    }
}

/// The sum over the parameters of some layers.
pub open spec fn layers_total(layers: Seq<Layer>) -> nat
    decreases layers.len(),
{
    if layers.len() == 0 {
        0
    } else {
        layers_total(layers.drop_last()) + params_total(layers.last().params@)
    }
}

/// Whether every weight has a static shape.
pub open spec fn weights_static(layers: Seq<Layer>) -> bool {
    forall|i: int, j: int|
        0 <= i < layers.len() && 0 <= j < layers[i].params@.len() ==> is_static(
            (#[trigger] layers[i].params@[j]).shape@,
        )
}

impl Graph {
    /// Number of distinct decoder blocks. A block has several layers, which share a
    /// `block_idx`.
    pub fn num_decoder_blocks(&self) -> (res: usize)
        ensures
            res == block_set(self.layers@).len(),
    {
        let mut seen: Vec<usize> = Vec::new();
        let mut i: usize = 0;
        while i < self.layers.len()
            invariant
                i <= self.layers.len(),
                seen@.no_duplicates(),
                seen@.to_set() =~= block_set(self.layers@.take(i as int)),
            decreases self.layers.len() - i,
        {
            assert(self.layers@.take(i + 1).drop_last() =~= self.layers@.take(i as int));
            if let Some(b) = self.layers[i].block_idx {
                let mut found = false;
                let mut j: usize = 0;
                while j < seen.len() && !found
                    invariant
                        j <= seen.len(),
                        found ==> seen@.contains(b),
                        !found ==> forall|k: int| 0 <= k < j ==> seen@[k] != b,
                    decreases seen.len() - j + if found {
                        0int
                    } else {
                        1int
                    },
                {
                    if seen[j] == b {
                        found = true;
                    } else {
                        j += 1;
                    }
                }
                if !found {
                    let ghost before = seen@;
                    seen.push(b);
                    assert(seen@.to_set() =~= before.to_set().insert(b)) by {
                        assert(seen@.last() == b);
                        assert forall|x: usize| before.to_set().contains(
                            x,
                        ) implies seen@.to_set().contains(x) by {
                            let k = before.index_of(x);
                            assert(seen@[k] == x);
                        }
                    }
                } else {
                    assert(seen@.to_set().insert(b) =~= seen@.to_set());
                }
            }
            i += 1;
        }
        assert(self.layers@.take(self.layers@.len() as int) =~= self.layers@);
        proof {
            seen@.unique_seq_to_set();
        }
        seen.len()
    }

    /// Total parameter count, capped at `u64::MAX`. Weights are statically sized.
    pub fn param_count(&self) -> (res: u64)
        requires
            weights_static(self.layers@),
        ensures
            res == capped(layers_total(self.layers@)),
    {
        let mut total: u64 = 0;
        let mut i: usize = 0;
        while i < self.layers.len()
            invariant
                i <= self.layers.len(),
                weights_static(self.layers@),
                total == capped(layers_total(self.layers@.take(i as int))),
            decreases self.layers.len() - i,
        {
            let ghost base = layers_total(self.layers@.take(i as int));
            let layer = &self.layers[i];
            assert(layer.params@.take(0) =~= Seq::<Param>::empty());
            let mut j: usize = 0;
            while j < layer.params.len()
                invariant
                    i < self.layers.len(),
                    *layer == self.layers@[i as int],
                    j <= layer.params.len(),
                    weights_static(self.layers@),
                    total == capped(base + params_total(layer.params@.take(j as int))),
                decreases layer.params.len() - j,
            {
                assert(layer.params@.take(j + 1).drop_last() =~= layer.params@.take(j as int));
                assert(is_static(self.layers@[i as int].params@[j as int].shape@));
                let n: u64 = match layer.params[j].shape.static_numel() {
                    Some(n) => n,
                    None => 0,
                };
                total = total.saturating_add(n);
                j += 1;
            }
            assert(layer.params@.take(layer.params@.len() as int) =~= layer.params@);
            assert(self.layers@.take(i + 1).drop_last() =~= self.layers@.take(i as int));
            i += 1;
        }
        assert(self.layers@.take(self.layers@.len() as int) =~= self.layers@);
        total
    }
}

/// Hands out tensor ids one after the other.
#[derive(Debug)]
pub struct TensorIdGen {
    pub next: TensorId,
}

impl Default for TensorIdGen {
    fn default() -> (res: Self)
        ensures
            res.next == 0,
    {
        TensorIdGen { next: 0 }
    }
}

impl TensorIdGen {
    /// The next id: every id is one more than the one before.
    pub fn fresh(&mut self) -> (res: TensorId)
        requires
            old(self).next < u32::MAX,
        ensures
            res == old(self).next,
            final(self).next == old(self).next + 1,
    {
        let id: u32 = self.next;
        self.next = self.next + 1;
        id
    }
}

/// Parameters add up: the elements of two lists of layers are those of the first and those of
/// the second, and a layer's are its weights', each by its shape.
pub proof fn parameters_add_up(a: Seq<Layer>, b: Seq<Layer>, x: Seq<Param>, p: Param)
    ensures
        layers_total(a + b) == layers_total(a) + layers_total(b),
        params_total(x.push(p)) == params_total(x) + capped(product(p.shape@)),
        a.len() == 1 ==> layers_total(a) == params_total(a[0].params@),
    decreases b.len(),
{
    assert(x.push(p).drop_last() =~= x);
    if a.len() == 1 {
        assert(a.drop_last().len() == 0);
        assert(layers_total(a.drop_last()) == 0);
        assert(a.last() == a[0]);
    }
    if b.len() == 0 {
        assert(a + b =~= a);
    } else {
        parameters_add_up(a, b.drop_last(), x, p);
        assert((a + b).drop_last() =~= a + b.drop_last());
    }
}

} // verus!
