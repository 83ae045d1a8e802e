//! Value types shared between the graph and the `Plan`.

use vstd::prelude::*;

verus! {

/// A numeric dtype that can appear on weights, activations, or KV cache.
///
/// Bit-widths are exact: `Int4` is genuinely 4 bits per element (packed).
#[derive(Debug, Clone, Copy, PartialEq, Eq, Hash, Structural)]
pub enum Dtype {
    Bf16,
    Fp16,
    Fp8E4m3,
    Fp8E5m2,
    Int8,
    Int4,
}

impl Dtype {
    /// All dtypes under consideration, in a stable order.
    pub const ALL: [Dtype; 6] = [
        Dtype::Bf16,
        Dtype::Fp16,
        Dtype::Fp8E4m3,
        Dtype::Fp8E5m2,
        Dtype::Int8,
        Dtype::Int4,
    ];

    /// Bits of one element.
    pub open spec fn width(self) -> nat {
        match self {
            Dtype::Bf16 | Dtype::Fp16 => 16,
            Dtype::Fp8E4m3 | Dtype::Fp8E5m2 | Dtype::Int8 => 8,
            Dtype::Int4 => 4,
        }
    }

    /// Bits per element; `Int4` is packed, two values per byte.
    pub fn bits(self) -> (res: u32)
        ensures
            res == self.width(),
    {
        match self {
            Dtype::Bf16 | Dtype::Fp16 => 16,
            Dtype::Fp8E4m3 | Dtype::Fp8E5m2 | Dtype::Int8 => 8,
            Dtype::Int4 => 4,
        }
    }

    /// Bytes needed to store `n_elements` values of this dtype, rounded up: the least
    /// number of bytes whose bits hold them all.
    pub fn bytes_for(self, n_elements: u64) -> (res: u64)
        requires
            self.width() * n_elements <= u64::MAX,
        ensures
            8 * (res - 1) < self.width() * n_elements <= 8 * res,
    {
        let w: u64 = self.bits() as u64;
        let bits: u64 = w * n_elements;
        if bits % 8 == 0 {
            bits / 8
        } else {
            bits / 8 + 1
        }
    }

    /// Whether this dtype is a float (rather than an integer quantization).
    pub fn is_float(self) -> (res: bool)
        ensures
            res <==> self != Dtype::Int8 && self != Dtype::Int4,
    {
        matches!(self, Dtype::Bf16 | Dtype::Fp16 | Dtype::Fp8E4m3 | Dtype::Fp8E5m2)
    }
}

/// The three tensor components that can be independently quantized.
#[derive(Debug, Clone, Copy, PartialEq, Eq, Hash, Structural)]
pub enum Component {
    Weight,
    Activation,
    KvCache,
}

impl Component {
    pub const ALL: [Component; 3] = [Component::Weight, Component::Activation, Component::KvCache];
}

/// A symbolic-or-fixed dimension. Runtime dimensions (batch, seq, kv_len) stay
/// symbolic until the runtime binds them.
#[derive(Debug, Clone, Copy, PartialEq, Eq, Hash, Structural)]
pub enum Dim {
    Fixed(usize),
    Batch,
    SeqLen,
    KvLen,
    /// Tensor-parallel-sharded fixed dim, with its un-sharded value.
    Tp(usize),
    /// Expert-parallel-sharded fixed dim, with its un-sharded value.
    Ep(usize),
}

impl Dim {
    /// The dimension's extent, where it is known without a runtime binding.
    pub open spec fn extent(self) -> Option<nat> {
        match self {
            Dim::Fixed(v) | Dim::Tp(v) | Dim::Ep(v) => Some(v as nat),
            Dim::Batch | Dim::SeqLen | Dim::KvLen => None,
        }
    }
}

/// Whether every dimension has a known extent.
pub open spec fn is_static(dims: Seq<Dim>) -> bool {
    forall|i: int| 0 <= i < dims.len() ==> (#[trigger] dims[i]).extent() is Some
}

/// The product of the extents of a static shape.
pub open spec fn product(dims: Seq<Dim>) -> nat
    decreases dims.len(),
{
    if dims.len() == 0 {
        1
    } else {
        product(dims.drop_last()) * dims.last().extent()->0
    }
}

/// `n`, or the largest `u64` where `n` is larger.
pub open spec fn capped(n: nat) -> u64 {
    if n <= u64::MAX {
        n as u64
    } else {
        u64::MAX
    }
}

/// A tensor shape. Order matters; index 0 is the leading dimension.
#[derive(Debug, Clone, PartialEq, Eq, Hash)]
pub struct Shape(pub Vec<Dim>);

impl View for Shape {
    type V = Seq<Dim>;

    open spec fn view(&self) -> Seq<Dim> {
        self.0@
    }
}

impl Shape {
    pub fn rank(&self) -> (res: usize)
        ensures
            res == self@.len(),
    {
        self.0.len()
    }

    /// Number of elements, with the un-sharded extents of `Tp` and `Ep` dims; `None`
    /// if any dim is symbolic. A count past `u64::MAX` is capped there.
    pub fn static_numel(&self) -> (res: Option<u64>)
        ensures
            res is Some <==> is_static(self@),
            res is Some ==> res->0 == capped(product(self@)),
    {
        let mut n: u64 = 1;
        let mut i: usize = 0;
        while i < self.0.len()
            invariant
                i <= self.0.len(),
                is_static(self@.take(i as int)),
                n == capped(product(self@.take(i as int))),
            decreases self.0.len() - i,
        {
            let ghost before = self@.take(i as int);
            let ghost after = self@.take(i + 1);
            assert(after.drop_last() =~= before);
            let d = self.0[i];
            let v: u64 = match d {
                Dim::Fixed(v) | Dim::Tp(v) | Dim::Ep(v) => v as u64,
                Dim::Batch | Dim::SeqLen | Dim::KvLen => {
                    assert(self@[i as int].extent() is None);
                    return None;
                },
            };
            proof {
                capped_product(product(before), v as nat);
                assert forall|j: int| 0 <= j < after.len() implies (
                #[trigger] after[j]).extent() is Some by {
                    if j < before.len() {
                        assert(after[j] == before[j]);
                    }
                }
            }
            n = match n.checked_mul(v) {
                Some(m) => m,
                None => u64::MAX,
            };
            i += 1;
        }
        assert(self@.take(self@.len() as int) =~= self@);
        Some(n)
    }
}

/// Capping commutes with a further factor: what saturated stays saturated unless the
/// factor is zero.
proof fn capped_product(a: nat, v: nat)
    ensures
        capped((capped(a) as nat) * v) == capped(a * v),
{
    if a > u64::MAX && v > 0 {
        assert(a * v > u64::MAX) by (nonlinear_arith)
            requires
                a > u64::MAX,
                v > 0,
        ;
        assert((u64::MAX as nat) * v >= u64::MAX) by (nonlinear_arith)
            requires
                v > 0,
        ;
    }
    if v == 0 {
        assert(a * v == 0) by (nonlinear_arith)
            requires
                v == 0,
        ;
    }
}

/// How a weight tensor is split across devices.
#[derive(Debug, Clone, Copy, PartialEq, Eq, Hash, Structural)]
pub enum Sharding {
    Replicated,
    /// Weight rows are split across `group_size` devices along the TP axis.
    TpRowParallel { group_size: u32 },
    /// Weight columns are split across `group_size` devices.
    TpColParallel { group_size: u32 },
    /// Each device owns a disjoint subset of the experts.
    ExpertParallel { group_size: u32, num_experts: u32 },
}

/// The role a device plays for a parameter once the plan has been lowered.
#[derive(Debug, Clone, Copy, PartialEq, Eq, Hash, Structural)]
pub enum ShardRole {
    Replicated,
    TpOutputShard { group_size: u32, group_index: u32 },
    ExpertOwned { expert_idx: u32 },
    ExpertElsewhere { expert_idx: u32 },
    NoParams,
}

/// Layout of the KV cache.
#[derive(Debug, Clone, Copy, PartialEq, Eq, Hash, Structural)]
pub enum KVLayout {
    Contiguous,
    /// Paged attention with `page_size` tokens a page.
    Paged { page_size: u32 },
}

/// KV cache configuration; `kv_sharded` distributes the cache across the TP group.
#[derive(Debug, Clone, Copy, PartialEq, Eq, Hash, Structural)]
pub struct KVCacheSpec {
    pub layout: KVLayout,
    pub kv_sharded: bool,
}

/// Batching strategy: the largest in-flight batch and, where prefill is chunked, the
/// chunk size in tokens.
#[derive(Debug, Clone, Copy, PartialEq, Eq, Hash, Structural)]
pub enum BatchPolicy {
    Static { max_batch: u32 },
    Continuous { max_batch: u32 },
    ContinuousChunked { max_batch: u32, chunk_tokens: u32 },
}

impl BatchPolicy {
    pub open spec fn batch_limit(self) -> u32 {
        match self {
            BatchPolicy::Static { max_batch } => max_batch,
            BatchPolicy::Continuous { max_batch } => max_batch,
            BatchPolicy::ContinuousChunked { max_batch, chunk_tokens } => max_batch,
        }
    }

    /// The largest in-flight batch.
    pub fn max_batch(self) -> (res: u32)
        ensures
            res == self.batch_limit(),
    {
        match self {
            BatchPolicy::Static { max_batch } => max_batch,
            BatchPolicy::Continuous { max_batch } => max_batch,
            BatchPolicy::ContinuousChunked { max_batch, chunk_tokens: _ } => max_batch,
        }
    }
}

/// A batch size and KV-length bucket to capture at warmup.
#[derive(Debug, Clone, Copy, PartialEq, Eq, Hash, Structural)]
pub struct CaptureClass {
    pub batch_size: u32,
    pub kv_class: u32,
}

#[derive(Debug, Clone, PartialEq, Eq, Hash)]
pub struct CudaGraphsConfig {
    pub enable: bool,
    pub capture_classes: Vec<CaptureClass>,
}

#[derive(Debug, Clone, PartialEq, Eq, Hash)]
pub struct DraftSpec {
    /// Directory of the draft model's weights.
    pub model_path: String,
    pub speculation_depth: u32,
}

#[derive(Debug, Clone, PartialEq, Eq, Hash)]
pub struct SpecDecodeConfig {
    pub enable: bool,
    pub draft: Option<DraftSpec>,
}

#[derive(Debug, Clone, Copy, PartialEq, Eq, Hash, Structural)]
pub enum RadixReusePolicy {
    LruByLastAccess,
    LfuByHits,
}

#[derive(Debug, Clone, Copy, PartialEq, Eq, Hash, Structural)]
pub struct PrefixCacheConfig {
    pub enable: bool,
    pub reuse_policy: RadixReusePolicy,
}

#[derive(Debug, Clone, PartialEq, Eq, Hash)]
pub struct ExecutionConfig {
    pub cuda_graphs: CudaGraphsConfig,
    pub spec_decode: SpecDecodeConfig,
    pub prefix_cache: PrefixCacheConfig,
}

/// The dtypes' widths are what their names say: a byte for the eight-bit ones, half of it for
/// four bits, and two bytes for the sixteen-bit floats.
pub proof fn widths_follow_the_names()
    ensures
        Dtype::Int8.width() == 8,
        2 * Dtype::Int4.width() == Dtype::Int8.width(),
        Dtype::Fp8E4m3.width() == Dtype::Int8.width(),
        Dtype::Fp8E5m2.width() == Dtype::Int8.width(),
        Dtype::Bf16.width() == 2 * Dtype::Int8.width(),
        Dtype::Fp16.width() == Dtype::Bf16.width(),
{
}

/// A policy's limit is the batch that it was given, whether or not it chunks prefill.
pub proof fn the_batch_limit_is_the_policys_own(max_batch: u32, chunk_tokens: u32)
    ensures
        (BatchPolicy::Static { max_batch }).batch_limit() == max_batch,
        (BatchPolicy::Continuous { max_batch }).batch_limit() == max_batch,
        (BatchPolicy::ContinuousChunked { max_batch, chunk_tokens }).batch_limit() == max_batch,
{
}

/// The elements of a shape multiply up: one dimension has as many as its un-sharded extent,
/// and a shape put together of two has the product of theirs.
pub proof fn elements_multiply_up(a: Seq<Dim>, b: Seq<Dim>, v: usize)
    ensures
        product(seq![Dim::Fixed(v)]) == v,
        product(seq![Dim::Tp(v)]) == v,
        product(seq![Dim::Ep(v)]) == v,
        product(a + b) == product(a) * product(b),
        !is_static(a.push(Dim::Batch)),
        !is_static(a.push(Dim::SeqLen)),
        !is_static(a.push(Dim::KvLen)),
    decreases b.len(),
{
    one_dimension(Dim::Fixed(v));
    one_dimension(Dim::Tp(v));
    one_dimension(Dim::Ep(v));
    assert(a.push(Dim::Batch)[a.len() as int].extent() is None);
    assert(a.push(Dim::SeqLen)[a.len() as int].extent() is None);
    assert(a.push(Dim::KvLen)[a.len() as int].extent() is None);
    if b.len() == 0 {
        assert(a + b =~= a);
        assert(product(a) * 1 == product(a));
    } else {
        elements_multiply_up(a, b.drop_last(), v);
        assert((a + b).drop_last() =~= a + b.drop_last());
        let x = product(a);
        let y = product(b.drop_last());
        let z = b.last().extent()->0;
        assert((x * y) * z == x * (y * z)) by (nonlinear_arith);
    }
}

proof fn one_dimension(d: Dim)
    requires
        d.extent() is Some,
    ensures
        product(seq![d]) == d.extent()->0,
{
    let one = seq![d];
    assert(one.drop_last().len() == 0);
    assert(product(one.drop_last()) == 1);
    assert(one.last() == d);
    assert(1 * d.extent()->0 == d.extent()->0);
}

/// A shape has a number of elements exactly when every dimension is known, and it is their
/// product, capped at the largest number.
pub proof fn static_shapes_have_elements(s: &Shape, n: Option<u64>)
    requires
        call_ensures(Shape::static_numel, (s,), n),
    ensures
        n is Some <==> is_static(s@),
        n is Some && product(s@) <= u64::MAX ==> n->0 == product(s@),
        n is Some && product(s@) > u64::MAX ==> n->0 == u64::MAX,
{
}

} // verus!
