//! Handoff tensors: how they are named, classified and held.

use vstd::prelude::*;

use crate::ir::types::Dtype;
use crate::runtime::collective_kind::CollectiveKind;
use crate::runtime::distributed::world::CollectiveError;
use crate::text::{chars_of, digits_value, parse_digits, same};

verus! {

/// Errors of one rank's walk of the schedule.
#[derive(Debug, Clone, PartialEq, Eq)]
pub enum RankExecError {
    /// A local segment failed.
    Segment { segment_idx: usize, detail: String },
    /// A handoff tensor is not present on this rank.
    UnknownTensor(String),
    /// A collective failed.
    Collective(CollectiveError),
    /// The collective has no place in a rank's walk.
    UnsupportedCollective { kind: CollectiveKind },
}

/// A segment of that index does not exist, or failed, with this explanation.
pub open spec fn segment_error(e: RankExecError, idx: usize, why: Seq<char>) -> bool {
    e matches RankExecError::Segment { segment_idx, detail } && segment_idx == idx && detail@ == why
}

/// A tensor that is described by this text is not present.
pub open spec fn unknown_tensor(e: RankExecError, what: Seq<char>) -> bool {
    e matches RankExecError::UnknownTensor(s) && s@ == what
}

/// A step of the schedule as the artifact has it, with tensors by name.
#[derive(Debug, Clone)]
pub enum SequenceStep {
    ExecuteSegment { device_idx: u32, segment_idx: usize },
    Collective {
        collective: CollectiveKind,
        participants: Vec<u32>,
        tensor: String,
        shape: Vec<usize>,
        dtype: Dtype,
    },
    MoeRoute {
        device_idx: u32,
        block: usize,
        ffn_segment_idx: usize,
        router_tensor: String,
        top_k: usize,
        expert_weight_names: Vec<[String; 3]>,
        slot_weight_names: Vec<[String; 3]>,
        slot_gate_names: Vec<String>,
    },
}

/// Which half of a KV cache a tensor belongs to.
#[derive(Debug, Clone, Copy, PartialEq, Eq, Hash, Structural)]
pub enum KvKind {
    Key,
    Value,
}

/// Element dtype of a device-resident handoff.
#[derive(Debug, Clone, Copy, PartialEq, Eq, Structural)]
pub enum HandoffDtype {
    Bf16,
}

/// A device-resident tensor: the output buffer of the segment that produced it.
#[derive(Debug, Clone, Copy, PartialEq, Eq, Structural)]
pub struct DeviceTensorHandle {
    /// Process-local ordinal of the device that owns the buffer.
    pub device: usize,
    pub ptr: u64,
    pub n_bytes: usize,
    /// Element count: two bytes each.
    pub elems: usize,
    pub dtype: HandoffDtype,
}

/// The handle of a bf16 buffer.
pub open spec fn bf16_handle(ptr: u64, n_bytes: usize) -> DeviceTensorHandle {
    DeviceTensorHandle {
        device: 0,
        ptr,
        n_bytes,
        elems: (n_bytes / 2) as usize,
        dtype: HandoffDtype::Bf16,
    }
}

/// The handle of a bf16 buffer on this rank's device.
pub fn handle_of(ptr: u64, n_bytes: usize) -> (res: DeviceTensorHandle)
    ensures
        res == bf16_handle(ptr, n_bytes),
{
    DeviceTensorHandle { device: 0, ptr, n_bytes, elems: n_bytes / 2, dtype: HandoffDtype::Bf16 }
}

/// How a handoff tensor is fed and captured.
#[derive(Debug, Clone, Copy, PartialEq, Eq, Structural)]
pub enum HandoffKind {
    /// Host-staged scalar or small tensor.
    F32,
    /// Integer input.
    I32,
    /// Device-resident activation, bound and captured by pointer.
    Device,
    /// KV cache of one layer.
    KvCache { kind: KvKind, layer: u16 },
    /// Stays on the host: collective results and router logits.
    HostCollective,
}

/// Whether a text begins with another.
pub open spec fn has_prefix(s: Seq<char>, p: Seq<char>) -> bool {
    s.len() >= p.len() && s.take(p.len() as int) == p
}

/// The half and layer that a KV cache name denotes: `kvcache_k_` or `kvcache_v_` and the
/// layer's number.
pub open spec fn kvcache_name(s: Seq<char>) -> Option<(KvKind, usize)> {
    let layer = digits_value(s.skip(10));
    if s.len() <= 10 || layer is None || layer->0 > usize::MAX {
        None
    } else if has_prefix(s, "kvcache_k_"@) {
        Some((KvKind::Key, layer->0 as usize))
    } else if has_prefix(s, "kvcache_v_"@) {
        Some((KvKind::Value, layer->0 as usize))
    } else {
        None
    }
}

/// Whether a text is among some strings.
pub open spec fn names_contain(names: Seq<String>, s: Seq<char>) -> bool {
    exists|i: int| 0 <= i < names.len() && (#[trigger] names[i])@ == s
}

/// The kind of a tensor by its name, given the names that must stay on the host.
pub open spec fn handoff_kind(name: Seq<char>, host: Seq<String>) -> HandoffKind {
    match kvcache_name(name) {
        Some((kind, layer)) => HandoffKind::KvCache { kind, layer: layer as u16 },
        None => if name == "input_tokens"@ {
            HandoffKind::I32
        } else if names_contain(host, name) || has_prefix(name, "router_logits"@) {
            HandoffKind::HostCollective
        } else if name == "position"@ || has_prefix(name, "moe_gate"@) {
            HandoffKind::F32
        } else {
            HandoffKind::Device
        },
    }
}

/// Whether a text begins with another.
pub fn starts_with(s: &str, p: &str) -> (res: bool)
    ensures
        res == has_prefix(s@, p@),
{
    let a = chars_of(s);
    let b = chars_of(p);
    if a.len() < b.len() {
        return false;
    }
    let mut i: usize = 0;
    while i < b.len()
        invariant
            a@ == s@,
            b@ == p@,
            i <= b@.len() <= a@.len(),
            forall|j: int| 0 <= j < i ==> a@[j] == b@[j],
        decreases b.len() - i,
    {
        if a[i] != b[i] {
            assert(s@.take(p@.len() as int)[i as int] != p@[i as int]);
            return false;
        }
        i += 1;
    }
    assert(s@.take(p@.len() as int) =~= p@);
    true
}

/// Whether a text is among some strings.
pub fn contains_name(names: &Vec<String>, s: &str) -> (res: bool)
    ensures
        res == names_contain(names@, s@),
{
    let mut i: usize = 0;
    while i < names.len()
        invariant
            i <= names@.len(),
            forall|j: int| 0 <= j < i ==> (#[trigger] names@[j])@ != s@,
        decreases names.len() - i,
    {
        if same(names[i].as_str(), s) {
            assert(names@[i as int]@ == s@);
            return true;
        }
        i += 1;
    }
    false
}

/// Reads a KV cache name.
pub fn parse_kvcache_name(name: &str) -> (res: Option<(KvKind, usize)>)
    ensures
        res == kvcache_name(name@),
{
    let chars = chars_of(name);
    if chars.len() <= 10 {
        return None;
    }
    let layer: usize = match parse_digits(&chars, 10) {
        Some(n) => n,
        None => {
            return None;
        },
    };
    if starts_with(name, "kvcache_k_") {
        Some((KvKind::Key, layer))
    } else if starts_with(name, "kvcache_v_") {
        Some((KvKind::Value, layer))
    } else {
        None
    }
}

/// Classifies a handoff tensor by its name.
pub fn classify_handoff(name: &str, host_tensors: &Vec<String>) -> (res: HandoffKind)
    ensures
        res == handoff_kind(name@, host_tensors@),
{
    if let Some((kind, layer)) = parse_kvcache_name(name) {
        HandoffKind::KvCache {
            kind,
            layer: (#[verifier::truncate]
            (layer as u16)),
        }
    } else if same(name, "input_tokens") {
        HandoffKind::I32
    } else if contains_name(host_tensors, name) || starts_with(name, "router_logits") {
        HandoffKind::HostCollective
    } else if same(name, "position") || starts_with(name, "moe_gate") {
        HandoffKind::F32
    } else {
        HandoffKind::Device
    }
}

/// Where a tensor lives follows from its name: a KV cache name is one of the cache, the input
/// tokens are integers, a tensor that must stay on the host is handed over there, and of the
/// rest only the position and gate values are scalars from the host. Naming a tensor as
/// one of the host changes no other.
pub proof fn tensors_live_where_their_names_say(
    name: &str,
    host: &Vec<String>,
    more: &Vec<String>,
    kind: HandoffKind,
    other: HandoffKind,
)
    requires
        call_ensures(classify_handoff, (name, host), kind),
        call_ensures(classify_handoff, (name, more), other),
    ensures
        kind is KvCache <==> kvcache_name(name@) is Some,
        kind matches HandoffKind::KvCache { kind: half, layer } ==> Some(half) == Some(
            (kvcache_name(name@)->0).0,
        ) && ((kvcache_name(name@)->0).1 <= u16::MAX ==> layer == (kvcache_name(name@)->0).1),
        kind is I32 ==> name@ == "input_tokens"@,
        names_contain(host@, name@) ==> kind is HostCollective || kind is KvCache || kind is I32,
        kind is Device ==> !names_contain(host@, name@) && name@ != "position"@ && !has_prefix(
            name@,
            "moe_gate"@,
        ) && !has_prefix(name@, "router_logits"@),
        kind is F32 ==> name@ == "position"@ || has_prefix(name@, "moe_gate"@),
        names_contain(host@, name@) == names_contain(more@, name@) ==> kind == other,
{
}

/// A bf16 buffer has as many elements as it has pairs of bytes.
pub proof fn bf16_elements_are_two_bytes(ptr: u64, n_bytes: usize, h: DeviceTensorHandle)
    requires
        call_ensures(handle_of, (ptr, n_bytes), h),
    ensures
        h.ptr == ptr,
        h.n_bytes == n_bytes,
        2 * h.elems <= n_bytes < 2 * h.elems + 2,
{
}

} // verus!
