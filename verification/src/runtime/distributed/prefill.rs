//! Batched prefill: where the prompt's keys and values go once a whole prompt has been
//! processed in one forward.

use vstd::prelude::*;

use crate::ieee::Ieee32;
use crate::runtime::distributed::handoff::{kvcache_name, KvKind};
use crate::runtime::distributed::segment_plan::KvWrite;
use crate::runtime::tensor::{concatenated, cut, part, parts_make_the_whole};
use crate::text::{decimal, numerals_denote, push_decimal};

verus! {

/// The name of the KV cache tensor of a layer.
pub open spec fn kvcache_text(kind: KvKind, layer: nat) -> Seq<char> {
    match kind {
        KvKind::Key => "kvcache_k_"@ + decimal(layer),
        KvKind::Value => "kvcache_v_"@ + decimal(layer),
    }
}

/// Names the KV cache tensor of a layer.
pub fn kvcache_tensor(kind: KvKind, layer: usize) -> (res: String)
    ensures
        res@ == kvcache_text(kind, layer as nat),
{
    let mut name = match kind {
        KvKind::Key => "kvcache_k_".to_owned(),
        KvKind::Value => "kvcache_v_".to_owned(),
    };
    push_decimal(&mut name, layer as u64);
    name
}

/// The name of a KV cache tensor is read as its half and layer.
pub proof fn kvcache_names_read_back(kind: KvKind, layer: usize)
    ensures
        kvcache_name(kvcache_text(kind, layer as nat)) == Some((kind, layer)),
{
    reveal_strlit("kvcache_k_");
    reveal_strlit("kvcache_v_");
    numerals_denote(layer as nat);
    let name = kvcache_text(kind, layer as nat);
    assert(name.skip(10) =~= decimal(layer as nat));
    match kind {
        KvKind::Key => {
            assert(name.take(10) =~= "kvcache_k_"@);
        },
        KvKind::Value => {
            assert(name.take(10) =~= "kvcache_v_"@);
            assert("kvcache_k_"@[8] == 'k');
            assert(name.take(10)[8] == 'v');
        },
    }
}

/// What the rows of a prefill's keys or values are written as: one per prompt token, in the
/// order of the slots.
pub open spec fn row_writes(
    writes: Seq<KvWrite>,
    kind: KvKind,
    layer: u16,
    kv: Seq<Ieee32>,
    tokens: int,
) -> bool {
    &&& writes.len() == tokens
    &&& forall|slot: int|
        0 <= slot < tokens ==> {
            &&& (#[trigger] writes[slot]).kind == kind
            &&& writes[slot].layer == layer
            &&& writes[slot].slot == slot
            &&& writes[slot].data@ == part(kv, kv.len() as int / tokens, slot)
        }
}

/// The cache writes of a layer's keys or values for a prompt of `tokens` tokens: a row each.
/// A tensor that does not split evenly into rows is not written.
pub fn prefill_writes(kind: KvKind, layer: u16, kv: &Vec<Ieee32>, tokens: usize) -> (res: Vec<
    KvWrite,
>)
    ensures
        if tokens == 0 || kv@.len() as int % tokens as int != 0 {
            res@.len() == 0
        } else {
            row_writes(res@, kind, layer, kv@, tokens as int)
        },
{
    let mut out: Vec<KvWrite> = Vec::new();
    if tokens == 0 || kv.len() % tokens != 0 {
        return out;
    }
    let mut rows = cut(kv, tokens);
    let ghost all = rows@;
    let mut slot: usize = 0;
    while slot < tokens
        invariant
            slot <= tokens,
            rows@.len() == tokens,
            all.len() == tokens,
            forall|k: int| slot <= k < tokens ==> rows@[k] == all[k],
            forall|k: int|
                0 <= k < tokens ==> (#[trigger] all[k])@ == part(
                    kv@,
                    kv@.len() as int / tokens as int,
                    k,
                ),
            out@.len() == slot,
            forall|k: int|
                0 <= k < slot ==> {
                    &&& (#[trigger] out@[k]).kind == kind
                    &&& out@[k].layer == layer
                    &&& out@[k].slot == k
                    &&& out@[k].data@ == part(kv@, kv@.len() as int / tokens as int, k)
                },
        decreases tokens - slot,
    {
        let mut data: Vec<Ieee32> = Vec::new();
        std::mem::swap(&mut data, &mut rows[slot]);
        assert(data@ == all[slot as int]@);
        out.push(KvWrite { kind, layer, slot, data });
        slot += 1;
    }
    out
}

/// Nothing of a layer's keys or values is lost: the rows that are written, one after the
/// other, are the tensor.
pub proof fn rows_make_the_tensor(
    writes: Seq<KvWrite>,
    kind: KvKind,
    layer: u16,
    kv: Seq<Ieee32>,
    tokens: int,
)
    requires
        tokens > 0,
        kv.len() as int % tokens == 0,
        row_writes(writes, kind, layer, kv, tokens),
    ensures
        concatenated(writes.map_values(|w: KvWrite| w.data@)) == kv,
{
    let chunk = kv.len() as int / tokens;
    parts_make_the_whole(kv, tokens, tokens);
    assert(writes.map_values(|w: KvWrite| w.data@) =~= Seq::new(
        tokens as nat,
        |k: int| part(kv, kv.len() as int / tokens, k),
    ));
    assert(tokens * chunk == kv.len()) by (nonlinear_arith)
        requires
            kv.len() as int % tokens == 0,
            chunk == kv.len() as int / tokens,
            tokens > 0,
    ;
    assert(kv.take(tokens * chunk) =~= kv);
}

/// A prompt's keys or values are written token by token: slot `k` of the cache gets row `k` of
/// the tensor, of the half and layer they belong to; a tensor that does not split into rows
/// is not written.
pub proof fn rows_go_to_their_slots(
    kind: KvKind,
    layer: u16,
    kv: &Vec<Ieee32>,
    tokens: usize,
    writes: Vec<KvWrite>,
    k: int,
)
    requires
        call_ensures(prefill_writes, (kind, layer, kv, tokens), writes),
        0 <= k < tokens,
    ensures
        kv@.len() as int % tokens as int != 0 ==> writes@.len() == 0,
        kv@.len() as int % tokens as int == 0 ==> {
            let width = kv@.len() as int / tokens as int;
            &&& writes@.len() == tokens
            &&& writes@[k].kind == kind
            &&& writes@[k].layer == layer
            &&& writes@[k].slot == k
            &&& writes@[k].data@ == kv@.subrange(k * width, (k + 1) * width)
        },
{
}

} // verus!
