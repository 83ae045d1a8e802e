//! The canonical JSON text of a plan: object keys sorted, no white space.
//!
//! An encoding is given together with the text that follows it, `tail`. How a
//! floating-point number is written is the caller's; `text` stands for it.

use vstd::prelude::*;

use crate::ieee::Ieee32;
use crate::ir::graph::ModelMeta;
use crate::ir::plan::{KvTransferMode, ParallelismPlacement, PerLayerDtype, Plan, TransferTopology};
use crate::ir::types::{
    BatchPolicy, CaptureClass, DraftSpec, Dtype, ExecutionConfig, KVCacheSpec, KVLayout,
    RadixReusePolicy,
};
use crate::text::{chars_of, decimal, push_decimal};

verus! {

/// A number.
pub open spec fn num(n: nat, tail: Seq<char>) -> Seq<char> {
    decimal(n) + tail
}

/// A truth value.
pub open spec fn boolean(b: bool, tail: Seq<char>) -> Seq<char> {
    if b {
        "true"@ + tail
    } else {
        "false"@ + tail
    }
}

/// A number that may be absent.
pub open spec fn opt_num(o: Option<usize>, tail: Seq<char>) -> Seq<char> {
    match o {
        Some(n) => num(n as nat, tail),
        None => "null"@ + tail,
    }
}

/// The hexadecimal digit of a number below sixteen.
pub open spec fn hex_char(d: int) -> char {
    "0123456789abcdef"@[d]
}

/// How a character is written inside a JSON string.
pub open spec fn escape(c: char) -> Seq<char> {
    if c == '"' {
        seq!['\\', '"']
    } else if c == '\\' {
        seq!['\\', '\\']
    } else if c == '\n' {
        seq!['\\', 'n']
    } else if c == '\r' {
        seq!['\\', 'r']
    } else if c == '\t' {
        seq!['\\', 't']
    } else if c as u32 == 8 {
        seq!['\\', 'b']
    } else if c as u32 == 12 {
        seq!['\\', 'f']
    } else if (c as u32) < 32 {
        seq!['\\', 'u', '0', '0', hex_char(c as u32 as int / 16), hex_char(c as u32 as int % 16)]
    } else {
        seq![c]
    }
}

/// The characters of a JSON string.
pub open spec fn escaped(s: Seq<char>, tail: Seq<char>) -> Seq<char>
    decreases s.len(),
{
    if s.len() == 0 {
        tail
    } else {
        escape(s[0]) + escaped(s.drop_first(), tail)
    }
}

/// A JSON string.
pub open spec fn quoted(s: Seq<char>, tail: Seq<char>) -> Seq<char> {
    "\""@ + escaped(s, "\""@ + tail)
}

pub open spec fn dtype_json(d: Dtype, tail: Seq<char>) -> Seq<char> {
    match d {
        Dtype::Bf16 => "\"bf16\""@ + tail,
        Dtype::Fp16 => "\"fp16\""@ + tail,
        Dtype::Fp8E4m3 => "\"fp8_e4m3\""@ + tail,
        Dtype::Fp8E5m2 => "\"fp8_e5m2\""@ + tail,
        Dtype::Int8 => "\"int8\""@ + tail,
        Dtype::Int4 => "\"int4\""@ + tail,
    }
}

#[verifier::opaque]
pub open spec fn placement_json(p: ParallelismPlacement, tail: Seq<char>) -> Seq<char> {
    "{\"ep\":"@ + num(
        p.ep as nat,
        ",\"pp\":"@ + num(p.pp as nat, ",\"tp\":"@ + num(p.tp as nat, "}"@ + tail)),
    )
}

pub open spec fn layout_json(l: KVLayout, tail: Seq<char>) -> Seq<char> {
    match l {
        KVLayout::Contiguous => "{\"kind\":\"contiguous\"}"@ + tail,
        KVLayout::Paged { page_size } => "{\"kind\":\"paged\",\"page_size\":"@ + num(
            page_size as nat,
            "}"@ + tail,
        ),
    }
}

#[verifier::opaque]
pub open spec fn kv_json(k: KVCacheSpec, tail: Seq<char>) -> Seq<char> {
    "{\"kv_sharded\":"@ + boolean(
        k.kv_sharded,
        ",\"layout\":"@ + layout_json(k.layout, "}"@ + tail),
    )
}

#[verifier::opaque]
pub open spec fn policy_json(p: BatchPolicy, tail: Seq<char>) -> Seq<char> {
    match p {
        BatchPolicy::Static { max_batch } => "{\"kind\":\"static\",\"max_batch\":"@ + num(
            max_batch as nat,
            "}"@ + tail,
        ),
        BatchPolicy::Continuous { max_batch } => "{\"kind\":\"continuous\",\"max_batch\":"@ + num(
            max_batch as nat,
            "}"@ + tail,
        ),
        BatchPolicy::ContinuousChunked { max_batch, chunk_tokens } => "{\"chunk_tokens\":"@ + num(
            chunk_tokens as nat,
            ",\"kind\":\"continuous_chunked\",\"max_batch\":"@ + num(max_batch as nat, "}"@ + tail),
        ),
    }
}

pub open spec fn layer_json(l: PerLayerDtype, tail: Seq<char>) -> Seq<char> {
    "{\"activation\":"@ + dtype_json(
        l.activation,
        ",\"kv_cache\":"@ + dtype_json(
            l.kv_cache,
            ",\"weight\":"@ + dtype_json(l.weight, "}"@ + tail),
        ),
    )
}

/// The layers that follow the first of a list, and the end of the list.
pub open spec fn more_layers(v: Seq<PerLayerDtype>, tail: Seq<char>) -> Seq<char>
    decreases v.len(),
{
    if v.len() == 0 {
        "]"@ + tail
    } else {
        ","@ + layer_json(v[0], more_layers(v.drop_first(), tail))
    }
}

/// The dtype map.
#[verifier::opaque]
pub open spec fn dtypes_json(v: Seq<PerLayerDtype>, tail: Seq<char>) -> Seq<char> {
    if v.len() == 0 {
        "{\"per_layer\":[]"@ + ("}"@ + tail)
    } else {
        "{\"per_layer\":["@ + layer_json(v[0], more_layers(v.drop_first(), "}"@ + tail))
    }
}

pub open spec fn class_json(c: CaptureClass, tail: Seq<char>) -> Seq<char> {
    "{\"batch_size\":"@ + num(
        c.batch_size as nat,
        ",\"kv_class\":"@ + num(c.kv_class as nat, "}"@ + tail),
    )
}

/// The capture classes that follow the first of a list, and the end of the list.
pub open spec fn more_classes(v: Seq<CaptureClass>, tail: Seq<char>) -> Seq<char>
    decreases v.len(),
{
    if v.len() == 0 {
        "]"@ + tail
    } else {
        ","@ + class_json(v[0], more_classes(v.drop_first(), tail))
    }
}

pub open spec fn classes_json(v: Seq<CaptureClass>, tail: Seq<char>) -> Seq<char> {
    if v.len() == 0 {
        "[]"@ + tail
    } else {
        "["@ + class_json(v[0], more_classes(v.drop_first(), tail))
    }
}

pub open spec fn draft_json(d: Option<DraftSpec>, tail: Seq<char>) -> Seq<char> {
    match d {
        None => "null"@ + tail,
        Some(s) => "{\"model_path\":"@ + quoted(
            s.model_path@,
            ",\"speculation_depth\":"@ + num(s.speculation_depth as nat, "}"@ + tail),
        ),
    }
}

pub open spec fn reuse_json(r: RadixReusePolicy, tail: Seq<char>) -> Seq<char> {
    match r {
        RadixReusePolicy::LruByLastAccess => "\"lru_by_last_access\""@ + tail,
        RadixReusePolicy::LfuByHits => "\"lfu_by_hits\""@ + tail,
    }
}

#[verifier::opaque]
pub open spec fn execution_json(e: ExecutionConfig, tail: Seq<char>) -> Seq<char> {
    "{\"cuda_graphs\":{\"capture_classes\":"@ + classes_json(
        e.cuda_graphs.capture_classes@,
        ",\"enable\":"@ + boolean(
            e.cuda_graphs.enable,
            "},\"prefix_cache\":{\"enable\":"@ + boolean(
                e.prefix_cache.enable,
                ",\"reuse_policy\":"@ + reuse_json(
                    e.prefix_cache.reuse_policy,
                    "},\"spec_decode\":{\"draft\":"@ + draft_json(
                        e.spec_decode.draft,
                        ",\"enable\":"@ + boolean(e.spec_decode.enable, "}}"@ + tail),
                    ),
                ),
            ),
        ),
    )
}

/// The second half of the model metadata.
#[verifier::opaque]
pub open spec fn meta_end(m: ModelMeta, text: spec_fn(Ieee32) -> Seq<char>, tail: Seq<char>) -> Seq<
    char,
> {
    ",\"num_layers\":"@ + num(
        m.num_layers as nat,
        ",\"rms_norm_eps\":"@ + (text(m.rms_norm_eps) + (",\"rope_theta\":"@ + (text(m.rope_theta)
            + (",\"sliding_window\":"@ + opt_num(
            m.sliding_window,
            ",\"tied_embeddings\":"@ + boolean(
                m.tied_embeddings,
                ",\"top_k\":"@ + opt_num(
                    m.top_k,
                    ",\"vocab\":"@ + num(m.vocab as nat, "}"@ + tail),
                ),
            ),
        ))))),
    )
}

#[verifier::opaque]
pub open spec fn meta_json(m: ModelMeta, text: spec_fn(Ieee32) -> Seq<char>, tail: Seq<char>) -> Seq<
    char,
> {
    "{\"architecture\":"@ + quoted(
        m.architecture@,
        ",\"head_dim\":"@ + num(
            m.head_dim as nat,
            ",\"hidden\":"@ + num(
                m.hidden as nat,
                ",\"intermediate\":"@ + num(
                    m.intermediate as nat,
                    ",\"max_position\":"@ + num(
                        m.max_position as nat,
                        ",\"num_attention_heads\":"@ + num(
                            m.num_attention_heads as nat,
                            ",\"num_experts\":"@ + opt_num(
                                m.num_experts,
                                ",\"num_kv_heads\":"@ + num(
                                    m.num_kv_heads as nat,
                                    meta_end(m, text, tail),
                                ),
                            ),
                        ),
                    ),
                ),
            ),
        ),
    )
}

#[verifier::opaque]
pub open spec fn transfer_json(t: TransferTopology, tail: Seq<char>) -> Seq<char> {
    "{\"layer_overlap\":"@ + boolean(
        t.layer_overlap,
        match t.mode {
            KvTransferMode::RdmaWrite => ",\"mode\":\"rdma_write\"}"@ + tail,
            KvTransferMode::NcclByLayer => ",\"mode\":\"nccl_by_layer\"}"@ + tail,
        },
    )
}

/// The part of a plan's text that follows its pools.
#[verifier::opaque]
pub open spec fn plan_end(p: Plan, text: spec_fn(Ieee32) -> Seq<char>, tail: Seq<char>) -> Seq<char> {
    ",\"dtype_map\":"@ + dtypes_json(
        p.dtype_map.per_layer@,
        ",\"execution\":"@ + execution_json(
            p.execution,
            ",\"kv\":"@ + kv_json(
                p.kv,
                ",\"model_meta\":"@ + meta_json(
                    p.model_meta,
                    text,
                    ",\"parallelism\":"@ + placement_json(p.parallelism, "}"@ + tail),
                ),
            ),
        ),
    )
}

/// The canonical text of a plan.
pub open spec fn plan_json(p: Plan, text: spec_fn(Ieee32) -> Seq<char>, tail: Seq<char>) -> Seq<char>
    decreases p,
{
    let rest = plan_end(p, text, tail);
    "{\"batching\":"@ + policy_json(
        p.batching,
        match p.disaggregation {
            None => ",\"disaggregation\":null"@ + rest,
            Some(d) => ",\"disaggregation\":{\"decode\":"@ + plan_json(
                *d.decode,
                text,
                ",\"prefill\":"@ + plan_json(
                    *d.prefill,
                    text,
                    ",\"transfer\":"@ + transfer_json(d.transfer, "}"@ + rest),
                ),
            ),
        },
    )
}

/// Whether a formatter writes every number as `text` says.
pub open spec fn writes_as<F: Fn(Ieee32) -> String>(f: F, text: spec_fn(Ieee32) -> Seq<char>) -> bool {
    forall|x: Ieee32, s: String| #[trigger] call_ensures(f, (x,), s) ==> s@ == text(x)
}

fn put(out: &mut String, s: &str)
    ensures
        final(out)@ == old(out)@ + s@,
        forall|tail: Seq<char>| final(out)@ + tail == old(out)@ + #[trigger] (s@ + tail),
{
    out.append(s);
    assert forall|tail: Seq<char>| out@ + tail == old(out)@ + #[trigger] (s@ + tail) by {
        assert((old(out)@ + s@) + tail =~= old(out)@ + (s@ + tail));
    }
}

fn put_num(out: &mut String, n: u64)
    ensures
        forall|tail: Seq<char>| final(out)@ + tail == old(out)@ + #[trigger] num(n as nat, tail),
{
    push_decimal(out, n);
    assert forall|tail: Seq<char>| out@ + tail == old(out)@ + #[trigger] num(n as nat, tail) by {
        assert((old(out)@ + decimal(n as nat)) + tail =~= old(out)@ + (decimal(n as nat) + tail));
    }
}

fn put_boolean(out: &mut String, b: bool)
    ensures
        forall|tail: Seq<char>| final(out)@ + tail == old(out)@ + #[trigger] boolean(b, tail),
{
    if b {
        put(out, "true");
    } else {
        put(out, "false");
    }
}

fn put_opt_num(out: &mut String, o: Option<usize>)
    ensures
        forall|tail: Seq<char>| final(out)@ + tail == old(out)@ + #[trigger] opt_num(o, tail),
{
    match o {
        Some(n) => {
            put_num(out, n as u64);
        },
        None => {
            put(out, "null");
        },
    }
}

fn put_escape(out: &mut String, c: char)
    ensures
        final(out)@ == old(out)@ + escape(c),
{
    let n: u32 = c as u32;
    if c == '"' {
        out.push('\\');
        out.push('"');
    } else if c == '\\' {
        out.push('\\');
        out.push('\\');
    } else if c == '\n' {
        out.push('\\');
        out.push('n');
    } else if c == '\r' {
        out.push('\\');
        out.push('r');
    } else if c == '\t' {
        out.push('\\');
        out.push('t');
    } else if n == 8 {
        out.push('\\');
        out.push('b');
    } else if n == 12 {
        out.push('\\');
        out.push('f');
    } else if n < 32 {
        proof {
            reveal_strlit("0123456789abcdef");
        }
        out.push('\\');
        out.push('u');
        out.push('0');
        out.push('0');
        out.push("0123456789abcdef".get_char((n / 16) as usize));
        out.push("0123456789abcdef".get_char((n % 16) as usize));
    } else {
        out.push(c);
    }
    assert(out@ =~= old(out)@ + escape(c));
}

fn put_quoted(out: &mut String, s: &str)
    ensures
        forall|tail: Seq<char>| final(out)@ + tail == old(out)@ + #[trigger] quoted(s@, tail),
{
    put(out, "\"");
    let ghost start = out@;
    let chars = chars_of(s);
    let mut i: usize = 0;
    assert(s@.skip(0) =~= s@);
    while i < chars.len()
        invariant
            i <= chars@.len(),
            chars@ == s@,
            forall|tail: Seq<char>|
                out@ + escaped(s@.skip(i as int), tail) == start + #[trigger] escaped(s@, tail),
        decreases chars.len() - i,
    {
        let ghost before = out@;
        put_escape(out, chars[i]);
        assert forall|tail: Seq<char>|
            out@ + escaped(s@.skip(i + 1), tail) == start + #[trigger] escaped(s@, tail) by {
            let rest = s@.skip(i as int);
            assert(rest.drop_first() =~= s@.skip(i + 1));
            let e = escape(rest[0]);
            let more = escaped(s@.skip(i + 1), tail);
            assert(escaped(rest, tail) == e + more);
            assert((before + e) + more =~= before + (e + more));
        }
        i += 1;
    }
    assert(s@.skip(i as int) =~= seq![]);
    let ghost middle = out@;
    put(out, "\"");
    assert forall|tail: Seq<char>| out@ + tail == old(out)@ + #[trigger] quoted(s@, tail) by {
        let end = "\""@ + tail;
        assert(escaped(s@.skip(i as int), end) == end);
        assert(middle + end == start + escaped(s@, end));
        assert(start + escaped(s@, end) == old(out)@ + ("\""@ + escaped(s@, end)));
    }
}

fn put_dtype(out: &mut String, d: Dtype)
    ensures
        forall|tail: Seq<char>| final(out)@ + tail == old(out)@ + #[trigger] dtype_json(d, tail),
{
    match d {
        Dtype::Bf16 => put(out, "\"bf16\""),
        Dtype::Fp16 => put(out, "\"fp16\""),
        Dtype::Fp8E4m3 => put(out, "\"fp8_e4m3\""),
        Dtype::Fp8E5m2 => put(out, "\"fp8_e5m2\""),
        Dtype::Int8 => put(out, "\"int8\""),
        Dtype::Int4 => put(out, "\"int4\""),
    }
}

fn put_placement(out: &mut String, p: &ParallelismPlacement)
    ensures
        forall|tail: Seq<char>| final(out)@ + tail == old(out)@ + #[trigger] placement_json(*p, tail),
{
    proof {
        reveal(placement_json);
    }
    put(out, "{\"ep\":");
    put_num(out, p.ep as u64);
    put(out, ",\"pp\":");
    put_num(out, p.pp as u64);
    put(out, ",\"tp\":");
    put_num(out, p.tp as u64);
    put(out, "}");
}

fn put_kv(out: &mut String, k: &KVCacheSpec)
    ensures
        forall|tail: Seq<char>| final(out)@ + tail == old(out)@ + #[trigger] kv_json(*k, tail),
{
    proof {
        reveal(kv_json);
    }
    put(out, "{\"kv_sharded\":");
    put_boolean(out, k.kv_sharded);
    put(out, ",\"layout\":");
    match k.layout {
        KVLayout::Contiguous => {
            put(out, "{\"kind\":\"contiguous\"}");
        },
        KVLayout::Paged { page_size } => {
            put(out, "{\"kind\":\"paged\",\"page_size\":");
            put_num(out, page_size as u64);
            put(out, "}");
        },
    }
    put(out, "}");
}

fn put_policy(out: &mut String, p: &BatchPolicy)
    ensures
        forall|tail: Seq<char>| final(out)@ + tail == old(out)@ + #[trigger] policy_json(*p, tail),
{
    proof {
        reveal(policy_json);
    }
    match *p {
        BatchPolicy::Static { max_batch } => {
            put(out, "{\"kind\":\"static\",\"max_batch\":");
            put_num(out, max_batch as u64);
            put(out, "}");
        },
        BatchPolicy::Continuous { max_batch } => {
            put(out, "{\"kind\":\"continuous\",\"max_batch\":");
            put_num(out, max_batch as u64);
            put(out, "}");
        },
        BatchPolicy::ContinuousChunked { max_batch, chunk_tokens } => {
            put(out, "{\"chunk_tokens\":");
            put_num(out, chunk_tokens as u64);
            put(out, ",\"kind\":\"continuous_chunked\",\"max_batch\":");
            put_num(out, max_batch as u64);
            put(out, "}");
        },
    }
}

fn put_layer(out: &mut String, l: &PerLayerDtype)
    ensures
        forall|tail: Seq<char>| final(out)@ + tail == old(out)@ + #[trigger] layer_json(*l, tail),
{
    put(out, "{\"activation\":");
    put_dtype(out, l.activation);
    put(out, ",\"kv_cache\":");
    put_dtype(out, l.kv_cache);
    put(out, ",\"weight\":");
    put_dtype(out, l.weight);
    put(out, "}");
}

fn put_dtypes(out: &mut String, v: &Vec<PerLayerDtype>)
    ensures
        forall|tail: Seq<char>| final(out)@ + tail == old(out)@ + #[trigger] dtypes_json(v@, tail),
{
    proof {
        reveal(dtypes_json);
    }
    if v.len() == 0 {
        put(out, "{\"per_layer\":[]");
        put(out, "}");
        return;
    }
    put(out, "{\"per_layer\":[");
    put_layer(out, &v[0]);
    let ghost start = out@;
    let ghost all = v@.drop_first();
    let mut i: usize = 1;
    assert(all.skip(0) =~= all);
    while i < v.len()
        invariant
            1 <= i <= v@.len(),
            all == v@.drop_first(),
            forall|tail: Seq<char>|
                out@ + more_layers(all.skip(i - 1), tail) == start + #[trigger] more_layers(
                    all,
                    tail,
                ),
        decreases v.len() - i,
    {
        let ghost before = out@;
        put(out, ",");
        put_layer(out, &v[i]);
        assert forall|tail: Seq<char>|
            out@ + more_layers(all.skip(i as int), tail) == start + #[trigger] more_layers(
                all,
                tail,
            ) by {
            let rest = all.skip(i - 1);
            assert(rest[0] == v@[i as int]);
            assert(rest.drop_first() =~= all.skip(i as int));
            let next = more_layers(all.skip(i as int), tail);
            assert(more_layers(rest, tail) == ","@ + layer_json(v@[i as int], next));
            assert(before + more_layers(rest, tail) == start + more_layers(all, tail));
        }
        i += 1;
    }
    assert(all.skip(i - 1) =~= seq![]);
    let ghost middle = out@;
    put(out, "]");
    let ghost closed = out@;
    put(out, "}");
    assert forall|tail: Seq<char>| out@ + tail == old(out)@ + #[trigger] dtypes_json(v@, tail) by {
        let end = "}"@ + tail;
        assert(closed + end == out@ + tail);
        assert(more_layers(all.skip(i - 1), end) == "]"@ + end);
        assert(middle + ("]"@ + end) == closed + end);
        assert(middle + more_layers(all.skip(i - 1), end) == start + more_layers(all, end));
        assert(start + more_layers(all, end) == old(out)@ + ("{\"per_layer\":["@ + layer_json(
            v@[0],
            more_layers(all, end),
        )));
    }
}

fn put_class(out: &mut String, c: &CaptureClass)
    ensures
        forall|tail: Seq<char>| final(out)@ + tail == old(out)@ + #[trigger] class_json(*c, tail),
{
    put(out, "{\"batch_size\":");
    put_num(out, c.batch_size as u64);
    put(out, ",\"kv_class\":");
    put_num(out, c.kv_class as u64);
    put(out, "}");
}

fn put_classes(out: &mut String, v: &Vec<CaptureClass>)
    ensures
        forall|tail: Seq<char>| final(out)@ + tail == old(out)@ + #[trigger] classes_json(v@, tail),
{
    if v.len() == 0 {
        put(out, "[]");
        return;
    }
    put(out, "[");
    put_class(out, &v[0]);
    let ghost start = out@;
    let ghost all = v@.drop_first();
    let mut i: usize = 1;
    assert(all.skip(0) =~= all);
    while i < v.len()
        invariant
            1 <= i <= v@.len(),
            all == v@.drop_first(),
            forall|tail: Seq<char>|
                out@ + more_classes(all.skip(i - 1), tail) == start + #[trigger] more_classes(
                    all,
                    tail,
                ),
        decreases v.len() - i,
    {
        let ghost before = out@;
        put(out, ",");
        put_class(out, &v[i]);
        assert forall|tail: Seq<char>|
            out@ + more_classes(all.skip(i as int), tail) == start + #[trigger] more_classes(
                all,
                tail,
            ) by {
            let rest = all.skip(i - 1);
            assert(rest[0] == v@[i as int]);
            assert(rest.drop_first() =~= all.skip(i as int));
            let next = more_classes(all.skip(i as int), tail);
            assert(more_classes(rest, tail) == ","@ + class_json(v@[i as int], next));
            assert(before + more_classes(rest, tail) == start + more_classes(all, tail));
        }
        i += 1;
    }
    assert(all.skip(i - 1) =~= seq![]);
    let ghost middle = out@;
    put(out, "]");
    assert forall|tail: Seq<char>| out@ + tail == old(out)@ + #[trigger] classes_json(v@, tail) by {
        assert(more_classes(all.skip(i - 1), tail) == "]"@ + tail);
        assert(middle + more_classes(all.skip(i - 1), tail) == start + more_classes(all, tail));
        assert(start + more_classes(all, tail) == old(out)@ + ("["@ + class_json(
            v@[0],
            more_classes(all, tail),
        )));
    }
}

fn put_draft(out: &mut String, d: &Option<DraftSpec>)
    ensures
        forall|tail: Seq<char>| final(out)@ + tail == old(out)@ + #[trigger] draft_json(*d, tail),
{
    match d {
        None => {
            put(out, "null");
        },
        Some(s) => {
            put(out, "{\"model_path\":");
            put_quoted(out, s.model_path.as_str());
            put(out, ",\"speculation_depth\":");
            put_num(out, s.speculation_depth as u64);
            put(out, "}");
        },
    }
}

fn put_reuse(out: &mut String, r: RadixReusePolicy)
    ensures
        forall|tail: Seq<char>| final(out)@ + tail == old(out)@ + #[trigger] reuse_json(r, tail),
{
    match r {
        RadixReusePolicy::LruByLastAccess => put(out, "\"lru_by_last_access\""),
        RadixReusePolicy::LfuByHits => put(out, "\"lfu_by_hits\""),
    }
}

fn put_execution(out: &mut String, e: &ExecutionConfig)
    ensures
        forall|tail: Seq<char>| final(out)@ + tail == old(out)@ + #[trigger] execution_json(*e, tail),
{
    proof {
        reveal(execution_json);
    }
    put(out, "{\"cuda_graphs\":{\"capture_classes\":");
    put_classes(out, &e.cuda_graphs.capture_classes);
    put(out, ",\"enable\":");
    put_boolean(out, e.cuda_graphs.enable);
    put(out, "},\"prefix_cache\":{\"enable\":");
    put_boolean(out, e.prefix_cache.enable);
    put(out, ",\"reuse_policy\":");
    put_reuse(out, e.prefix_cache.reuse_policy);
    put(out, "},\"spec_decode\":{\"draft\":");
    put_draft(out, &e.spec_decode.draft);
    put(out, ",\"enable\":");
    put_boolean(out, e.spec_decode.enable);
    put(out, "}}");
}

fn put_float<F: Fn(Ieee32) -> String>(out: &mut String, x: Ieee32, fmt: &F)
    requires
        forall|x: Ieee32| call_requires(*fmt, (x,)),
    ensures
        forall|text: spec_fn(Ieee32) -> Seq<char>, tail: Seq<char>|
            writes_as(*fmt, text) ==> final(out)@ + tail == old(out)@ + #[trigger] (text(x) + tail),
{
    let s = (*fmt)(x);
    put(out, s.as_str());
}

fn put_meta_end<F: Fn(Ieee32) -> String>(out: &mut String, m: &ModelMeta, fmt: &F)
    requires
        forall|x: Ieee32| call_requires(*fmt, (x,)),
    ensures
        forall|text: spec_fn(Ieee32) -> Seq<char>, tail: Seq<char>|
            writes_as(*fmt, text) ==> final(out)@ + tail == old(out)@ + #[trigger] meta_end(
                *m,
                text,
                tail,
            ),
{
    proof {
        reveal(meta_end);
    }
    put(out, ",\"num_layers\":");
    put_num(out, m.num_layers as u64);
    put(out, ",\"rms_norm_eps\":");
    put_float(out, m.rms_norm_eps, fmt);
    put(out, ",\"rope_theta\":");
    put_float(out, m.rope_theta, fmt);
    put(out, ",\"sliding_window\":");
    put_opt_num(out, m.sliding_window);
    put(out, ",\"tied_embeddings\":");
    put_boolean(out, m.tied_embeddings);
    put(out, ",\"top_k\":");
    put_opt_num(out, m.top_k);
    put(out, ",\"vocab\":");
    put_num(out, m.vocab as u64);
    put(out, "}");
}

fn put_meta<F: Fn(Ieee32) -> String>(out: &mut String, m: &ModelMeta, fmt: &F)
    requires
        forall|x: Ieee32| call_requires(*fmt, (x,)),
    ensures
        forall|text: spec_fn(Ieee32) -> Seq<char>, tail: Seq<char>|
            writes_as(*fmt, text) ==> final(out)@ + tail == old(out)@ + #[trigger] meta_json(
                *m,
                text,
                tail,
            ),
{
    proof {
        reveal(meta_json);
    }
    put(out, "{\"architecture\":");
    put_quoted(out, m.architecture.as_str());
    put(out, ",\"head_dim\":");
    put_num(out, m.head_dim as u64);
    put(out, ",\"hidden\":");
    put_num(out, m.hidden as u64);
    put(out, ",\"intermediate\":");
    put_num(out, m.intermediate as u64);
    put(out, ",\"max_position\":");
    put_num(out, m.max_position as u64);
    put(out, ",\"num_attention_heads\":");
    put_num(out, m.num_attention_heads as u64);
    put(out, ",\"num_experts\":");
    put_opt_num(out, m.num_experts);
    put(out, ",\"num_kv_heads\":");
    put_num(out, m.num_kv_heads as u64);
    put_meta_end(out, m, fmt);
}

fn put_transfer(out: &mut String, t: &TransferTopology)
    ensures
        forall|tail: Seq<char>| final(out)@ + tail == old(out)@ + #[trigger] transfer_json(*t, tail),
{
    proof {
        reveal(transfer_json);
    }
    put(out, "{\"layer_overlap\":");
    put_boolean(out, t.layer_overlap);
    match t.mode {
        KvTransferMode::RdmaWrite => put(out, ",\"mode\":\"rdma_write\"}"),
        KvTransferMode::NcclByLayer => put(out, ",\"mode\":\"nccl_by_layer\"}"),
    }
}

fn put_plan_end<F: Fn(Ieee32) -> String>(out: &mut String, p: &Plan, fmt: &F)
    requires
        forall|x: Ieee32| call_requires(*fmt, (x,)),
    ensures
        forall|text: spec_fn(Ieee32) -> Seq<char>, tail: Seq<char>|
            writes_as(*fmt, text) ==> final(out)@ + tail == old(out)@ + #[trigger] plan_end(
                *p,
                text,
                tail,
            ),
{
    proof {
        reveal(plan_end);
    }
    put(out, ",\"dtype_map\":");
    put_dtypes(out, &p.dtype_map.per_layer);
    put(out, ",\"execution\":");
    put_execution(out, &p.execution);
    put(out, ",\"kv\":");
    put_kv(out, &p.kv);
    put(out, ",\"model_meta\":");
    put_meta(out, &p.model_meta, fmt);
    put(out, ",\"parallelism\":");
    put_placement(out, &p.parallelism);
    put(out, "}");
}

fn put_plan<F: Fn(Ieee32) -> String>(out: &mut String, p: &Plan, fmt: &F)
    requires
        forall|x: Ieee32| call_requires(*fmt, (x,)),
    ensures
        forall|text: spec_fn(Ieee32) -> Seq<char>, tail: Seq<char>|
            writes_as(*fmt, text) ==> final(out)@ + tail == old(out)@ + #[trigger] plan_json(
                *p,
                text,
                tail,
            ),
    decreases p,
{
    put(out, "{\"batching\":");
    put_policy(out, &p.batching);
    let ghost opened = out@;
    match &p.disaggregation {
        None => {
            put(out, ",\"disaggregation\":null");
            put_plan_end(out, p, fmt);
            assert forall|text: spec_fn(Ieee32) -> Seq<char>, tail: Seq<char>|
                writes_as(*fmt, text) implies out@ + tail == old(out)@ + #[trigger] plan_json(
                *p,
                text,
                tail,
            ) by {
                let t = ",\"disaggregation\":null"@ + plan_end(*p, text, tail);
                assert(plan_json(*p, text, tail) == "{\"batching\":"@ + policy_json(p.batching, t));
                assert(opened + t == out@ + tail);
            }
        },
        Some(d) => {
            put(out, ",\"disaggregation\":{\"decode\":");
            let ghost a = out@;
            put_plan(out, &d.decode, fmt);
            let ghost b = out@;
            put(out, ",\"prefill\":");
            let ghost c = out@;
            put_plan(out, &d.prefill, fmt);
            let ghost e = out@;
            put(out, ",\"transfer\":");
            put_transfer(out, &d.transfer);
            put(out, "}");
            put_plan_end(out, p, fmt);
            assert forall|text: spec_fn(Ieee32) -> Seq<char>, tail: Seq<char>|
                writes_as(*fmt, text) implies out@ + tail == old(out)@ + #[trigger] plan_json(
                *p,
                text,
                tail,
            ) by {
                let t3 = ",\"transfer\":"@ + transfer_json(
                    d.transfer,
                    "}"@ + plan_end(*p, text, tail),
                );
                let t2 = plan_json(*d.prefill, text, t3);
                let t1 = ",\"prefill\":"@ + t2;
                let t0 = plan_json(*d.decode, text, t1);
                let t = ",\"disaggregation\":{\"decode\":"@ + t0;
                assert(plan_json(*p, text, tail) == "{\"batching\":"@ + policy_json(p.batching, t));
                assert(e + t3 == out@ + tail);
                assert(c + t2 == e + t3);
                assert(b + t1 == c + t2);
                assert(a + t0 == b + t1);
                assert(opened + t == a + t0);
            }
        },
    }
}

/// The canonical JSON text of a plan; `fmt` writes a floating-point number.
pub fn canonical_json<F: Fn(Ieee32) -> String>(plan: &Plan, fmt: &F) -> (res: String)
    requires
        forall|x: Ieee32| call_requires(*fmt, (x,)),
    ensures
        forall|text: spec_fn(Ieee32) -> Seq<char>| #[trigger]
            writes_as(*fmt, text) ==> res@ == plan_json(*plan, text, seq![]),
{
    let mut out = String::new();
    put_plan(&mut out, plan, fmt);
    assert forall|text: spec_fn(Ieee32) -> Seq<char>| #[trigger] writes_as(*fmt, text) implies out@
        == plan_json(*plan, text, seq![]) by {
        let j = plan_json(*plan, text, seq![]);
        assert(out@ + seq![] == Seq::<char>::empty() + j);
        assert(out@ + seq![] =~= out@);
        assert(Seq::<char>::empty() + j =~= j);
    }
    out
}

} // verus!
