//! The canonical text identifies a plan: plans with the same text agree on every axis, and
//! plans that agree have the same text.

use vstd::prelude::*;

use crate::ieee::Ieee32;
use crate::ir::canonical::{
    boolean, class_json, classes_json, draft_json, dtype_json, dtypes_json, escape, escaped,
    execution_json, hex_char, kv_json, layer_json, layout_json, meta_end, meta_json, more_classes,
    more_layers, num, opt_num, placement_json, plan_end, plan_json, policy_json, quoted, reuse_json,
    transfer_json,
};
use crate::ir::graph::ModelMeta;
use crate::ir::plan::{ParallelismPlacement, PerLayerDtype, Plan, TransferTopology};
use crate::ir::types::{
    BatchPolicy, CaptureClass, DraftSpec, Dtype, ExecutionConfig, KVCacheSpec, KVLayout,
    RadixReusePolicy,
};
use crate::text::{decimal, digit};

verus! {

/// Whether two draft models are the same.
pub open spec fn same_draft(a: Option<DraftSpec>, b: Option<DraftSpec>) -> bool {
    match (a, b) {
        (None, None) => true,
        (Some(x), Some(y)) => x.model_path@ == y.model_path@ && x.speculation_depth
            == y.speculation_depth,
        _ => false,
    }
}

/// Whether two execution configs are the same.
pub open spec fn same_execution(a: ExecutionConfig, b: ExecutionConfig) -> bool {
    &&& a.cuda_graphs.enable == b.cuda_graphs.enable
    &&& a.cuda_graphs.capture_classes@ == b.cuda_graphs.capture_classes@
    &&& a.prefix_cache == b.prefix_cache
    &&& a.spec_decode.enable == b.spec_decode.enable
    &&& same_draft(a.spec_decode.draft, b.spec_decode.draft)
}

/// Whether two models are the same, as far as their floating-point numbers are written
/// alike.
pub open spec fn same_meta(a: ModelMeta, b: ModelMeta, text: spec_fn(Ieee32) -> Seq<char>) -> bool {
    &&& a.architecture@ == b.architecture@
    &&& a.num_layers == b.num_layers
    &&& a.hidden == b.hidden
    &&& a.vocab == b.vocab
    &&& a.max_position == b.max_position
    &&& a.num_attention_heads == b.num_attention_heads
    &&& a.num_kv_heads == b.num_kv_heads
    &&& a.head_dim == b.head_dim
    &&& a.num_experts == b.num_experts
    &&& a.top_k == b.top_k
    &&& a.intermediate == b.intermediate
    &&& text(a.rope_theta) == text(b.rope_theta)
    &&& text(a.rms_norm_eps) == text(b.rms_norm_eps)
    &&& a.sliding_window == b.sliding_window
    &&& a.tied_embeddings == b.tied_embeddings
}

/// Whether two plans agree on every axis, those of their pools included.
pub open spec fn same_plan(a: Plan, b: Plan, text: spec_fn(Ieee32) -> Seq<char>) -> bool
    decreases a,
{
    &&& a.parallelism == b.parallelism
    &&& a.kv == b.kv
    &&& a.batching == b.batching
    &&& a.dtype_map.per_layer@ == b.dtype_map.per_layer@
    &&& same_execution(a.execution, b.execution)
    &&& same_meta(a.model_meta, b.model_meta, text)
    &&& match (a.disaggregation, b.disaggregation) {
        (None, None) => true,
        (Some(x), Some(y)) => {
            &&& same_plan(*x.prefill, *y.prefill, text)
            &&& same_plan(*x.decode, *y.decode, text)
            &&& x.transfer == y.transfer
        },
        _ => false,
    }
}

/// Whether floating-point numbers are written without a comma.
pub open spec fn comma_free(text: spec_fn(Ieee32) -> Seq<char>) -> bool {
    forall|x: Ieee32, i: int| 0 <= i < text(x).len() ==> #[trigger] text(x)[i] != ','
}

/// Whether a character is a decimal digit.
pub open spec fn is_digit(c: char) -> bool {
    '0' <= c <= '9'
}

/// Whether a text starts with something other than a digit.
pub open spec fn stops(t: Seq<char>) -> bool {
    t.len() > 0 && !is_digit(t[0])
}

proof fn cancel(l: Seq<char>, x: Seq<char>, y: Seq<char>)
    requires
        l + x == l + y,
    ensures
        x == y,
{
    assert((l + x).skip(l.len() as int) =~= x);
    assert((l + y).skip(l.len() as int) =~= y);
}

proof fn decimal_digits(n: nat)
    ensures
        decimal(n).len() > 0,
        forall|i: int| 0 <= i < decimal(n).len() ==> is_digit(#[trigger] decimal(n)[i]),
    decreases n,
{
    if n >= 10 {
        decimal_digits(n / 10);
        assert forall|i: int| 0 <= i < decimal(n).len() implies is_digit(
            #[trigger] decimal(n)[i],
        ) by {
            if i < decimal(n / 10).len() {
                assert(decimal(n)[i] == decimal(n / 10)[i]);
            }
        }
    }
}

/// Different numbers have different numerals.
pub proof fn decimal_is_injective(m: nat, n: nat)
    requires
        decimal(m) == decimal(n),
    ensures
        m == n,
    decreases m,
{
    decimal_digits(m / 10);
    decimal_digits(n / 10);
    assert(decimal(m).last() == digit(m % 10));
    assert(decimal(n).last() == digit(n % 10));
    if m >= 10 && n >= 10 {
        assert(decimal(m).drop_last() =~= decimal(m / 10));
        assert(decimal(n).drop_last() =~= decimal(n / 10));
        decimal_is_injective(m / 10, n / 10);
    } else if m < 10 && n < 10 {
        assert(decimal(m)[0] == decimal(n)[0]);
    } else if m < 10 {
        assert(decimal(m).len() == 1);
        assert(decimal(n).len() == decimal(n / 10).len() + 1);
    } else {
        assert(decimal(n).len() == 1);
        assert(decimal(m).len() == decimal(m / 10).len() + 1);
    }
}

proof fn num_injective(m: nat, n: nat, t: Seq<char>, u: Seq<char>)
    requires
        num(m, t) == num(n, u),
        stops(t),
        stops(u),
    ensures
        m == n,
        t == u,
{
    let a = decimal(m);
    let b = decimal(n);
    decimal_digits(m);
    decimal_digits(n);
    if a.len() < b.len() {
        assert((a + t)[a.len() as int] == t[0]);
        assert((b + u)[a.len() as int] == b[a.len() as int]);
    } else if b.len() < a.len() {
        assert((b + u)[b.len() as int] == u[0]);
        assert((a + t)[b.len() as int] == a[b.len() as int]);
    }
    assert((a + t).take(a.len() as int) =~= a);
    assert((b + u).take(b.len() as int) =~= b);
    decimal_is_injective(m, n);
    cancel(a, t, u);
}

proof fn boolean_injective(a: bool, b: bool, t: Seq<char>, u: Seq<char>)
    requires
        boolean(a, t) == boolean(b, u),
    ensures
        a == b,
        t == u,
{
    reveal_strlit("true");
    reveal_strlit("false");
    assert(("true"@ + t)[0] == 't');
    assert(("false"@ + u)[0] == 'f');
    assert(("true"@ + u)[0] == 't');
    assert(("false"@ + t)[0] == 'f');
    if a {
        cancel("true"@, t, u);
    } else {
        cancel("false"@, t, u);
    }
}

proof fn opt_num_injective(a: Option<usize>, b: Option<usize>, t: Seq<char>, u: Seq<char>)
    requires
        opt_num(a, t) == opt_num(b, u),
        stops(t),
        stops(u),
    ensures
        a == b,
        t == u,
{
    reveal_strlit("null");
    match (a, b) {
        (Some(m), Some(n)) => {
            num_injective(m as nat, n as nat, t, u);
        },
        (None, None) => {
            cancel("null"@, t, u);
        },
        (Some(m), None) => {
            decimal_digits(m as nat);
            assert(num(m as nat, t)[0] == decimal(m as nat)[0]);
            assert(("null"@ + u)[0] == 'n');
        },
        (None, Some(n)) => {
            decimal_digits(n as nat);
            assert(num(n as nat, u)[0] == decimal(n as nat)[0]);
            assert(("null"@ + t)[0] == 'n');
        },
    }
}

proof fn escape_injective(c: char, d: char, x: Seq<char>, y: Seq<char>)
    requires
        escape(c) + x == escape(d) + y,
    ensures
        c == d,
        x == y,
{
    reveal_strlit("0123456789abcdef");
    let a = escape(c) + x;
    let b = escape(d) + y;
    assert(a[0] == escape(c)[0]);
    assert(b[0] == escape(d)[0]);
    if escape(c).len() > 1 && escape(d).len() > 1 {
        assert(a[1] == escape(c)[1]);
        assert(b[1] == escape(d)[1]);
    }
    if escape(c).len() == 6 && escape(d).len() == 6 {
        assert(a[4] == escape(c)[4]);
        assert(b[4] == escape(d)[4]);
        assert(a[5] == escape(c)[5]);
        assert(b[5] == escape(d)[5]);
        hex_is_injective(c as u32 as int / 16, d as u32 as int / 16);
        hex_is_injective(c as u32 as int % 16, d as u32 as int % 16);
        assert(c as u32 == d as u32);
    }
    assert(c == d);
    cancel(escape(c), x, y);
}

proof fn hex_is_injective(i: int, j: int)
    requires
        0 <= i < 16,
        0 <= j < 16,
        hex_char(i) == hex_char(j),
    ensures
        i == j,
{
    reveal_strlit("0123456789abcdef");
}

proof fn escaped_injective(a: Seq<char>, b: Seq<char>, t: Seq<char>, u: Seq<char>)
    requires
        escaped(a, "\""@ + t) == escaped(b, "\""@ + u),
    ensures
        a == b,
        t == u,
    decreases a.len(),
{
    reveal_strlit("\"");
    let q = "\""@;
    assert(q[0] == '"');
    if a.len() == 0 && b.len() == 0 {
        assert(a =~= b);
        cancel(q, t, u);
    } else if a.len() == 0 {
        assert((q + t)[0] == '"');
        assert((escape(b[0]) + escaped(b.drop_first(), q + u))[0] == escape(b[0])[0]);
    } else if b.len() == 0 {
        assert((q + u)[0] == '"');
        assert((escape(a[0]) + escaped(a.drop_first(), q + t))[0] == escape(a[0])[0]);
    } else {
        let x = escaped(a.drop_first(), q + t);
        let y = escaped(b.drop_first(), q + u);
        escape_injective(a[0], b[0], x, y);
        escaped_injective(a.drop_first(), b.drop_first(), t, u);
        assert(a =~= seq![a[0]] + a.drop_first());
        assert(b =~= seq![b[0]] + b.drop_first());
    }
}

proof fn quoted_injective(a: Seq<char>, b: Seq<char>, t: Seq<char>, u: Seq<char>)
    requires
        quoted(a, t) == quoted(b, u),
    ensures
        a == b,
        t == u,
{
    cancel("\""@, escaped(a, "\""@ + t), escaped(b, "\""@ + u));
    escaped_injective(a, b, t, u);
}

proof fn dtype_injective(a: Dtype, b: Dtype, t: Seq<char>, u: Seq<char>)
    requires
        dtype_json(a, t) == dtype_json(b, u),
    ensures
        a == b,
        t == u,
{
    dtype_marks(a, t);
    dtype_marks(b, u);
    match a {
        Dtype::Bf16 => cancel("\"bf16\""@, t, u),
        Dtype::Fp16 => cancel("\"fp16\""@, t, u),
        Dtype::Fp8E4m3 => cancel("\"fp8_e4m3\""@, t, u),
        Dtype::Fp8E5m2 => cancel("\"fp8_e5m2\""@, t, u),
        Dtype::Int8 => cancel("\"int8\""@, t, u),
        Dtype::Int4 => cancel("\"int4\""@, t, u),
    }
}

/// The characters by which the dtypes' names can be told apart.
proof fn dtype_marks(d: Dtype, t: Seq<char>)
    ensures
        ({
            let s = dtype_json(d, t);
            match d {
                Dtype::Bf16 => s[1] == 'b',
                Dtype::Fp16 => s[1] == 'f' && s[3] == '1',
                Dtype::Fp8E4m3 => s[1] == 'f' && s[3] == '8' && s[6] == '4',
                Dtype::Fp8E5m2 => s[1] == 'f' && s[3] == '8' && s[6] == '5',
                Dtype::Int8 => s[1] == 'i' && s[4] == '8',
                Dtype::Int4 => s[1] == 'i' && s[4] == '4',
            }
        }),
{
    reveal_strlit("\"bf16\"");
    reveal_strlit("\"fp16\"");
    reveal_strlit("\"fp8_e4m3\"");
    reveal_strlit("\"fp8_e5m2\"");
    reveal_strlit("\"int8\"");
    reveal_strlit("\"int4\"");
}

proof fn placement_injective(
    a: ParallelismPlacement,
    b: ParallelismPlacement,
    t: Seq<char>,
    u: Seq<char>,
)
    requires
        placement_json(a, t) == placement_json(b, u),
    ensures
        a == b,
        t == u,
{
    reveal(placement_json);
    reveal_strlit(",\"pp\":");
    reveal_strlit(",\"tp\":");
    reveal_strlit("}");
    let t3 = "}"@ + t;
    let u3 = "}"@ + u;
    let t2 = ",\"tp\":"@ + num(a.tp as nat, t3);
    let u2 = ",\"tp\":"@ + num(b.tp as nat, u3);
    let t1 = ",\"pp\":"@ + num(a.pp as nat, t2);
    let u1 = ",\"pp\":"@ + num(b.pp as nat, u2);
    cancel("{\"ep\":"@, num(a.ep as nat, t1), num(b.ep as nat, u1));
    num_injective(a.ep as nat, b.ep as nat, t1, u1);
    cancel(",\"pp\":"@, num(a.pp as nat, t2), num(b.pp as nat, u2));
    num_injective(a.pp as nat, b.pp as nat, t2, u2);
    cancel(",\"tp\":"@, num(a.tp as nat, t3), num(b.tp as nat, u3));
    num_injective(a.tp as nat, b.tp as nat, t3, u3);
    cancel("}"@, t, u);
}

proof fn layout_injective(a: KVLayout, b: KVLayout, t: Seq<char>, u: Seq<char>)
    requires
        layout_json(a, t) == layout_json(b, u),
    ensures
        a == b,
        t == u,
{
    reveal_strlit("{\"kind\":\"contiguous\"}");
    reveal_strlit("{\"kind\":\"paged\",\"page_size\":");
    reveal_strlit("}");
    assert(layout_json(KVLayout::Contiguous, t)[9] == 'c');
    assert(layout_json(KVLayout::Contiguous, u)[9] == 'c');
    match (a, b) {
        (KVLayout::Contiguous, KVLayout::Contiguous) => {
            cancel("{\"kind\":\"contiguous\"}"@, t, u);
        },
        (KVLayout::Paged { page_size: m }, KVLayout::Paged { page_size: n }) => {
            cancel(
                "{\"kind\":\"paged\",\"page_size\":"@,
                num(m as nat, "}"@ + t),
                num(n as nat, "}"@ + u),
            );
            num_injective(m as nat, n as nat, "}"@ + t, "}"@ + u);
            cancel("}"@, t, u);
        },
        (KVLayout::Paged { page_size: m }, KVLayout::Contiguous) => {
            assert(layout_json(a, t)[9] == 'p');
        },
        (KVLayout::Contiguous, KVLayout::Paged { page_size: n }) => {
            assert(layout_json(b, u)[9] == 'p');
        },
    }
}

proof fn kv_injective(a: KVCacheSpec, b: KVCacheSpec, t: Seq<char>, u: Seq<char>)
    requires
        kv_json(a, t) == kv_json(b, u),
    ensures
        a == b,
        t == u,
{
    reveal(kv_json);
    let t2 = layout_json(a.layout, "}"@ + t);
    let u2 = layout_json(b.layout, "}"@ + u);
    let t1 = ",\"layout\":"@ + t2;
    let u1 = ",\"layout\":"@ + u2;
    cancel("{\"kv_sharded\":"@, boolean(a.kv_sharded, t1), boolean(b.kv_sharded, u1));
    boolean_injective(a.kv_sharded, b.kv_sharded, t1, u1);
    cancel(",\"layout\":"@, t2, u2);
    layout_injective(a.layout, b.layout, "}"@ + t, "}"@ + u);
    cancel("}"@, t, u);
}

proof fn policy_injective(a: BatchPolicy, b: BatchPolicy, t: Seq<char>, u: Seq<char>)
    requires
        policy_json(a, t) == policy_json(b, u),
    ensures
        a == b,
        t == u,
{
    reveal(policy_json);
    reveal_strlit("}");
    let te = "}"@ + t;
    let ue = "}"@ + u;
    policy_marks(a, t);
    policy_marks(b, u);
    match (a, b) {
        (BatchPolicy::Static { max_batch: m }, BatchPolicy::Static { max_batch: n }) => {
            cancel(
                "{\"kind\":\"static\",\"max_batch\":"@,
                num(m as nat, te),
                num(n as nat, ue),
            );
            num_injective(m as nat, n as nat, te, ue);
        },
        (BatchPolicy::Continuous { max_batch: m }, BatchPolicy::Continuous { max_batch: n }) => {
            cancel(
                "{\"kind\":\"continuous\",\"max_batch\":"@,
                num(m as nat, te),
                num(n as nat, ue),
            );
            num_injective(m as nat, n as nat, te, ue);
        },
        (
            BatchPolicy::ContinuousChunked { max_batch: m, chunk_tokens: c },
            BatchPolicy::ContinuousChunked { max_batch: n, chunk_tokens: d },
        ) => {
            reveal_strlit(",\"kind\":\"continuous_chunked\",\"max_batch\":");
            let t1 = ",\"kind\":\"continuous_chunked\",\"max_batch\":"@ + num(m as nat, te);
            let u1 = ",\"kind\":\"continuous_chunked\",\"max_batch\":"@ + num(n as nat, ue);
            cancel("{\"chunk_tokens\":"@, num(c as nat, t1), num(d as nat, u1));
            num_injective(c as nat, d as nat, t1, u1);
            cancel(
                ",\"kind\":\"continuous_chunked\",\"max_batch\":"@,
                num(m as nat, te),
                num(n as nat, ue),
            );
            num_injective(m as nat, n as nat, te, ue);
        },
        _ => {},
    }
    cancel("}"@, t, u);
}

proof fn policy_marks(p: BatchPolicy, t: Seq<char>)
    ensures
        ({
            let s = policy_json(p, t);
            match p {
                BatchPolicy::Static { .. } => s[2] == 'k' && s[9] == 's',
                BatchPolicy::Continuous { .. } => s[2] == 'k' && s[9] == 'c',
                BatchPolicy::ContinuousChunked { .. } => s[2] == 'c',
            }
        }),
{
    reveal(policy_json);
    reveal_strlit("{\"kind\":\"static\",\"max_batch\":");
    reveal_strlit("{\"kind\":\"continuous\",\"max_batch\":");
    reveal_strlit("{\"chunk_tokens\":");
}

proof fn layer_injective(a: PerLayerDtype, b: PerLayerDtype, t: Seq<char>, u: Seq<char>)
    requires
        layer_json(a, t) == layer_json(b, u),
    ensures
        a == b,
        t == u,
{
    let t3 = "}"@ + t;
    let u3 = "}"@ + u;
    let t2 = ",\"weight\":"@ + dtype_json(a.weight, t3);
    let u2 = ",\"weight\":"@ + dtype_json(b.weight, u3);
    let t1 = ",\"kv_cache\":"@ + dtype_json(a.kv_cache, t2);
    let u1 = ",\"kv_cache\":"@ + dtype_json(b.kv_cache, u2);
    cancel("{\"activation\":"@, dtype_json(a.activation, t1), dtype_json(b.activation, u1));
    dtype_injective(a.activation, b.activation, t1, u1);
    cancel(",\"kv_cache\":"@, dtype_json(a.kv_cache, t2), dtype_json(b.kv_cache, u2));
    dtype_injective(a.kv_cache, b.kv_cache, t2, u2);
    cancel(",\"weight\":"@, dtype_json(a.weight, t3), dtype_json(b.weight, u3));
    dtype_injective(a.weight, b.weight, t3, u3);
    cancel("}"@, t, u);
}

proof fn more_layers_injective(
    a: Seq<PerLayerDtype>,
    b: Seq<PerLayerDtype>,
    t: Seq<char>,
    u: Seq<char>,
)
    requires
        more_layers(a, t) == more_layers(b, u),
    ensures
        a == b,
        t == u,
    decreases a.len(),
{
    reveal_strlit("]");
    reveal_strlit(",");
    assert(more_layers(a, t)[0] == if a.len() == 0 {
        ']'
    } else {
        ','
    });
    assert(more_layers(b, u)[0] == if b.len() == 0 {
        ']'
    } else {
        ','
    });
    if a.len() == 0 {
        cancel("]"@, t, u);
        assert(a =~= b);
    } else {
        let x = more_layers(a.drop_first(), t);
        let y = more_layers(b.drop_first(), u);
        cancel(","@, layer_json(a[0], x), layer_json(b[0], y));
        layer_injective(a[0], b[0], x, y);
        more_layers_injective(a.drop_first(), b.drop_first(), t, u);
        assert(a =~= seq![a[0]] + a.drop_first());
        assert(b =~= seq![b[0]] + b.drop_first());
    }
}

proof fn dtypes_injective(
    a: Seq<PerLayerDtype>,
    b: Seq<PerLayerDtype>,
    t: Seq<char>,
    u: Seq<char>,
)
    requires
        dtypes_json(a, t) == dtypes_json(b, u),
    ensures
        a == b,
        t == u,
{
    reveal(dtypes_json);
    reveal_strlit("{\"per_layer\":[]");
    reveal_strlit("{\"per_layer\":[");
    reveal_strlit("{\"activation\":");
    let te = "}"@ + t;
    let ue = "}"@ + u;
    if a.len() > 0 {
        let x = more_layers(a.drop_first(), te);
        assert(layer_json(a[0], x)[0] == '{');
        assert(("{\"per_layer\":["@ + layer_json(a[0], x))[14] == layer_json(a[0], x)[0]);
    } else {
        assert(dtypes_json(a, t)[14] == ']');
    }
    if b.len() > 0 {
        let y = more_layers(b.drop_first(), ue);
        assert(layer_json(b[0], y)[0] == '{');
        assert(("{\"per_layer\":["@ + layer_json(b[0], y))[14] == layer_json(b[0], y)[0]);
    } else {
        assert(dtypes_json(b, u)[14] == ']');
    }
    if a.len() == 0 {
        cancel("{\"per_layer\":[]"@, te, ue);
        assert(a =~= b);
    } else {
        let x = more_layers(a.drop_first(), te);
        let y = more_layers(b.drop_first(), ue);
        cancel("{\"per_layer\":["@, layer_json(a[0], x), layer_json(b[0], y));
        layer_injective(a[0], b[0], x, y);
        more_layers_injective(a.drop_first(), b.drop_first(), te, ue);
        assert(a =~= seq![a[0]] + a.drop_first());
        assert(b =~= seq![b[0]] + b.drop_first());
    }
    cancel("}"@, t, u);
}

proof fn class_injective(a: CaptureClass, b: CaptureClass, t: Seq<char>, u: Seq<char>)
    requires
        class_json(a, t) == class_json(b, u),
    ensures
        a == b,
        t == u,
{
    reveal_strlit(",\"kv_class\":");
    reveal_strlit("}");
    let t2 = "}"@ + t;
    let u2 = "}"@ + u;
    let t1 = ",\"kv_class\":"@ + num(a.kv_class as nat, t2);
    let u1 = ",\"kv_class\":"@ + num(b.kv_class as nat, u2);
    cancel("{\"batch_size\":"@, num(a.batch_size as nat, t1), num(b.batch_size as nat, u1));
    num_injective(a.batch_size as nat, b.batch_size as nat, t1, u1);
    cancel(",\"kv_class\":"@, num(a.kv_class as nat, t2), num(b.kv_class as nat, u2));
    num_injective(a.kv_class as nat, b.kv_class as nat, t2, u2);
    cancel("}"@, t, u);
}

proof fn more_classes_injective(
    a: Seq<CaptureClass>,
    b: Seq<CaptureClass>,
    t: Seq<char>,
    u: Seq<char>,
)
    requires
        more_classes(a, t) == more_classes(b, u),
    ensures
        a == b,
        t == u,
    decreases a.len(),
{
    reveal_strlit("]");
    reveal_strlit(",");
    assert(more_classes(a, t)[0] == if a.len() == 0 {
        ']'
    } else {
        ','
    });
    assert(more_classes(b, u)[0] == if b.len() == 0 {
        ']'
    } else {
        ','
    });
    if a.len() == 0 {
        cancel("]"@, t, u);
        assert(a =~= b);
    } else {
        let x = more_classes(a.drop_first(), t);
        let y = more_classes(b.drop_first(), u);
        cancel(","@, class_json(a[0], x), class_json(b[0], y));
        class_injective(a[0], b[0], x, y);
        more_classes_injective(a.drop_first(), b.drop_first(), t, u);
        assert(a =~= seq![a[0]] + a.drop_first());
        assert(b =~= seq![b[0]] + b.drop_first());
    }
}

proof fn classes_injective(a: Seq<CaptureClass>, b: Seq<CaptureClass>, t: Seq<char>, u: Seq<char>)
    requires
        classes_json(a, t) == classes_json(b, u),
    ensures
        a == b,
        t == u,
{
    reveal_strlit("[]");
    reveal_strlit("[");
    reveal_strlit("{\"batch_size\":");
    if a.len() > 0 {
        let x = more_classes(a.drop_first(), t);
        assert(class_json(a[0], x)[0] == '{');
        assert(("["@ + class_json(a[0], x))[1] == class_json(a[0], x)[0]);
    } else {
        assert(classes_json(a, t)[1] == ']');
    }
    if b.len() > 0 {
        let y = more_classes(b.drop_first(), u);
        assert(class_json(b[0], y)[0] == '{');
        assert(("["@ + class_json(b[0], y))[1] == class_json(b[0], y)[0]);
    } else {
        assert(classes_json(b, u)[1] == ']');
    }
    if a.len() == 0 {
        cancel("[]"@, t, u);
        assert(a =~= b);
    } else {
        let x = more_classes(a.drop_first(), t);
        let y = more_classes(b.drop_first(), u);
        cancel("["@, class_json(a[0], x), class_json(b[0], y));
        class_injective(a[0], b[0], x, y);
        more_classes_injective(a.drop_first(), b.drop_first(), t, u);
        assert(a =~= seq![a[0]] + a.drop_first());
        assert(b =~= seq![b[0]] + b.drop_first());
    }
}

proof fn draft_injective(
    a: Option<DraftSpec>,
    b: Option<DraftSpec>,
    t: Seq<char>,
    u: Seq<char>,
)
    requires
        draft_json(a, t) == draft_json(b, u),
    ensures
        same_draft(a, b),
        t == u,
{
    reveal_strlit("null");
    reveal_strlit("{\"model_path\":");
    reveal_strlit("}");
    assert(draft_json(a, t)[0] == if a is None {
        'n'
    } else {
        '{'
    });
    assert(draft_json(b, u)[0] == if b is None {
        'n'
    } else {
        '{'
    });
    match (a, b) {
        (Some(x), Some(y)) => {
            let t2 = "}"@ + t;
            let u2 = "}"@ + u;
            let t1 = ",\"speculation_depth\":"@ + num(x.speculation_depth as nat, t2);
            let u1 = ",\"speculation_depth\":"@ + num(y.speculation_depth as nat, u2);
            cancel("{\"model_path\":"@, quoted(x.model_path@, t1), quoted(y.model_path@, u1));
            quoted_injective(x.model_path@, y.model_path@, t1, u1);
            cancel(
                ",\"speculation_depth\":"@,
                num(x.speculation_depth as nat, t2),
                num(y.speculation_depth as nat, u2),
            );
            num_injective(x.speculation_depth as nat, y.speculation_depth as nat, t2, u2);
            cancel("}"@, t, u);
        },
        (None, None) => {
            cancel("null"@, t, u);
        },
        _ => {},
    }
}

proof fn reuse_injective(a: RadixReusePolicy, b: RadixReusePolicy, t: Seq<char>, u: Seq<char>)
    requires
        reuse_json(a, t) == reuse_json(b, u),
    ensures
        a == b,
        t == u,
{
    reveal_strlit("\"lru_by_last_access\"");
    reveal_strlit("\"lfu_by_hits\"");
    assert(reuse_json(RadixReusePolicy::LruByLastAccess, t)[2] == 'r');
    assert(reuse_json(RadixReusePolicy::LruByLastAccess, u)[2] == 'r');
    assert(reuse_json(RadixReusePolicy::LfuByHits, t)[2] == 'f');
    assert(reuse_json(RadixReusePolicy::LfuByHits, u)[2] == 'f');
    match a {
        RadixReusePolicy::LruByLastAccess => cancel("\"lru_by_last_access\""@, t, u),
        RadixReusePolicy::LfuByHits => cancel("\"lfu_by_hits\""@, t, u),
    }
}

proof fn execution_injective(a: ExecutionConfig, b: ExecutionConfig, t: Seq<char>, u: Seq<char>)
    requires
        execution_json(a, t) == execution_json(b, u),
    ensures
        same_execution(a, b),
        t == u,
{
    reveal(execution_json);
    let t6 = "}}"@ + t;
    let u6 = "}}"@ + u;
    let t5 = ",\"enable\":"@ + boolean(a.spec_decode.enable, t6);
    let u5 = ",\"enable\":"@ + boolean(b.spec_decode.enable, u6);
    let t4 = "},\"spec_decode\":{\"draft\":"@ + draft_json(a.spec_decode.draft, t5);
    let u4 = "},\"spec_decode\":{\"draft\":"@ + draft_json(b.spec_decode.draft, u5);
    let t3 = ",\"reuse_policy\":"@ + reuse_json(a.prefix_cache.reuse_policy, t4);
    let u3 = ",\"reuse_policy\":"@ + reuse_json(b.prefix_cache.reuse_policy, u4);
    let t2 = "},\"prefix_cache\":{\"enable\":"@ + boolean(a.prefix_cache.enable, t3);
    let u2 = "},\"prefix_cache\":{\"enable\":"@ + boolean(b.prefix_cache.enable, u3);
    let t1 = ",\"enable\":"@ + boolean(a.cuda_graphs.enable, t2);
    let u1 = ",\"enable\":"@ + boolean(b.cuda_graphs.enable, u2);
    let ca = a.cuda_graphs.capture_classes@;
    let cb = b.cuda_graphs.capture_classes@;
    cancel("{\"cuda_graphs\":{\"capture_classes\":"@, classes_json(ca, t1), classes_json(cb, u1));
    classes_injective(ca, cb, t1, u1);
    cancel(
        ",\"enable\":"@,
        boolean(a.cuda_graphs.enable, t2),
        boolean(b.cuda_graphs.enable, u2),
    );
    boolean_injective(a.cuda_graphs.enable, b.cuda_graphs.enable, t2, u2);
    cancel(
        "},\"prefix_cache\":{\"enable\":"@,
        boolean(a.prefix_cache.enable, t3),
        boolean(b.prefix_cache.enable, u3),
    );
    boolean_injective(a.prefix_cache.enable, b.prefix_cache.enable, t3, u3);
    cancel(
        ",\"reuse_policy\":"@,
        reuse_json(a.prefix_cache.reuse_policy, t4),
        reuse_json(b.prefix_cache.reuse_policy, u4),
    );
    reuse_injective(a.prefix_cache.reuse_policy, b.prefix_cache.reuse_policy, t4, u4);
    cancel(
        "},\"spec_decode\":{\"draft\":"@,
        draft_json(a.spec_decode.draft, t5),
        draft_json(b.spec_decode.draft, u5),
    );
    draft_injective(a.spec_decode.draft, b.spec_decode.draft, t5, u5);
    cancel(
        ",\"enable\":"@,
        boolean(a.spec_decode.enable, t6),
        boolean(b.spec_decode.enable, u6),
    );
    boolean_injective(a.spec_decode.enable, b.spec_decode.enable, t6, u6);
    cancel("}}"@, t, u);
}

/// Texts without a comma, followed by one, can be told apart.
proof fn comma_free_injective(x: Seq<char>, y: Seq<char>, t: Seq<char>, u: Seq<char>)
    requires
        x + t == y + u,
        forall|i: int| 0 <= i < x.len() ==> #[trigger] x[i] != ',',
        forall|i: int| 0 <= i < y.len() ==> #[trigger] y[i] != ',',
        t.len() > 0 && t[0] == ',',
        u.len() > 0 && u[0] == ',',
    ensures
        x == y,
        t == u,
{
    if x.len() < y.len() {
        assert((x + t)[x.len() as int] == t[0]);
        assert((y + u)[x.len() as int] == y[x.len() as int]);
    } else if y.len() < x.len() {
        assert((y + u)[y.len() as int] == u[0]);
        assert((x + t)[y.len() as int] == x[y.len() as int]);
    }
    assert((x + t).take(x.len() as int) =~= x);
    assert((y + u).take(y.len() as int) =~= y);
    cancel(x, t, u);
}

proof fn meta_end_injective(
    a: ModelMeta,
    b: ModelMeta,
    text: spec_fn(Ieee32) -> Seq<char>,
    t: Seq<char>,
    u: Seq<char>,
)
    requires
        meta_end(a, text, t) == meta_end(b, text, u),
        comma_free(text),
    ensures
        a.num_layers == b.num_layers,
        text(a.rms_norm_eps) == text(b.rms_norm_eps),
        text(a.rope_theta) == text(b.rope_theta),
        a.sliding_window == b.sliding_window,
        a.tied_embeddings == b.tied_embeddings,
        a.top_k == b.top_k,
        a.vocab == b.vocab,
        t == u,
{
    reveal(meta_end);
    reveal_strlit("}");
    reveal_strlit(",\"vocab\":");
    reveal_strlit(",\"top_k\":");
    reveal_strlit(",\"tied_embeddings\":");
    reveal_strlit(",\"sliding_window\":");
    reveal_strlit(",\"rope_theta\":");
    reveal_strlit(",\"rms_norm_eps\":");
    let t7 = "}"@ + t;
    let u7 = "}"@ + u;
    let t6 = ",\"vocab\":"@ + num(a.vocab as nat, t7);
    let u6 = ",\"vocab\":"@ + num(b.vocab as nat, u7);
    let t5 = ",\"top_k\":"@ + opt_num(a.top_k, t6);
    let u5 = ",\"top_k\":"@ + opt_num(b.top_k, u6);
    let t4 = ",\"tied_embeddings\":"@ + boolean(a.tied_embeddings, t5);
    let u4 = ",\"tied_embeddings\":"@ + boolean(b.tied_embeddings, u5);
    let t3 = ",\"sliding_window\":"@ + opt_num(a.sliding_window, t4);
    let u3 = ",\"sliding_window\":"@ + opt_num(b.sliding_window, u4);
    let t2 = ",\"rope_theta\":"@ + (text(a.rope_theta) + t3);
    let u2 = ",\"rope_theta\":"@ + (text(b.rope_theta) + u3);
    let t1 = ",\"rms_norm_eps\":"@ + (text(a.rms_norm_eps) + t2);
    let u1 = ",\"rms_norm_eps\":"@ + (text(b.rms_norm_eps) + u2);
    cancel(",\"num_layers\":"@, num(a.num_layers as nat, t1), num(b.num_layers as nat, u1));
    num_injective(a.num_layers as nat, b.num_layers as nat, t1, u1);
    cancel(",\"rms_norm_eps\":"@, text(a.rms_norm_eps) + t2, text(b.rms_norm_eps) + u2);
    comma_free_injective(text(a.rms_norm_eps), text(b.rms_norm_eps), t2, u2);
    cancel(",\"rope_theta\":"@, text(a.rope_theta) + t3, text(b.rope_theta) + u3);
    comma_free_injective(text(a.rope_theta), text(b.rope_theta), t3, u3);
    cancel(",\"sliding_window\":"@, opt_num(a.sliding_window, t4), opt_num(b.sliding_window, u4));
    opt_num_injective(a.sliding_window, b.sliding_window, t4, u4);
    cancel(
        ",\"tied_embeddings\":"@,
        boolean(a.tied_embeddings, t5),
        boolean(b.tied_embeddings, u5),
    );
    boolean_injective(a.tied_embeddings, b.tied_embeddings, t5, u5);
    cancel(",\"top_k\":"@, opt_num(a.top_k, t6), opt_num(b.top_k, u6));
    opt_num_injective(a.top_k, b.top_k, t6, u6);
    cancel(",\"vocab\":"@, num(a.vocab as nat, t7), num(b.vocab as nat, u7));
    num_injective(a.vocab as nat, b.vocab as nat, t7, u7);
    cancel("}"@, t, u);
}

proof fn meta_injective(
    a: ModelMeta,
    b: ModelMeta,
    text: spec_fn(Ieee32) -> Seq<char>,
    t: Seq<char>,
    u: Seq<char>,
)
    requires
        meta_json(a, text, t) == meta_json(b, text, u),
        comma_free(text),
    ensures
        same_meta(a, b, text),
        t == u,
{
    reveal(meta_json);
    reveal(meta_end);
    reveal_strlit(",\"hidden\":");
    reveal_strlit(",\"intermediate\":");
    reveal_strlit(",\"max_position\":");
    reveal_strlit(",\"num_attention_heads\":");
    reveal_strlit(",\"num_experts\":");
    reveal_strlit(",\"num_kv_heads\":");
    reveal_strlit(",\"num_layers\":");
    let t7 = meta_end(a, text, t);
    let u7 = meta_end(b, text, u);
    let t6 = ",\"num_kv_heads\":"@ + num(a.num_kv_heads as nat, t7);
    let u6 = ",\"num_kv_heads\":"@ + num(b.num_kv_heads as nat, u7);
    let t5 = ",\"num_experts\":"@ + opt_num(a.num_experts, t6);
    let u5 = ",\"num_experts\":"@ + opt_num(b.num_experts, u6);
    let t4 = ",\"num_attention_heads\":"@ + num(a.num_attention_heads as nat, t5);
    let u4 = ",\"num_attention_heads\":"@ + num(b.num_attention_heads as nat, u5);
    let t3 = ",\"max_position\":"@ + num(a.max_position as nat, t4);
    let u3 = ",\"max_position\":"@ + num(b.max_position as nat, u4);
    let t2 = ",\"intermediate\":"@ + num(a.intermediate as nat, t3);
    let u2 = ",\"intermediate\":"@ + num(b.intermediate as nat, u3);
    let t1 = ",\"hidden\":"@ + num(a.hidden as nat, t2);
    let u1 = ",\"hidden\":"@ + num(b.hidden as nat, u2);
    let t0 = ",\"head_dim\":"@ + num(a.head_dim as nat, t1);
    let u0 = ",\"head_dim\":"@ + num(b.head_dim as nat, u1);
    cancel("{\"architecture\":"@, quoted(a.architecture@, t0), quoted(b.architecture@, u0));
    quoted_injective(a.architecture@, b.architecture@, t0, u0);
    cancel(",\"head_dim\":"@, num(a.head_dim as nat, t1), num(b.head_dim as nat, u1));
    num_injective(a.head_dim as nat, b.head_dim as nat, t1, u1);
    cancel(",\"hidden\":"@, num(a.hidden as nat, t2), num(b.hidden as nat, u2));
    num_injective(a.hidden as nat, b.hidden as nat, t2, u2);
    cancel(",\"intermediate\":"@, num(a.intermediate as nat, t3), num(b.intermediate as nat, u3));
    num_injective(a.intermediate as nat, b.intermediate as nat, t3, u3);
    cancel(",\"max_position\":"@, num(a.max_position as nat, t4), num(b.max_position as nat, u4));
    num_injective(a.max_position as nat, b.max_position as nat, t4, u4);
    cancel(
        ",\"num_attention_heads\":"@,
        num(a.num_attention_heads as nat, t5),
        num(b.num_attention_heads as nat, u5),
    );
    num_injective(a.num_attention_heads as nat, b.num_attention_heads as nat, t5, u5);
    cancel(",\"num_experts\":"@, opt_num(a.num_experts, t6), opt_num(b.num_experts, u6));
    opt_num_injective(a.num_experts, b.num_experts, t6, u6);
    cancel(",\"num_kv_heads\":"@, num(a.num_kv_heads as nat, t7), num(b.num_kv_heads as nat, u7));
    num_injective(a.num_kv_heads as nat, b.num_kv_heads as nat, t7, u7);
    meta_end_injective(a, b, text, t, u);
}

proof fn transfer_injective(a: TransferTopology, b: TransferTopology, t: Seq<char>, u: Seq<char>)
    requires
        transfer_json(a, t) == transfer_json(b, u),
    ensures
        a == b,
        t == u,
{
    reveal(transfer_json);
    use_transfer_marks(a, t);
    use_transfer_marks(b, u);
    let t1 = transfer_mode(a, t);
    let u1 = transfer_mode(b, u);
    cancel("{\"layer_overlap\":"@, boolean(a.layer_overlap, t1), boolean(b.layer_overlap, u1));
    boolean_injective(a.layer_overlap, b.layer_overlap, t1, u1);
    match a.mode {
        crate::ir::plan::KvTransferMode::RdmaWrite => cancel(
            ",\"mode\":\"rdma_write\"}"@,
            t,
            u,
        ),
        crate::ir::plan::KvTransferMode::NcclByLayer => cancel(
            ",\"mode\":\"nccl_by_layer\"}"@,
            t,
            u,
        ),
    }
}

spec fn transfer_mode(x: TransferTopology, t: Seq<char>) -> Seq<char> {
    match x.mode {
        crate::ir::plan::KvTransferMode::RdmaWrite => ",\"mode\":\"rdma_write\"}"@ + t,
        crate::ir::plan::KvTransferMode::NcclByLayer => ",\"mode\":\"nccl_by_layer\"}"@ + t,
    }
}

proof fn use_transfer_marks(x: TransferTopology, t: Seq<char>)
    ensures
        transfer_mode(x, t)[9] == match x.mode {
            crate::ir::plan::KvTransferMode::RdmaWrite => 'r',
            crate::ir::plan::KvTransferMode::NcclByLayer => 'n',
        },
{
    reveal_strlit(",\"mode\":\"rdma_write\"}");
    reveal_strlit(",\"mode\":\"nccl_by_layer\"}");
}

proof fn plan_end_injective(
    a: Plan,
    b: Plan,
    text: spec_fn(Ieee32) -> Seq<char>,
    t: Seq<char>,
    u: Seq<char>,
)
    requires
        plan_end(a, text, t) == plan_end(b, text, u),
        comma_free(text),
    ensures
        a.dtype_map.per_layer@ == b.dtype_map.per_layer@,
        same_execution(a.execution, b.execution),
        a.kv == b.kv,
        same_meta(a.model_meta, b.model_meta, text),
        a.parallelism == b.parallelism,
        t == u,
{
    reveal(plan_end);
    let t5 = "}"@ + t;
    let u5 = "}"@ + u;
    let t4 = ",\"parallelism\":"@ + placement_json(a.parallelism, t5);
    let u4 = ",\"parallelism\":"@ + placement_json(b.parallelism, u5);
    let t3 = ",\"model_meta\":"@ + meta_json(a.model_meta, text, t4);
    let u3 = ",\"model_meta\":"@ + meta_json(b.model_meta, text, u4);
    let t2 = ",\"kv\":"@ + kv_json(a.kv, t3);
    let u2 = ",\"kv\":"@ + kv_json(b.kv, u3);
    let t1 = ",\"execution\":"@ + execution_json(a.execution, t2);
    let u1 = ",\"execution\":"@ + execution_json(b.execution, u2);
    let da = a.dtype_map.per_layer@;
    let db = b.dtype_map.per_layer@;
    cancel(",\"dtype_map\":"@, dtypes_json(da, t1), dtypes_json(db, u1));
    dtypes_injective(da, db, t1, u1);
    cancel(",\"execution\":"@, execution_json(a.execution, t2), execution_json(b.execution, u2));
    execution_injective(a.execution, b.execution, t2, u2);
    cancel(",\"kv\":"@, kv_json(a.kv, t3), kv_json(b.kv, u3));
    kv_injective(a.kv, b.kv, t3, u3);
    cancel(
        ",\"model_meta\":"@,
        meta_json(a.model_meta, text, t4),
        meta_json(b.model_meta, text, u4),
    );
    meta_injective(a.model_meta, b.model_meta, text, t4, u4);
    cancel(
        ",\"parallelism\":"@,
        placement_json(a.parallelism, t5),
        placement_json(b.parallelism, u5),
    );
    placement_injective(a.parallelism, b.parallelism, t5, u5);
    cancel("}"@, t, u);
}

/// Plans with the same canonical text agree on every axis: changing any axis changes the
/// text that is hashed.
pub proof fn text_identifies_the_plan(
    a: Plan,
    b: Plan,
    text: spec_fn(Ieee32) -> Seq<char>,
    t: Seq<char>,
    u: Seq<char>,
)
    requires
        plan_json(a, text, t) == plan_json(b, text, u),
        comma_free(text),
    ensures
        same_plan(a, b, text),
        t == u,
    decreases a,
{
    reveal_strlit(",\"disaggregation\":null");
    reveal_strlit(",\"disaggregation\":{\"decode\":");
    let ra = plan_end(a, text, t);
    let rb = plan_end(b, text, u);
    let ta = plan_middle(a, text, t);
    let tb = plan_middle(b, text, u);
    assert(plan_json(a, text, t) == "{\"batching\":"@ + policy_json(a.batching, ta));
    assert(plan_json(b, text, u) == "{\"batching\":"@ + policy_json(b.batching, tb));
    cancel("{\"batching\":"@, policy_json(a.batching, ta), policy_json(b.batching, tb));
    policy_injective(a.batching, b.batching, ta, tb);
    assert(ta[18] == if a.disaggregation is None {
        'n'
    } else {
        '{'
    });
    assert(tb[18] == if b.disaggregation is None {
        'n'
    } else {
        '{'
    });
    match (a.disaggregation, b.disaggregation) {
        (None, None) => {
            cancel(",\"disaggregation\":null"@, ra, rb);
            plan_end_injective(a, b, text, t, u);
        },
        (Some(x), Some(y)) => {
            let a3 = transfer_json(x.transfer, "}"@ + ra);
            let b3 = transfer_json(y.transfer, "}"@ + rb);
            let a2 = ",\"transfer\":"@ + a3;
            let b2 = ",\"transfer\":"@ + b3;
            let a1 = ",\"prefill\":"@ + plan_json(*x.prefill, text, a2);
            let b1 = ",\"prefill\":"@ + plan_json(*y.prefill, text, b2);
            cancel(
                ",\"disaggregation\":{\"decode\":"@,
                plan_json(*x.decode, text, a1),
                plan_json(*y.decode, text, b1),
            );
            text_identifies_the_plan(*x.decode, *y.decode, text, a1, b1);
            cancel(
                ",\"prefill\":"@,
                plan_json(*x.prefill, text, a2),
                plan_json(*y.prefill, text, b2),
            );
            text_identifies_the_plan(*x.prefill, *y.prefill, text, a2, b2);
            cancel(",\"transfer\":"@, a3, b3);
            transfer_injective(x.transfer, y.transfer, "}"@ + ra, "}"@ + rb);
            cancel("}"@, ra, rb);
            plan_end_injective(a, b, text, t, u);
        },
        _ => {},
    }
}

/// What follows the batching policy in a plan's text.
spec fn plan_middle(p: Plan, text: spec_fn(Ieee32) -> Seq<char>, tail: Seq<char>) -> Seq<char> {
    let rest = plan_end(p, text, tail);
    match p.disaggregation {
        None => ",\"disaggregation\":null"@ + rest,
        Some(d) => ",\"disaggregation\":{\"decode\":"@ + plan_json(
            *d.decode,
            text,
            ",\"prefill\":"@ + plan_json(
                *d.prefill,
                text,
                ",\"transfer\":"@ + transfer_json(d.transfer, "}"@ + rest),
            ),
        ),
    }
}

proof fn same_execution_text(a: ExecutionConfig, b: ExecutionConfig, t: Seq<char>)
    requires
        same_execution(a, b),
    ensures
        execution_json(a, t) == execution_json(b, t),
{
    reveal(execution_json);
}

proof fn same_meta_text(
    a: ModelMeta,
    b: ModelMeta,
    text: spec_fn(Ieee32) -> Seq<char>,
    t: Seq<char>,
)
    requires
        same_meta(a, b, text),
    ensures
        meta_json(a, text, t) == meta_json(b, text, t),
{
    reveal(meta_json);
    reveal(meta_end);
}

proof fn same_end_text(a: Plan, b: Plan, text: spec_fn(Ieee32) -> Seq<char>, t: Seq<char>)
    requires
        same_plan(a, b, text),
    ensures
        plan_end(a, text, t) == plan_end(b, text, t),
{
    reveal(plan_end);
    let t4 = ",\"parallelism\":"@ + placement_json(a.parallelism, "}"@ + t);
    same_meta_text(a.model_meta, b.model_meta, text, t4);
    let t2 = ",\"kv\":"@ + kv_json(a.kv, ",\"model_meta\":"@ + meta_json(a.model_meta, text, t4));
    same_execution_text(a.execution, b.execution, t2);
}

/// Plans that agree on every axis have the same canonical text, hence the same hash.
pub proof fn same_plans_have_the_same_text(
    a: Plan,
    b: Plan,
    text: spec_fn(Ieee32) -> Seq<char>,
    tail: Seq<char>,
)
    requires
        same_plan(a, b, text),
    ensures
        plan_json(a, text, tail) == plan_json(b, text, tail),
    decreases a,
{
    same_end_text(a, b, text, tail);
    if let (Some(x), Some(y)) = (a.disaggregation, b.disaggregation) {
        let t2 = ",\"transfer\":"@ + transfer_json(
            x.transfer,
            "}"@ + plan_end(a, text, tail),
        );
        same_plans_have_the_same_text(*x.prefill, *y.prefill, text, t2);
        let t1 = ",\"prefill\":"@ + plan_json(*x.prefill, text, t2);
        same_plans_have_the_same_text(*x.decode, *y.decode, text, t1);
    }
    assert(plan_middle(a, text, tail) == plan_middle(b, text, tail));
    assert(plan_json(a, text, tail) == "{\"batching\":"@ + policy_json(
        a.batching,
        plan_middle(a, text, tail),
    ));
    assert(plan_json(b, text, tail) == "{\"batching\":"@ + policy_json(
        b.batching,
        plan_middle(b, text, tail),
    ));
}

/// Two plans with one canonical text are one plan: they agree on the placement, the cache, the
/// batching, every layer's dtypes, every switch of the execution, every field of the model,
/// and on whether and how prefill and decode are separated.
pub proof fn one_text_one_plan(
    a: Plan,
    b: Plan,
    text: spec_fn(Ieee32) -> Seq<char>,
    t: Seq<char>,
    u: Seq<char>,
)
    requires
        plan_json(a, text, t) == plan_json(b, text, u),
        comma_free(text),
    ensures
        a.parallelism.tp == b.parallelism.tp,
        a.parallelism.pp == b.parallelism.pp,
        a.parallelism.ep == b.parallelism.ep,
        a.kv.layout == b.kv.layout,
        a.kv.kv_sharded == b.kv.kv_sharded,
        a.batching == b.batching,
        a.dtype_map.per_layer@ == b.dtype_map.per_layer@,
        a.execution.cuda_graphs.enable == b.execution.cuda_graphs.enable,
        a.execution.cuda_graphs.capture_classes@ == b.execution.cuda_graphs.capture_classes@,
        a.execution.spec_decode.enable == b.execution.spec_decode.enable,
        a.execution.spec_decode.draft is Some == b.execution.spec_decode.draft is Some,
        a.execution.spec_decode.draft is Some ==> {
            let x = a.execution.spec_decode.draft->0;
            let y = b.execution.spec_decode.draft->0;
            x.model_path@ == y.model_path@ && x.speculation_depth == y.speculation_depth
        },
        a.execution.prefix_cache.enable == b.execution.prefix_cache.enable,
        a.execution.prefix_cache.reuse_policy == b.execution.prefix_cache.reuse_policy,
        a.model_meta.architecture@ == b.model_meta.architecture@,
        a.model_meta.num_layers == b.model_meta.num_layers,
        a.model_meta.hidden == b.model_meta.hidden,
        a.model_meta.vocab == b.model_meta.vocab,
        a.model_meta.max_position == b.model_meta.max_position,
        a.model_meta.num_attention_heads == b.model_meta.num_attention_heads,
        a.model_meta.num_kv_heads == b.model_meta.num_kv_heads,
        a.model_meta.head_dim == b.model_meta.head_dim,
        a.model_meta.num_experts == b.model_meta.num_experts,
        a.model_meta.top_k == b.model_meta.top_k,
        a.model_meta.intermediate == b.model_meta.intermediate,
        text(a.model_meta.rope_theta) == text(b.model_meta.rope_theta),
        text(a.model_meta.rms_norm_eps) == text(b.model_meta.rms_norm_eps),
        a.model_meta.sliding_window == b.model_meta.sliding_window,
        a.model_meta.tied_embeddings == b.model_meta.tied_embeddings,
        a.disaggregation is Some == b.disaggregation is Some,
        a.disaggregation is Some ==> {
            let x = a.disaggregation->0;
            let y = b.disaggregation->0;
            &&& same_plan(*x.prefill, *y.prefill, text)
            &&& same_plan(*x.decode, *y.decode, text)
            &&& x.transfer.mode == y.transfer.mode
            &&& x.transfer.layer_overlap == y.transfer.layer_overlap
        },
{
    text_identifies_the_plan(a, b, text, t, u);
}

} // verus!
