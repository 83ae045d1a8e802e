//! Tolerances by dtype.

use vstd::prelude::*;

use crate::ieee::{larger_is_an_upper_bound, Ieee64};
use crate::ir::plan::{PerLayerDtype, Plan};
use crate::ir::types::{Component, Dtype};

verus! {

/// The mean squared error that each dtype may cause.
#[derive(Debug, Clone, Copy, PartialEq)]
pub struct ToleranceTable {
    pub bf16: Ieee64,
    pub fp16: Ieee64,
    pub fp8_e4m3: Ieee64,
    pub fp8_e5m2: Ieee64,
    pub int8: Ieee64,
    pub int4: Ieee64,
}

impl ToleranceTable {
    pub open spec fn entry(self, d: Dtype) -> Ieee64 {
        match d {
            Dtype::Bf16 => self.bf16,
            Dtype::Fp16 => self.fp16,
            Dtype::Fp8E4m3 => self.fp8_e4m3,
            Dtype::Fp8E5m2 => self.fp8_e5m2,
            Dtype::Int8 => self.int8,
            Dtype::Int4 => self.int4,
        }
    }

    pub fn for_dtype(&self, d: Dtype) -> (res: Ieee64)
        ensures
            res == self.entry(d),
    {
        match d {
            Dtype::Bf16 => self.bf16,
            Dtype::Fp16 => self.fp16,
            Dtype::Fp8E4m3 => self.fp8_e4m3,
            Dtype::Fp8E5m2 => self.fp8_e5m2,
            Dtype::Int8 => self.int8,
            Dtype::Int4 => self.int4,
        }
    }
}

/// The dtypes at a layer; a layer that the plan does not cover is bf16.
pub open spec fn dtypes_at(layers: Seq<PerLayerDtype>, layer_idx: int) -> PerLayerDtype {
    if 0 <= layer_idx < layers.len() {
        layers[layer_idx]
    } else {
        PerLayerDtype {
            weight: Dtype::Bf16,
            activation: Dtype::Bf16,
            kv_cache: Dtype::Bf16,
        }
    }
}

/// The tolerance at a layer: the largest that its components' dtypes have, and at least
/// zero.
pub open spec fn tolerance_at(
    layers: Seq<PerLayerDtype>,
    layer_idx: int,
    t: ToleranceTable,
) -> Ieee64 {
    let e = dtypes_at(layers, layer_idx);
    Ieee64::zero_spec().larger(t.entry(e.weight)).larger(t.entry(e.activation)).larger(
        t.entry(e.kv_cache),
    )
}

fn layer_dtypes(plan: &Plan, layer_idx: usize) -> (res: PerLayerDtype)
    ensures
        res == dtypes_at(plan.dtype_map.per_layer@, layer_idx as int),
{
    if layer_idx < plan.dtype_map.per_layer.len() {
        plan.dtype_map.per_layer[layer_idx]
    } else {
        PerLayerDtype::uniform(Dtype::Bf16)
    }
}

/// The tolerance that holds at a layer.
pub fn tolerance_for_layer(layer_idx: usize, plan: &Plan, tolerances: &ToleranceTable) -> (res: Ieee64)
    ensures
        res == tolerance_at(plan.dtype_map.per_layer@, layer_idx as int, *tolerances),
        layer_idx < plan.dtype_map.per_layer@.len() ==> allowed_by(
            plan.dtype_map.per_layer@[layer_idx as int],
            *tolerances,
            res,
        ),
{
    let e = layer_dtypes(plan, layer_idx);
    Ieee64::zero().max(tolerances.for_dtype(e.weight)).max(tolerances.for_dtype(e.activation)).max(
        tolerances.for_dtype(e.kv_cache),
    )
}

/// A layer may drift at least as much as its loosest component allows.
pub proof fn tolerance_is_the_loosest(
    layers: Seq<PerLayerDtype>,
    layer_idx: int,
    t: ToleranceTable,
)
    requires
        forall|d: Dtype| !(#[trigger] t.entry(d)).nan(),
    ensures
        ({
            let e = dtypes_at(layers, layer_idx);
            let tol = tolerance_at(layers, layer_idx, t);
            &&& t.entry(e.weight).at_most(tol)
            &&& t.entry(e.activation).at_most(tol)
            &&& t.entry(e.kv_cache).at_most(tol)
            &&& Ieee64::zero_spec().at_most(tol)
        }),
{
    let e = dtypes_at(layers, layer_idx);
    let z = Ieee64::zero_spec();
    larger_is_an_upper_bound(z, t.entry(e.weight));
    let a = z.larger(t.entry(e.weight));
    larger_is_an_upper_bound(a, t.entry(e.activation));
    let b = a.larger(t.entry(e.activation));
    larger_is_an_upper_bound(b, t.entry(e.kv_cache));
}

/// Whether one of a layer's three components has a dtype.
pub open spec fn has_dtype(e: PerLayerDtype, d: Dtype) -> bool {
    e.weight == d || e.activation == d || e.kv_cache == d
}

/// Whether a tolerance is zero or what the table allows the dtype of one of a layer's own
/// components.
pub open spec fn allowed_by(e: PerLayerDtype, t: ToleranceTable, tol: Ieee64) -> bool {
    ||| tol.bits == 0
    ||| has_dtype(e, Dtype::Bf16) && tol == t.bf16
    ||| has_dtype(e, Dtype::Fp16) && tol == t.fp16
    ||| has_dtype(e, Dtype::Fp8E4m3) && tol == t.fp8_e4m3
    ||| has_dtype(e, Dtype::Fp8E5m2) && tol == t.fp8_e5m2
    ||| has_dtype(e, Dtype::Int8) && tol == t.int8
    ||| has_dtype(e, Dtype::Int4) && tol == t.int4
}

/// A layer is allowed no more than its own components are: its tolerance is zero or the
/// table's entry for the dtype of one of its three components. It does not change with the
/// dtypes of other layers, nor with the table's entries for dtypes that the layer does not
/// use.
pub proof fn tolerance_is_the_layers_own(
    layers: Seq<PerLayerDtype>,
    others: Seq<PerLayerDtype>,
    layer_idx: int,
    other_idx: int,
    t: ToleranceTable,
    u: ToleranceTable,
)
    requires
        0 <= layer_idx < layers.len(),
        0 <= other_idx < others.len(),
        others[other_idx] == layers[layer_idx],
        has_dtype(layers[layer_idx], Dtype::Bf16) ==> u.bf16 == t.bf16,
        has_dtype(layers[layer_idx], Dtype::Fp16) ==> u.fp16 == t.fp16,
        has_dtype(layers[layer_idx], Dtype::Fp8E4m3) ==> u.fp8_e4m3 == t.fp8_e4m3,
        has_dtype(layers[layer_idx], Dtype::Fp8E5m2) ==> u.fp8_e5m2 == t.fp8_e5m2,
        has_dtype(layers[layer_idx], Dtype::Int8) ==> u.int8 == t.int8,
        has_dtype(layers[layer_idx], Dtype::Int4) ==> u.int4 == t.int4,
    ensures
        allowed_by(layers[layer_idx], t, tolerance_at(layers, layer_idx, t)),
        tolerance_at(others, other_idx, u) == tolerance_at(layers, layer_idx, t),
{
}

/// A layer is allowed as much as each of its components is, by the table's entry for the
/// component's dtype.
pub proof fn every_component_has_its_tolerance(
    layers: Seq<PerLayerDtype>,
    layer_idx: int,
    t: ToleranceTable,
)
    requires
        0 <= layer_idx < layers.len(),
        !t.bf16.nan() && !t.fp16.nan() && !t.fp8_e4m3.nan() && !t.fp8_e5m2.nan(),
        !t.int8.nan() && !t.int4.nan(),
    ensures
        ({
            let e = layers[layer_idx];
            let tol = tolerance_at(layers, layer_idx, t);
            &&& Ieee64::zero_spec().at_most(tol)
            &&& has_dtype(e, Dtype::Bf16) ==> t.bf16.at_most(tol)
            &&& has_dtype(e, Dtype::Fp16) ==> t.fp16.at_most(tol)
            &&& has_dtype(e, Dtype::Fp8E4m3) ==> t.fp8_e4m3.at_most(tol)
            &&& has_dtype(e, Dtype::Fp8E5m2) ==> t.fp8_e5m2.at_most(tol)
            &&& has_dtype(e, Dtype::Int8) ==> t.int8.at_most(tol)
            &&& has_dtype(e, Dtype::Int4) ==> t.int4.at_most(tol)
        }),
{
    tolerance_is_the_loosest(layers, layer_idx, t);
}

/// A layer that is bf16 throughout, or that the plan does not cover, has the bf16 tolerance,
/// whatever stands next to it.
pub proof fn plain_layers_have_the_bf16_tolerance(
    layers: Seq<PerLayerDtype>,
    layer_idx: int,
    t: ToleranceTable,
)
    requires
        t.bf16.bits > 0,
        Ieee64::zero_spec().at_most(t.bf16),
        0 <= layer_idx < layers.len() ==> {
            &&& layers[layer_idx].weight == Dtype::Bf16
            &&& layers[layer_idx].activation == Dtype::Bf16
            &&& layers[layer_idx].kv_cache == Dtype::Bf16
        },
    ensures
        tolerance_at(layers, layer_idx, t).equals(t.bf16),
{
}

/// The component that a layer's failure is put down to: the one with the fewest bits, the
/// first of them in the order weight, activation, KV cache.
pub open spec fn dominant(e: PerLayerDtype) -> (Component, Dtype) {
    let w = e.weight.width();
    let a = e.activation.width();
    let k = e.kv_cache.width();
    if w <= a && w <= k {
        (Component::Weight, e.weight)
    } else if a <= k {
        (Component::Activation, e.activation)
    } else {
        (Component::KvCache, e.kv_cache)
    }
}

/// The most aggressively quantized component at a layer.
pub fn dominant_dtype_at_layer(plan: &Plan, layer_idx: usize) -> (res: (Component, Dtype))
    ensures
        res == dominant(dtypes_at(plan.dtype_map.per_layer@, layer_idx as int)),
{
    let e = layer_dtypes(plan, layer_idx);
    let w: u32 = e.weight.bits();
    let a: u32 = e.activation.bits();
    let k: u32 = e.kv_cache.bits();
    if w <= a && w <= k {
        (Component::Weight, e.weight)
    } else if a <= k {
        (Component::Activation, e.activation)
    } else {
        (Component::KvCache, e.kv_cache)
    }
}

/// A failure is put down to the component of the layer with the fewest bits: the dtype named
/// is that component's own, no component of the layer has fewer bits, and a component
/// named earlier (weight, activation, KV cache) has more.
pub proof fn the_narrowest_component_is_blamed(e: PerLayerDtype)
    ensures
        ({
            let (c, d) = dominant(e);
            let bits = d.width();
            &&& bits <= e.weight.width()
            &&& bits <= e.activation.width()
            &&& bits <= e.kv_cache.width()
            &&& c == Component::Weight ==> d == e.weight
            &&& c == Component::Activation ==> d == e.activation && bits < e.weight.width()
            &&& c == Component::KvCache ==> d == e.kv_cache && bits < e.weight.width() && bits
                < e.activation.width()
        }),
{
}

} // verus!
