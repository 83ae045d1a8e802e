//! `Plan`: the joint choice over the axes of search.

use vstd::prelude::*;

use crate::ir::error::PlanError;
use crate::ir::graph::ModelMeta;
use crate::ir::types::{BatchPolicy, Dtype, ExecutionConfig, KVCacheSpec};

verus! {

/// The tensor-, pipeline- and expert-parallel placement.
#[derive(Debug, Clone, Copy, PartialEq, Eq, Hash, Structural)]
pub struct ParallelismPlacement {
    pub tp: u32,
    pub pp: u32,
    pub ep: u32,
}

impl ParallelismPlacement {
    /// The number of devices that the placement takes.
    pub fn devices_used(self) -> (res: u32)
        requires
            self.tp * self.pp <= u32::MAX,
            self.tp * self.pp * self.ep <= u32::MAX,
        ensures
            res == self.tp * self.pp * self.ep,
    {
        self.tp * self.pp * self.ep
    }
}

/// The dtypes of one decoder block.
#[derive(Debug, Clone, Copy, PartialEq, Eq, Hash, Structural)]
pub struct PerLayerDtype {
    pub weight: Dtype,
    pub activation: Dtype,
    pub kv_cache: Dtype,
}

impl PerLayerDtype {
    pub fn uniform(d: Dtype) -> (res: Self)
        ensures
            res == (PerLayerDtype { weight: d, activation: d, kv_cache: d }),
    {
        PerLayerDtype { weight: d, activation: d, kv_cache: d }
    }
}

/// The dtypes of all decoder blocks.
#[derive(Debug, Clone, PartialEq, Eq, Hash)]
pub struct DtypeMap {
    pub per_layer: Vec<PerLayerDtype>,
}

impl DtypeMap {
    /// The same dtype throughout.
    pub fn uniform(num_blocks: usize, d: Dtype) -> (res: Self)
        ensures
            res.per_layer@ == Seq::new(
                num_blocks as nat,
                |i: int| PerLayerDtype { weight: d, activation: d, kv_cache: d },
            ),
    {
        let mut per_layer: Vec<PerLayerDtype> = Vec::new();
        let mut i: usize = 0;
        while i < num_blocks
            invariant
                i <= num_blocks,
                per_layer@.len() == i,
                forall|j: int|
                    0 <= j < i ==> #[trigger] per_layer@[j] == (PerLayerDtype {
                        weight: d,
                        activation: d,
                        kv_cache: d,
                    }),
            decreases num_blocks - i,
        {
            per_layer.push(PerLayerDtype::uniform(d));
            i += 1;
        }
        assert(per_layer@ =~= Seq::new(
            num_blocks as nat,
            |i: int| PerLayerDtype { weight: d, activation: d, kv_cache: d },
        ));
        DtypeMap { per_layer }
    }

    pub fn len(&self) -> (res: usize)
        ensures
            res == self.per_layer@.len(),
    {
        self.per_layer.len()
    }

    pub fn is_empty(&self) -> (res: bool)
        ensures
            res == (self.per_layer@.len() == 0),
    {
        self.per_layer.len() == 0
    }
}

/// How KV cache moves from the prefill pool to the decode pool.
#[derive(Debug, Clone, Copy, PartialEq, Eq, Hash, Structural)]
pub enum KvTransferMode {
    RdmaWrite,
    NcclByLayer,
}

#[derive(Debug, Clone, Copy, PartialEq, Eq, Hash, Structural)]
pub struct TransferTopology {
    pub mode: KvTransferMode,
    /// Whether decode starts while later layers are still in flight.
    pub layer_overlap: bool,
}

/// Separate plans for the prefill pool and the decode pool.
#[derive(Debug, PartialEq)]
pub struct Disaggregation {
    pub prefill: Box<Plan>,
    pub decode: Box<Plan>,
    pub transfer: TransferTopology,
}

/// The complete plan.
#[derive(Debug, PartialEq)]
pub struct Plan {
    pub parallelism: ParallelismPlacement,
    pub kv: KVCacheSpec,
    pub batching: BatchPolicy,
    pub dtype_map: DtypeMap,
    pub execution: ExecutionConfig,
    pub disaggregation: Option<Disaggregation>,
    pub model_meta: ModelMeta,
}

/// Whether the dtype map has one entry per decoder block.
pub open spec fn covered(p: Plan) -> bool {
    p.dtype_map.per_layer@.len() == p.model_meta.num_layers
}

/// The first plan whose dtype map does not cover its model: the plan itself, then those of
/// its prefill pool, then those of its decode pool.
pub open spec fn first_uncovered(p: Plan) -> Option<Plan>
    decreases p,
{
    if !covered(p) {
        Some(p)
    } else {
        match p.disaggregation {
            None => None,
            Some(d) => match first_uncovered(*d.prefill) {
                Some(q) => Some(q),
                None => first_uncovered(*d.decode),
            },
        }
    }
}

impl Plan {
    pub fn num_layers(&self) -> (res: usize)
        ensures
            res == self.model_meta.num_layers,
    {
        self.model_meta.num_layers
    }

    /// Checks that every dtype map, those of the pools included, has one entry per decoder
    /// block.
    pub fn validate(&self) -> (res: Result<(), PlanError>)
        ensures
            res == match first_uncovered(*self) {
                None => Ok::<(), PlanError>(()),
                Some(q) => Err(
                    PlanError::DtypeMapLengthMismatch {
                        expected: q.model_meta.num_layers,
                        actual: q.dtype_map.per_layer@.len() as usize,
                    },
                ),
            },
        decreases self,
    {
        if self.dtype_map.len() != self.model_meta.num_layers {
            return Err(
                PlanError::DtypeMapLengthMismatch {
                    expected: self.model_meta.num_layers,
                    actual: self.dtype_map.len(),
                },
            );
        }
        if let Some(d) = &self.disaggregation {
            match d.prefill.validate() {
                Ok(()) => {},
                Err(e) => {
                    return Err(e);
                },
            }
            return d.decode.validate();
        }
        Ok(())
    }
}

/// A plan is accepted exactly when its dtype map has one entry per decoder block, and the plans
/// of its prefill and decode pools are accepted too; a refusal names the numbers of a plan
/// that does not have one.
pub proof fn accepted_plans_cover_every_block(
    p: &Plan,
    res: Result<(), PlanError>,
    prefill: Result<(), PlanError>,
    decode: Result<(), PlanError>,
)
    requires
        call_ensures(Plan::validate, (p,), res),
        p.disaggregation is Some ==> call_ensures(
            Plan::validate,
            (&*p.disaggregation->0.prefill,),
            prefill,
        ) && call_ensures(Plan::validate, (&*p.disaggregation->0.decode,), decode),
    ensures
        res is Ok <==> {
            &&& p.dtype_map.per_layer@.len() == p.model_meta.num_layers
            &&& p.disaggregation is Some ==> prefill is Ok && decode is Ok
        },
        p.dtype_map.per_layer@.len() != p.model_meta.num_layers ==> res == Err::<(), _>(
            PlanError::DtypeMapLengthMismatch {
                expected: p.model_meta.num_layers,
                actual: p.dtype_map.per_layer@.len() as usize,
            },
        ),
        p.dtype_map.per_layer@.len() == p.model_meta.num_layers && p.disaggregation is Some ==> res
            == if prefill is Err {
            prefill
        } else {
            decode
        },
{
    if p.dtype_map.per_layer@.len() == p.model_meta.num_layers && p.disaggregation is Some {
        let d = p.disaggregation->0;
        assert(covered(*p));
        if prefill is Ok {
            assert(first_uncovered(*d.prefill) is None);
        }
    }
}

} // verus!
