//! Resolving the artifact's schedule: tensor names become ids, expert weights become
//! resident buffers, gate inputs get their places in the buffer of gate values.

use vstd::prelude::*;

use crate::runtime::distributed::handoff::{segment_error, RankExecError, SequenceStep};
use crate::runtime::distributed::moe::{Bind, GATE_ELEM_BYTES};
use crate::runtime::distributed::pipeline::copy_tokens;
use crate::runtime::distributed::rank_plan::{HandoffId, ResolvedSequenceStep};
use crate::runtime::distributed::segment_runner::{
    grows, interned, interned_is_unique, name_views, SegmentRunner, SegmentSpec,
};
use crate::text::same;

verus! {

/// The product of a shape's extents.
pub open spec fn shape_product(shape: Seq<usize>) -> nat
    decreases shape.len(),
{
    if shape.len() == 0 {
        1
    } else {
        shape_product(shape.drop_last()) * shape.last() as nat
    }
}

/// Whether the product can be formed from the left without leaving `usize`, with room for
/// a factor.
pub open spec fn shape_fits(shape: Seq<usize>, factor: nat) -> bool {
    forall|n: int| 0 <= n <= shape.len() ==> #[trigger] shape_product(shape.take(n)) * factor
        <= usize::MAX
}

/// The number of elements of a shape.
fn numel(shape: &Vec<usize>) -> (res: usize)
    requires
        shape_fits(shape@, 1),
    ensures
        res == shape_product(shape@),
{
    let mut n: usize = 1;
    let mut i: usize = 0;
    while i < shape.len()
        invariant
            i <= shape@.len(),
            shape_fits(shape@, 1),
            n == shape_product(shape@.take(i as int)),
        decreases shape.len() - i,
    {
        assert(shape@.take(i + 1).drop_last() =~= shape@.take(i as int));
        assert(shape_product(shape@.take(i + 1)) * 1 <= usize::MAX);
        n = n * shape[i];
        i += 1;
    }
    assert(shape@.take(i as int) =~= shape@);
    n
}

/// The pointer that a table of resident weights gives a name: its first entry.
pub open spec fn resident_ptr(table: Seq<(String, u64)>, name: Seq<char>) -> Option<u64>
    decreases table.len(),
{
    if table.len() == 0 {
        None
    } else if table[0].0@ == name {
        Some(table[0].1)
    } else {
        resident_ptr(table.drop_first(), name)
    }
}

/// The shape that a segment declares for a weight: its first declaration.
pub open spec fn declared_shape(weights: Seq<(String, Vec<usize>)>, name: Seq<char>) -> Option<
    Seq<usize>,
>
    decreases weights.len(),
{
    if weights.len() == 0 {
        None
    } else if weights[0].0@ == name {
        Some(weights[0].1@)
    } else {
        declared_shape(weights.drop_first(), name)
    }
}

/// What is wrong with an expert weight: it is not resident, or its shape is unknown.
pub open spec fn weight_fault(
    resident: Seq<(String, u64)>,
    weights: Seq<(String, Vec<usize>)>,
    name: Seq<char>,
) -> Option<Seq<char>> {
    if resident_ptr(resident, name) is None {
        Some("expert weight "@ + name + " not resident"@)
    } else if declared_shape(weights, name) is None {
        Some("expert weight "@ + name + " shape unknown"@)
    } else {
        None
    }
}

/// The buffer of an expert weight: its pointer, and two bytes per element.
pub open spec fn weight_buffer(
    resident: Seq<(String, u64)>,
    weights: Seq<(String, Vec<usize>)>,
    name: Seq<char>,
) -> (u64, usize) {
    (
        resident_ptr(resident, name)->0,
        (shape_product(declared_shape(weights, name)->0) * 2) as usize,
    )
}

/// Whether the byte counts of a segment's weights fit.
pub open spec fn weights_fit(weights: Seq<(String, Vec<usize>)>) -> bool {
    forall|i: int| 0 <= i < weights.len() ==> shape_fits((#[trigger] weights[i]).1@, 2)
}

fn expert_detail(name: &str, why: &str) -> (res: String)
    ensures
        res@ == "expert weight "@ + name@ + why@,
{
    let mut s = "expert weight ".to_owned();
    s.append(name);
    s.append(why);
    s
}

/// Finds the buffer of one expert weight.
fn find_weight(
    ffn_segment_idx: usize,
    resident: &Vec<(String, u64)>,
    weights: &Vec<(String, Vec<usize>)>,
    name: &str,
) -> (res: Result<(u64, usize), RankExecError>)
    requires
        weights_fit(weights@),
    ensures
        match weight_fault(resident@, weights@, name@) {
            None => res == Ok::<_, RankExecError>(weight_buffer(resident@, weights@, name@)),
            Some(why) => res is Err && segment_error(res->Err_0, ffn_segment_idx, why),
        },
{
    let mut i: usize = 0;
    let mut ptr: Option<u64> = None;
    assert(resident@.skip(0) =~= resident@);
    while i < resident.len() && ptr.is_none()
        invariant
            i <= resident@.len(),
            ptr is None ==> resident_ptr(resident@, name@) == resident_ptr(
                resident@.skip(i as int),
                name@,
            ),
            ptr is Some ==> resident_ptr(resident@, name@) == ptr,
        decreases resident.len() - i,
    {
        assert(resident@.skip(i as int).drop_first() =~= resident@.skip(i + 1));
        if same(resident[i].0.as_str(), name) {
            ptr = Some(resident[i].1);
        }
        i += 1;
    }
    let ptr: u64 = match ptr {
        Some(p) => p,
        None => {
            return Err(
                RankExecError::Segment {
                    segment_idx: ffn_segment_idx,
                    detail: expert_detail(name, " not resident"),
                },
            );
        },
    };
    let mut j: usize = 0;
    assert(weights@.skip(0) =~= weights@);
    while j < weights.len()
        invariant
            j <= weights@.len(),
            weights_fit(weights@),
            resident_ptr(resident@, name@) == Some(ptr),
            declared_shape(weights@, name@) == declared_shape(weights@.skip(j as int), name@),
        decreases weights.len() - j,
    {
        assert(weights@.skip(j as int).drop_first() =~= weights@.skip(j + 1));
        if same(weights[j].0.as_str(), name) {
            let shape = &weights[j].1;
            proof {
                assert(shape_fits(weights@[j as int].1@, 2));
                assert forall|n: int| 0 <= n <= shape@.len() implies #[trigger] shape_product(
                    shape@.take(n),
                ) * 1 <= usize::MAX by {
                    assert(shape_product(shape@.take(n)) * 2 <= usize::MAX);
                }
                assert(shape@.take(shape@.len() as int) =~= shape@);
                assert(shape_product(shape@.take(shape@.len() as int)) * 2 <= usize::MAX);
            }
            return Ok((ptr, numel(shape) * 2));
        }
        j += 1;
    }
    Err(
        RankExecError::Segment {
            segment_idx: ffn_segment_idx,
            detail: expert_detail(name, " shape unknown"),
        },
    )
}

/// The name of weight `f`, counting three per expert.
pub open spec fn expert_weight_name(names: Seq<[String; 3]>, f: int) -> Seq<char> {
    names[f / 3]@[f % 3]@
}

/// Whether the buffers are those of the named expert weights.
pub open spec fn experts_resolved(
    resident: Seq<(String, u64)>,
    weights: Seq<(String, Vec<usize>)>,
    names: Seq<[String; 3]>,
    out: Seq<[(u64, usize); 3]>,
) -> bool {
    &&& out.len() == names.len()
    &&& forall|e: int, w: int|
        0 <= e < out.len() && 0 <= w < 3 ==> #[trigger] out[e]@[w] == weight_buffer(
            resident,
            weights,
            names[e]@[w]@,
        )
}

/// Whether a list of expert weights can be resolved.
pub open spec fn experts_resolvable(
    resident: Seq<(String, u64)>,
    weights: Seq<(String, Vec<usize>)>,
    names: Seq<[String; 3]>,
) -> bool {
    forall|f: int|
        0 <= f < 3 * names.len() ==> weight_fault(
            resident,
            weights,
            #[trigger] expert_weight_name(names, f),
        ) is None
}

/// Whether the error is that of the first expert weight that cannot be resolved.
pub open spec fn first_weight_error(
    ffn: usize,
    resident: Seq<(String, u64)>,
    weights: Seq<(String, Vec<usize>)>,
    names: Seq<[String; 3]>,
    e: RankExecError,
) -> bool {
    exists|f: int|
        {
            &&& 0 <= f < 3 * names.len()
            &&& weight_fault(resident, weights, #[trigger] expert_weight_name(names, f)) is Some
            &&& forall|g: int|
                0 <= g < f ==> weight_fault(
                    resident,
                    weights,
                    #[trigger] expert_weight_name(names, g),
                ) is None
            &&& segment_error(
                e,
                ffn,
                weight_fault(resident, weights, expert_weight_name(names, f))->0,
            )
        }
}

impl SegmentRunner {
    /// Whether the experts of a segment can be resolved.
    pub open spec fn experts_available(
        &self,
        resident: Seq<Vec<(String, u64)>>,
        ffn: usize,
        names: Seq<[String; 3]>,
    ) -> bool {
        &&& ffn < self.segments@.len()
        &&& experts_resolvable(
            resident[ffn as int]@,
            self.segments@[ffn as int].weight_names@,
            names,
        )
    }

    /// The error owed where they cannot.
    pub open spec fn experts_error(
        &self,
        resident: Seq<Vec<(String, u64)>>,
        ffn: usize,
        names: Seq<[String; 3]>,
        e: RankExecError,
    ) -> bool {
        if ffn >= self.segments@.len() {
            segment_error(e, ffn, "MoeRoute FFN segment index out of range"@)
        } else {
            first_weight_error(
                ffn,
                resident[ffn as int]@,
                self.segments@[ffn as int].weight_names@,
                names,
                e,
            )
        }
    }

    /// Resolves the weights of a segment's experts to their resident buffers. `resident`
    /// lists, per segment, the weights that are on the device.
    pub fn resolve_expert_weights(
        &self,
        ffn_segment_idx: usize,
        names: &Vec<[String; 3]>,
        resident: &Vec<Vec<(String, u64)>>,
    ) -> (res: Result<Vec<[(u64, usize); 3]>, RankExecError>)
        requires
            resident@.len() == self.segments@.len(),
            forall|s: int|
                0 <= s < self.segments@.len() ==> weights_fit(
                    (#[trigger] self.segments@[s]).weight_names@,
                ),
        ensures
            res is Ok <==> self.experts_available(resident@, ffn_segment_idx, names@),
            res is Ok ==> experts_resolved(
                resident@[ffn_segment_idx as int]@,
                self.segments@[ffn_segment_idx as int].weight_names@,
                names@,
                res->Ok_0@,
            ),
            res is Err ==> self.experts_error(resident@, ffn_segment_idx, names@, res->Err_0),
    {
        if ffn_segment_idx >= self.segments.len() {
            return Err(
                RankExecError::Segment {
                    segment_idx: ffn_segment_idx,
                    detail: "MoeRoute FFN segment index out of range".to_owned(),
                },
            );
        }
        let table = &resident[ffn_segment_idx];
        let weights = &self.segments[ffn_segment_idx].weight_names;
        assert(weights_fit(self.segments@[ffn_segment_idx as int].weight_names@));
        let mut out: Vec<[(u64, usize); 3]> = Vec::new();
        let mut e: usize = 0;
        while e < names.len()
            invariant
                e <= names@.len(),
                ffn_segment_idx < self.segments@.len(),
                resident@.len() == self.segments@.len(),
                *table == resident@[ffn_segment_idx as int],
                *weights == self.segments@[ffn_segment_idx as int].weight_names,
                weights_fit(weights@),
                out@.len() == e,
                forall|f: int|
                    0 <= f < 3 * e ==> weight_fault(
                        table@,
                        weights@,
                        #[trigger] expert_weight_name(names@, f),
                    ) is None,
                forall|k: int, w: int|
                    0 <= k < e && 0 <= w < 3 ==> #[trigger] out@[k]@[w] == weight_buffer(
                        table@,
                        weights@,
                        names@[k]@[w]@,
                    ),
            decreases names.len() - e,
        {
            assert(expert_weight_name(names@, 3 * e) == names@[e as int]@[0]@);
            assert(expert_weight_name(names@, 3 * e + 1) == names@[e as int]@[1]@);
            assert(expert_weight_name(names@, 3 * e + 2) == names@[e as int]@[2]@);
            let a = match find_weight(ffn_segment_idx, table, weights, names[e][0].as_str()) {
                Ok(b) => b,
                Err(x) => {
                    return Err(x);
                },
            };
            let b = match find_weight(ffn_segment_idx, table, weights, names[e][1].as_str()) {
                Ok(b) => b,
                Err(x) => {
                    assert forall|g: int| 0 <= g < 3 * e + 1 implies weight_fault(
                        table@,
                        weights@,
                        #[trigger] expert_weight_name(names@, g),
                    ) is None by {
                        if g == 3 * e {
                        }
                    }
                    return Err(x);
                },
            };
            let c = match find_weight(ffn_segment_idx, table, weights, names[e][2].as_str()) {
                Ok(b) => b,
                Err(x) => {
                    assert forall|g: int| 0 <= g < 3 * e + 2 implies weight_fault(
                        table@,
                        weights@,
                        #[trigger] expert_weight_name(names@, g),
                    ) is None by {
                        if g == 3 * e || g == 3 * e + 1 {
                        }
                    }
                    return Err(x);
                },
            };
            let triple = [a, b, c];
            out.push(triple);
            assert forall|f: int| 0 <= f < 3 * (e + 1) implies weight_fault(
                table@,
                weights@,
                #[trigger] expert_weight_name(names@, f),
            ) is None by {
                if f == 3 * e || f == 3 * e + 1 || f == 3 * e + 2 {
                }
            }
            assert forall|k: int, w: int| 0 <= k < e + 1 && 0 <= w < 3 implies #[trigger] out@[k]@[w]
                == weight_buffer(table@, weights@, names@[k]@[w]@) by {
                if k == e {
                    assert(w == 0 || w == 1 || w == 2);
                }
            }
            e += 1;
        }
        Ok(out)
    }
}

/// Whether an id stands for a name in a table.
pub open spec fn stands_for(table: Seq<Seq<char>>, id: HandoffId, name: Seq<char>) -> bool {
    id.0 < table.len() && table[id.0 as int] == name
}

/// Whether three ids stand for three names.
pub open spec fn triple_stands(table: Seq<Seq<char>>, ids: [HandoffId; 3], names: [String; 3]) -> bool {
    forall|w: int| 0 <= w < 3 ==> stands_for(table, #[trigger] ids@[w], names@[w]@)
}

/// Whether a resolved step says what a step of the artifact says.
pub open spec fn resolved_as(
    table: Seq<Seq<char>>,
    segments: Seq<SegmentSpec>,
    resident: Seq<Vec<(String, u64)>>,
    step: SequenceStep,
    r: ResolvedSequenceStep,
) -> bool {
    match step {
        SequenceStep::ExecuteSegment { device_idx, segment_idx } => {
            r == ResolvedSequenceStep::ExecuteSegment { device_idx, segment_idx }
        },
        SequenceStep::Collective { collective, participants, tensor, shape, dtype } => {
            &&& r is Collective
            &&& r->collective == collective
            &&& r->participants@ == participants@
            &&& stands_for(table, r->tensor, tensor@)
            &&& r->elems == if shape_product(shape@) == 0 {
                1
            } else {
                shape_product(shape@)
            }
        },
        SequenceStep::MoeRoute {
            device_idx,
            block,
            ffn_segment_idx,
            router_tensor,
            top_k,
            expert_weight_names,
            slot_weight_names,
            slot_gate_names,
        } => {
            &&& r is MoeRoute
            &&& r->MoeRoute_device_idx == device_idx
            &&& r->ffn_segment_idx == ffn_segment_idx
            &&& stands_for(table, r->router_id, router_tensor@)
            &&& r->top_k == top_k
            &&& r->block == block
            &&& ffn_segment_idx < segments.len()
            &&& experts_resolved(
                resident[ffn_segment_idx as int]@,
                segments[ffn_segment_idx as int].weight_names@,
                expert_weight_names@,
                r->expert_weights@,
            )
            &&& r->slot_ids@.len() == slot_weight_names@.len()
            &&& forall|s: int|
                0 <= s < slot_weight_names@.len() ==> triple_stands(
                    table,
                    #[trigger] r->slot_ids@[s],
                    slot_weight_names@[s],
                )
            &&& r->gate_ids@.len() == slot_gate_names@.len()
            &&& forall|s: int|
                0 <= s < slot_gate_names@.len() ==> stands_for(
                    table,
                    #[trigger] r->gate_ids@[s],
                    slot_gate_names@[s]@,
                )
        },
    }
}

/// A resolved step stays one while the table grows.
proof fn resolution_survives(
    table: Seq<Seq<char>>,
    grown: Seq<Seq<char>>,
    segments: Seq<SegmentSpec>,
    resident: Seq<Vec<(String, u64)>>,
    step: SequenceStep,
    r: ResolvedSequenceStep,
)
    requires
        resolved_as(table, segments, resident, step, r),
        grows(table, grown),
    ensures
        resolved_as(grown, segments, resident, step, r),
{
    if let SequenceStep::MoeRoute { slot_weight_names, slot_gate_names, .. } = step {
        assert forall|s: int| 0 <= s < slot_weight_names@.len() implies triple_stands(
            grown,
            #[trigger] r->slot_ids@[s],
            slot_weight_names@[s],
        ) by {
            assert(triple_stands(table, r->slot_ids@[s], slot_weight_names@[s]));
            assert forall|w: int| 0 <= w < 3 implies stands_for(
                grown,
                #[trigger] r->slot_ids@[s]@[w],
                slot_weight_names@[s]@[w]@,
            ) by {
                assert(stands_for(table, r->slot_ids@[s]@[w], slot_weight_names@[s]@[w]@));
            }
        }
        assert forall|s: int| 0 <= s < slot_gate_names@.len() implies stands_for(
            grown,
            #[trigger] r->gate_ids@[s],
            slot_gate_names@[s]@,
        ) by {
            assert(stands_for(table, r->gate_ids@[s], slot_gate_names@[s]@));
        }
    }
}

/// A table after some names were interned in order.
pub open spec fn interned_list(table: Seq<Seq<char>>, wanted: Seq<Seq<char>>) -> Seq<Seq<char>>
    decreases wanted.len(),
{
    if wanted.len() == 0 {
        table
    } else {
        interned(interned_list(table, wanted.drop_last()), wanted.last())
    }
}

proof fn interning_adds_up(table: Seq<Seq<char>>, a: Seq<Seq<char>>, b: Seq<Seq<char>>)
    ensures
        interned_list(table, a + b) == interned_list(interned_list(table, a), b),
    decreases b.len(),
{
    if b.len() == 0 {
        assert(a + b =~= a);
    } else {
        assert((a + b).drop_last() =~= a + b.drop_last());
        interning_adds_up(table, a, b.drop_last());
    }
}

/// The names of some triples, one after the other.
pub open spec fn triple_names(names: Seq<[String; 3]>) -> Seq<Seq<char>>
    decreases names.len(),
{
    if names.len() == 0 {
        seq![]
    } else {
        triple_names(names.drop_last()) + seq![
            names.last()@[0]@,
            names.last()@[1]@,
            names.last()@[2]@,
        ]
    }
}

/// The names that a step mentions, in the order in which they are interned.
pub open spec fn names_of(step: SequenceStep) -> Seq<Seq<char>> {
    match step {
        SequenceStep::ExecuteSegment { .. } => seq![],
        SequenceStep::Collective { tensor, .. } => seq![tensor@],
        SequenceStep::MoeRoute { router_tensor, slot_weight_names, slot_gate_names, .. } => {
            seq![router_tensor@] + triple_names(slot_weight_names@) + name_views(slot_gate_names@)
        },
    }
}

/// The names that a schedule mentions, in the order in which they are interned.
pub open spec fn names_in(schedule: Seq<SequenceStep>) -> Seq<Seq<char>>
    decreases schedule.len(),
{
    if schedule.len() == 0 {
        seq![]
    } else {
        names_in(schedule.drop_last()) + names_of(schedule.last())
    }
}

/// The names that a step may intern at most.
pub open spec fn step_names(step: SequenceStep) -> nat {
    match step {
        SequenceStep::ExecuteSegment { .. } => 0,
        SequenceStep::Collective { .. } => 1,
        SequenceStep::MoeRoute { slot_weight_names, slot_gate_names, .. } => 1 + 3
            * slot_weight_names@.len() + slot_gate_names@.len(),
    }
}

/// The names that a schedule may intern at most.
pub open spec fn schedule_names(schedule: Seq<SequenceStep>) -> nat
    decreases schedule.len(),
{
    if schedule.len() == 0 {
        0
    } else {
        schedule_names(schedule.drop_last()) + step_names(schedule.last())
    }
}

proof fn schedule_names_grow(schedule: Seq<SequenceStep>, n: int)
    requires
        0 <= n <= schedule.len(),
    ensures
        schedule_names(schedule.take(n)) <= schedule_names(schedule),
    decreases schedule.len(),
{
    if n == schedule.len() {
        assert(schedule.take(n) =~= schedule);
    } else {
        assert(schedule.drop_last().take(n) =~= schedule.take(n));
        schedule_names_grow(schedule.drop_last(), n);
    }
}

/// Whether a step's sizes fit.
pub open spec fn step_fits(step: SequenceStep) -> bool {
    match step {
        SequenceStep::Collective { shape, .. } => shape_fits(shape@, 1),
        _ => true,
    }
}

/// Whether a step can be resolved.
pub open spec fn step_resolvable(
    runner: SegmentRunner,
    resident: Seq<Vec<(String, u64)>>,
    step: SequenceStep,
) -> bool {
    match step {
        SequenceStep::MoeRoute { ffn_segment_idx, expert_weight_names, .. } => {
            runner.experts_available(resident, ffn_segment_idx, expert_weight_names@)
        },
        _ => true,
    }
}

/// Whether the error is the one that a step which cannot be resolved gives.
pub open spec fn step_error(
    runner: SegmentRunner,
    resident: Seq<Vec<(String, u64)>>,
    step: SequenceStep,
    e: RankExecError,
) -> bool {
    match step {
        SequenceStep::MoeRoute { ffn_segment_idx, expert_weight_names, .. } => {
            runner.experts_error(resident, ffn_segment_idx, expert_weight_names@, e)
        },
        _ => false,
    }
}

/// Whether a store has only gained names: everything that it held is still there.
pub open spec fn only_gained_names(before: SegmentRunner, after: SegmentRunner) -> bool {
    &&& after.wf()
    &&& grows(before.table(), after.table())
    &&& after == (SegmentRunner {
        names: after.names,
        kind: after.kind,
        f32_slots: after.f32_slots,
        i32_slots: after.i32_slots,
        device_slots: after.device_slots,
        kv_device_base: after.kv_device_base,
        kv_full_elems: after.kv_full_elems,
        ..before
    })
    &&& forall|i: int|
        0 <= i < before.names@.len() ==> {
            &&& #[trigger] after.f32_slots@[i] == before.f32_slots@[i]
            &&& after.i32_slots@[i] == before.i32_slots@[i]
            &&& after.device_slots@[i] == before.device_slots@[i]
            &&& after.kv_device_base@[i] == before.kv_device_base@[i]
            &&& after.kv_full_elems@[i] == before.kv_full_elems@[i]
        }
}

proof fn gains_add_up(a: SegmentRunner, b: SegmentRunner, c: SegmentRunner)
    requires
        only_gained_names(a, b),
        only_gained_names(b, c),
    ensures
        only_gained_names(a, c),
{
    assert(a.table().len() == a.names@.len());
    assert(b.table().len() == b.names@.len());
    assert forall|i: int| 0 <= i < a.names@.len() implies ({
        &&& #[trigger] c.f32_slots@[i] == a.f32_slots@[i]
        &&& c.i32_slots@[i] == a.i32_slots@[i]
        &&& c.device_slots@[i] == a.device_slots@[i]
        &&& c.kv_device_base@[i] == a.kv_device_base@[i]
        &&& c.kv_full_elems@[i] == a.kv_full_elems@[i]
    }) by {
        assert(b.f32_slots@[i] == a.f32_slots@[i]);
    }
}

impl SegmentRunner {
    /// Interns a name on the way of resolving a schedule.
    fn gain_name(&mut self, name: &str) -> (res: HandoffId)
        requires
            old(self).wf(),
            old(self).names@.len() < u32::MAX,
        ensures
            only_gained_names(*old(self), *final(self)),
            stands_for(final(self).table(), res, name@),
            final(self).names@.len() <= old(self).names@.len() + 1,
            final(self).table() == interned_list(old(self).table(), seq![name@]),
    {
        let ghost before = self.table();
        let id = self.intern_name(name);
        proof {
            interned_is_unique(before, name@);
            let after = self.table();
            assert(after.contains(name@));
            assert(after.index_of(name@) == id.0);
            reveal_with_fuel(interned_list, 2);
            assert(seq![name@].drop_last() =~= seq![]);
        }
        id
    }

    /// Resolves the artifact's schedule. Names are interned on demand; the first expert
    /// weight that cannot be resolved ends the attempt.
    pub fn resolve_schedule(
        &mut self,
        schedule: &Vec<SequenceStep>,
        resident: &Vec<Vec<(String, u64)>>,
    ) -> (res: Result<Vec<ResolvedSequenceStep>, RankExecError>)
        requires
            old(self).wf(),
            resident@.len() == old(self).segments@.len(),
            old(self).names@.len() + schedule_names(schedule@) <= u32::MAX,
            forall|s: int|
                0 <= s < old(self).segments@.len() ==> weights_fit(
                    (#[trigger] old(self).segments@[s]).weight_names@,
                ),
            forall|i: int| 0 <= i < schedule@.len() ==> step_fits(#[trigger] schedule@[i]),
        ensures
            only_gained_names(*old(self), *final(self)),
            res is Ok <==> forall|i: int|
                0 <= i < schedule@.len() ==> step_resolvable(
                    *old(self),
                    resident@,
                    #[trigger] schedule@[i],
                ),
            res is Ok ==> res->Ok_0@.len() == schedule@.len(),
            res is Ok ==> forall|i: int|
                0 <= i < schedule@.len() ==> resolved_as(
                    final(self).table(),
                    old(self).segments@,
                    resident@,
                    schedule@[i],
                    #[trigger] res->Ok_0@[i],
                ),
            res is Err ==> exists|i: int|
                {
                    &&& 0 <= i < schedule@.len()
                    &&& !step_resolvable(*old(self), resident@, #[trigger] schedule@[i])
                    &&& step_error(*old(self), resident@, schedule@[i], res->Err_0)
                    &&& forall|j: int|
                        0 <= j < i ==> step_resolvable(
                            *old(self),
                            resident@,
                            #[trigger] schedule@[j],
                        )
                    &&& final(self).table() == interned_list(
                        old(self).table(),
                        names_in(schedule@.take(i + 1)),
                    )
                },
            res is Ok ==> final(self).table() == interned_list(
                old(self).table(),
                names_in(schedule@),
            ),
    {
        let ghost start = *old(self);
        let mut out: Vec<ResolvedSequenceStep> = Vec::new();
        let mut i: usize = 0;
        while i < schedule.len()
            invariant
                i <= schedule@.len(),
                start == *old(self),
                start.wf(),
                only_gained_names(start, *self),
                resident@.len() == start.segments@.len(),
                start.names@.len() + schedule_names(schedule@) <= u32::MAX,
                self.names@.len() <= start.names@.len() + schedule_names(
                    schedule@.take(i as int),
                ),
                self.table() == interned_list(
                    start.table(),
                    names_in(schedule@.take(i as int)),
                ),
                forall|s: int|
                    0 <= s < start.segments@.len() ==> weights_fit(
                        (#[trigger] start.segments@[s]).weight_names@,
                    ),
                forall|k: int| 0 <= k < schedule@.len() ==> step_fits(#[trigger] schedule@[k]),
                out@.len() == i,
                forall|k: int|
                    0 <= k < i ==> step_resolvable(start, resident@, #[trigger] schedule@[k]),
                forall|k: int|
                    0 <= k < i ==> resolved_as(
                        self.table(),
                        start.segments@,
                        resident@,
                        schedule@[k],
                        #[trigger] out@[k],
                    ),
            decreases schedule.len() - i,
        {
            proof {
                assert(schedule@.take(i + 1).drop_last() =~= schedule@.take(i as int));
                schedule_names_grow(schedule@, i + 1);
                interning_adds_up(
                    start.table(),
                    names_in(schedule@.take(i as int)),
                    names_of(schedule@[i as int]),
                );
            }
            let ghost before = self.table();
            let ghost s0 = *self;
            assert(step_fits(schedule@[i as int]));
            let step = &schedule[i];
            let resolved = match step {
                SequenceStep::ExecuteSegment { device_idx, segment_idx } => {
                    ResolvedSequenceStep::ExecuteSegment {
                        device_idx: *device_idx,
                        segment_idx: *segment_idx,
                    }
                },
                SequenceStep::Collective { collective, participants, tensor, shape, dtype: _ } => {
                    let id = self.gain_name(tensor.as_str());
                    proof {
                        gains_add_up(start, s0, *self);
                    }
                    let n: usize = numel(shape);
                    ResolvedSequenceStep::Collective {
                        collective: *collective,
                        participants: copy_tokens(participants),
                        tensor: id,
                        elems: if n == 0 {
                            1
                        } else {
                            n
                        },
                    }
                },
                SequenceStep::MoeRoute {
                    device_idx,
                    block,
                    ffn_segment_idx,
                    router_tensor,
                    top_k,
                    expert_weight_names,
                    slot_weight_names,
                    slot_gate_names,
                } => {
                    let router_id = self.gain_name(router_tensor.as_str());
                    let ghost s1 = *self;
                    let slot_ids = self.gain_triples(slot_weight_names);
                    let ghost s2 = *self;
                    let ghost t1 = self.table();
                    let gate_ids = self.gain_names(slot_gate_names);
                    let ghost t2 = self.table();
                    proof {
                        gains_add_up(s1, s2, *self);
                        gains_add_up(s0, s1, *self);
                        gains_add_up(start, s0, *self);
                        let first = seq![router_tensor@];
                        let slots = triple_names(slot_weight_names@);
                        interning_adds_up(before, first, slots);
                        interning_adds_up(before, first + slots, name_views(slot_gate_names@));
                    }
                    let expert_weights = match self.resolve_expert_weights(
                        *ffn_segment_idx,
                        expert_weight_names,
                        resident,
                    ) {
                        Ok(w) => w,
                        Err(e) => {
                            assert(!step_resolvable(start, resident@, schedule@[i as int]));
                            return Err(e);
                        },
                    };
                    let r = ResolvedSequenceStep::MoeRoute {
                        device_idx: *device_idx,
                        ffn_segment_idx: *ffn_segment_idx,
                        router_id,
                        top_k: *top_k,
                        block: *block,
                        expert_weights,
                        slot_ids,
                        gate_ids,
                    };
                    proof {
                        assert forall|s: int| 0 <= s < slot_ids@.len() implies triple_stands(
                            t2,
                            #[trigger] slot_ids@[s],
                            slot_weight_names@[s],
                        ) by {
                            assert(triple_stands(t1, slot_ids@[s], slot_weight_names@[s]));
                            assert forall|w: int| 0 <= w < 3 implies stands_for(
                                t2,
                                #[trigger] slot_ids@[s]@[w],
                                slot_weight_names@[s]@[w]@,
                            ) by {
                                assert(stands_for(
                                    t1,
                                    slot_ids@[s]@[w],
                                    slot_weight_names@[s]@[w]@,
                                ));
                            }
                        }
                    }
                    r
                },
            };
            proof {
                let after = self.table();
                assert(grows(before, after));
                assert forall|k: int| 0 <= k < i implies resolved_as(
                    after,
                    start.segments@,
                    resident@,
                    schedule@[k],
                    #[trigger] out@[k],
                ) by {
                    resolution_survives(
                        before,
                        after,
                        start.segments@,
                        resident@,
                        schedule@[k],
                        out@[k],
                    );
                }
                assert(resolved_as(
                    after,
                    start.segments@,
                    resident@,
                    schedule@[i as int],
                    resolved,
                ));
                assert(step_resolvable(start, resident@, schedule@[i as int]));
            }
            out.push(resolved);
            i += 1;
        }
        assert(schedule@.take(i as int) =~= schedule@);
        Ok(out)
    }

    fn gain_names(&mut self, names: &Vec<String>) -> (res: Vec<HandoffId>)
        requires
            old(self).wf(),
            old(self).names@.len() + names@.len() <= u32::MAX,
        ensures
            only_gained_names(*old(self), *final(self)),
            final(self).names@.len() <= old(self).names@.len() + names@.len(),
            res@.len() == names@.len(),
            forall|i: int|
                0 <= i < res@.len() ==> stands_for(
                    final(self).table(),
                    #[trigger] res@[i],
                    names@[i]@,
                ),
            final(self).table() == interned_list(old(self).table(), name_views(names@)),
    {
        let mut out: Vec<HandoffId> = Vec::new();
        let mut i: usize = 0;
        while i < names.len()
            invariant
                i <= names@.len(),
                old(self).names@.len() + names@.len() <= u32::MAX,
                only_gained_names(*old(self), *self),
                self.table() == interned_list(
                    old(self).table(),
                    name_views(names@).take(i as int),
                ),
                self.names@.len() <= old(self).names@.len() + i,
                out@.len() == i,
                forall|k: int|
                    0 <= k < i ==> stands_for(self.table(), #[trigger] out@[k], names@[k]@),
            decreases names.len() - i,
        {
            let ghost s0 = *self;
            let id = self.gain_name(names[i].as_str());
            proof {
                gains_add_up(*old(self), s0, *self);
                let views = name_views(names@);
                interning_adds_up(
                    old(self).table(),
                    views.take(i as int),
                    seq![names@[i as int]@],
                );
                assert(views.take(i + 1) =~= views.take(i as int) + seq![names@[i as int]@]);
            }
            out.push(id);
            i += 1;
        }
        assert(name_views(names@).take(i as int) =~= name_views(names@));
        out
    }

    fn gain_triples(&mut self, names: &Vec<[String; 3]>) -> (res: Vec<[HandoffId; 3]>)
        requires
            old(self).wf(),
            old(self).names@.len() + 3 * names@.len() <= u32::MAX,
        ensures
            only_gained_names(*old(self), *final(self)),
            final(self).names@.len() <= old(self).names@.len() + 3 * names@.len(),
            res@.len() == names@.len(),
            forall|i: int|
                0 <= i < res@.len() ==> triple_stands(
                    final(self).table(),
                    #[trigger] res@[i],
                    names@[i],
                ),
            final(self).table() == interned_list(old(self).table(), triple_names(names@)),
    {
        let mut out: Vec<[HandoffId; 3]> = Vec::new();
        let mut i: usize = 0;
        while i < names.len()
            invariant
                i <= names@.len(),
                old(self).names@.len() + 3 * names@.len() <= u32::MAX,
                only_gained_names(*old(self), *self),
                self.table() == interned_list(
                    old(self).table(),
                    triple_names(names@.take(i as int)),
                ),
                self.names@.len() <= old(self).names@.len() + 3 * i,
                out@.len() == i,
                forall|k: int|
                    0 <= k < i ==> triple_stands(self.table(), #[trigger] out@[k], names@[k]),
            decreases names.len() - i,
        {
            let ghost before = self.table();
            let ghost s0 = *self;
            let a = self.gain_name(names[i][0].as_str());
            let ghost s1 = *self;
            let b = self.gain_name(names[i][1].as_str());
            let ghost s2 = *self;
            let c = self.gain_name(names[i][2].as_str());
            let triple = [a, b, c];
            proof {
                gains_add_up(s1, s2, *self);
                gains_add_up(s0, s1, *self);
                gains_add_up(*old(self), s0, *self);
                let (x, y, z) = (
                    names@[i as int]@[0]@,
                    names@[i as int]@[1]@,
                    names@[i as int]@[2]@,
                );
                interning_adds_up(before, seq![x], seq![y]);
                interning_adds_up(before, seq![x] + seq![y], seq![z]);
                assert(seq![x] + seq![y] + seq![z] =~= seq![x, y, z]);
                interning_adds_up(
                    old(self).table(),
                    triple_names(names@.take(i as int)),
                    seq![x, y, z],
                );
                assert(names@.take(i + 1).drop_last() =~= names@.take(i as int));
                let after = self.table();
                assert forall|k: int| 0 <= k < i implies triple_stands(
                    after,
                    #[trigger] out@[k],
                    names@[k],
                ) by {
                    assert forall|w: int| 0 <= w < 3 implies stands_for(
                        after,
                        #[trigger] out@[k]@[w],
                        names@[k]@[w]@,
                    ) by {
                        assert(stands_for(before, out@[k]@[w], names@[k]@[w]@));
                    }
                }
                assert forall|w: int| 0 <= w < 3 implies stands_for(
                    after,
                    #[trigger] triple@[w],
                    names@[i as int]@[w]@,
                ) by {
                    assert(w == 0 || w == 1 || w == 2);
                }
            }
            out.push(triple);
            i += 1;
        }
        assert(names@.take(i as int) =~= names@);
        out
    }
}

/// The element of the buffer of gate values that block `block`'s slot `slot` has.
pub open spec fn gate_place(block: int, top_k: int, slot: int) -> int {
    block * top_k + slot
}

/// Gate bindings of one step on a rank's device.
pub open spec fn step_gates(
    step: ResolvedSequenceStep,
    rank: u32,
    base: u64,
    top_k: usize,
) -> Seq<Bind> {
    match step {
        ResolvedSequenceStep::MoeRoute { device_idx, ffn_segment_idx, block, gate_ids, .. } => {
            if device_idx == rank {
                Seq::new(
                    gate_ids@.len(),
                    |s: int|
                        Bind {
                            segment_idx: ffn_segment_idx,
                            id: gate_ids@[s],
                            ptr: (base + gate_place(block as int, top_k as int, s)
                                * GATE_ELEM_BYTES) as u64,
                            n_bytes: GATE_ELEM_BYTES,
                        },
                )
            } else {
                seq![]
            }
        },
        _ => seq![],
    }
}

/// Gate bindings of a schedule on a rank's device.
pub open spec fn schedule_gates(
    schedule: Seq<ResolvedSequenceStep>,
    rank: u32,
    base: u64,
    top_k: usize,
) -> Seq<Bind>
    decreases schedule.len(),
{
    if schedule.len() == 0 {
        seq![]
    } else {
        schedule_gates(schedule.drop_last(), rank, base, top_k) + step_gates(
            schedule.last(),
            rank,
            base,
            top_k,
        )
    }
}

/// What is wrong with a step that binds gate values: its segment does not exist, or a
/// place lies past the end of the address space.
pub open spec fn gate_fault(
    segments: nat,
    step: ResolvedSequenceStep,
    rank: u32,
    base: u64,
    top_k: usize,
) -> Option<Seq<char>> {
    match step {
        ResolvedSequenceStep::MoeRoute { device_idx, ffn_segment_idx, block, gate_ids, .. } => {
            if device_idx != rank {
                None
            } else if ffn_segment_idx >= segments {
                Some("MoeRoute FFN segment index out of range (bind_gate_inputs)"@)
            } else if gate_ids@.len() > 0 && base + gate_place(
                block as int,
                top_k as int,
                gate_ids@.len() - 1,
            ) * GATE_ELEM_BYTES > u64::MAX {
                Some("gate buffer offset overflow"@)
            } else {
                None
            }
        },
        _ => None,
    }
}

/// Whether gate `s` of a block lies within the address space.
pub open spec fn gate_in_range(base: u64, block: usize, top_k: usize, s: int) -> bool {
    base + gate_place(block as int, top_k as int, s) * GATE_ELEM_BYTES <= u64::MAX
}

/// Whether the byte offset of gate `s` of a block can be computed, where gate `s - 1` is in
/// range.
pub open spec fn gate_offset_fits(base: u64, block: usize, top_k: usize, s: int) -> bool {
    (s > 0 ==> gate_in_range(base, block, top_k, s - 1)) ==> gate_place(
        block as int,
        top_k as int,
        s,
    ) * GATE_ELEM_BYTES <= usize::MAX
}

/// Whether the byte offset of every gate that a step binds can be computed, up to the first
/// that lies past the end of the address space.
pub open spec fn gate_offsets_fit(
    segments: nat,
    step: ResolvedSequenceStep,
    rank: u32,
    base: u64,
    top_k: usize,
) -> bool {
    match step {
        ResolvedSequenceStep::MoeRoute { device_idx, ffn_segment_idx, block, gate_ids, .. } => {
            device_idx == rank && ffn_segment_idx < segments ==> forall|s: int|
                0 <= s < gate_ids@.len() ==> #[trigger] gate_offset_fits(base, block, top_k, s)
        },
        _ => true,
    }
}

/// Whether the first `s` gates of a step with a fault are those bound before it came up.
pub open spec fn gates_before_fault(
    segments: nat,
    step: ResolvedSequenceStep,
    base: u64,
    top_k: usize,
    s: int,
) -> bool {
    match step {
        ResolvedSequenceStep::MoeRoute { ffn_segment_idx, block, gate_ids, .. } => {
            if ffn_segment_idx >= segments {
                s == 0
            } else {
                &&& 0 <= s < gate_ids@.len()
                &&& !gate_in_range(base, block, top_k, s)
                &&& s > 0 ==> gate_in_range(base, block, top_k, s - 1)
            }
        },
        _ => false,
    }
}

/// Different gates have different places, and every place of a model's blocks lies in a
/// buffer with one element per block and slot.
pub proof fn gate_places_are_distinct(
    num_layers: int,
    top_k: int,
    a: int,
    s: int,
    b: int,
    t: int,
)
    requires
        0 <= a < num_layers,
        0 <= b < num_layers,
        0 <= s < top_k,
        0 <= t < top_k,
    ensures
        gate_place(a, top_k, s) == gate_place(b, top_k, t) ==> a == b && s == t,
        0 <= gate_place(a, top_k, s) < num_layers * top_k,
{
    crate::runtime::distributed::pipeline::job_in_range(a, top_k, s, num_layers);
    crate::runtime::distributed::pipeline::job_in_range(b, top_k, t, num_layers);
}

/// Whether binding a schedule's gates stops at gate `s` of step `i`, the first with a
/// fault, with these bindings made and this error.
pub open spec fn gates_stop_at(
    runner: &SegmentRunner,
    schedule: Seq<ResolvedSequenceStep>,
    rank: u32,
    base: u64,
    top_k: usize,
    i: int,
    s: int,
    bound: Seq<Bind>,
    e: RankExecError,
) -> bool {
    let segments = runner.segments@.len();
    &&& 0 <= i < schedule.len()
    &&& gate_fault(segments, schedule[i], rank, base, top_k) is Some
    &&& forall|j: int|
        0 <= j < i ==> gate_fault(segments, #[trigger] schedule[j], rank, base, top_k) is None
    &&& gates_before_fault(segments, schedule[i], base, top_k, s)
    &&& bound == schedule_gates(schedule.take(i), rank, base, top_k) + step_gates(
        schedule[i],
        rank,
        base,
        top_k,
    ).take(s)
    &&& segment_error(
        e,
        schedule[i]->ffn_segment_idx,
        gate_fault(segments, schedule[i], rank, base, top_k)->0,
    )
}

/// Whether binding a schedule's gates stops with these bindings made and this error.
pub open spec fn gates_stop(
    runner: &SegmentRunner,
    schedule: Seq<ResolvedSequenceStep>,
    rank: u32,
    base: u64,
    top_k: usize,
    bound: Seq<Bind>,
    e: RankExecError,
) -> bool {
    exists|i: int, s: int| #[trigger]
        gates_stop_at(runner, schedule, rank, base, top_k, i, s, bound, e)
}

impl SegmentRunner {
    /// The bindings of a rank's gate inputs to their places in the resident gate buffer;
    /// `gate` is the buffer's base and its slots per block. They are made in order until one
    /// fails.
    pub fn bind_gate_inputs(
        &self,
        schedule: &Vec<ResolvedSequenceStep>,
        rank: u32,
        gate: Option<(u64, usize)>,
    ) -> (res: (Vec<Bind>, Result<(), RankExecError>))
        requires
            gate matches Some(g) ==> forall|i: int|
                0 <= i < schedule@.len() ==> gate_offsets_fit(
                    self.segments@.len(),
                    #[trigger] schedule@[i],
                    rank,
                    g.0,
                    g.1,
                ),
        ensures
            match gate {
                None => res.0@.len() == 0 && res.1 is Err && segment_error(
                    res.1->Err_0,
                    0,
                    "gate buffer not set before bind_gate_inputs"@,
                ),
                Some(g) => {
                    &&& res.1 is Ok <==> forall|i: int|
                        0 <= i < schedule@.len() ==> gate_fault(
                            self.segments@.len(),
                            #[trigger] schedule@[i],
                            rank,
                            g.0,
                            g.1,
                        ) is None
                    &&& res.1 is Ok ==> res.0@ == schedule_gates(schedule@, rank, g.0, g.1)
                    &&& res.1 is Err ==> gates_stop(
                        self,
                        schedule@,
                        rank,
                        g.0,
                        g.1,
                        res.0@,
                        res.1->Err_0,
                    )
                },
            },
    {
        let (base, top_k) = match gate {
            Some(g) => g,
            None => {
                let e = RankExecError::Segment {
                    segment_idx: 0,
                    detail: "gate buffer not set before bind_gate_inputs".to_owned(),
                };
                return (Vec::new(), Err(e));
            },
        };
        let mut out: Vec<Bind> = Vec::new();
        let mut i: usize = 0;
        while i < schedule.len()
            invariant
                i <= schedule@.len(),
                gate == Some((base, top_k)),
                forall|k: int|
                    0 <= k < schedule@.len() ==> gate_offsets_fit(
                        self.segments@.len(),
                        #[trigger] schedule@[k],
                        rank,
                        base,
                        top_k,
                    ),
                forall|k: int|
                    0 <= k < i ==> gate_fault(
                        self.segments@.len(),
                        #[trigger] schedule@[k],
                        rank,
                        base,
                        top_k,
                    ) is None,
                out@ == schedule_gates(schedule@.take(i as int), rank, base, top_k),
            decreases schedule.len() - i,
        {
            assert(schedule@.take(i + 1).drop_last() =~= schedule@.take(i as int));
            assert(gate_offsets_fit(self.segments@.len(), schedule@[i as int], rank, base, top_k));
            let ghost before = out@;
            if let ResolvedSequenceStep::MoeRoute {
                device_idx,
                ffn_segment_idx,
                block,
                gate_ids,
                ..
            } = &schedule[i] {
                if *device_idx == rank {
                    if *ffn_segment_idx >= self.segments.len() {
                        assert(gate_fault(
                            self.segments@.len(),
                            schedule@[i as int],
                            rank,
                            base,
                            top_k,
                        ) is Some);
                        let e = RankExecError::Segment {
                            segment_idx: *ffn_segment_idx,
                            detail:
                                "MoeRoute FFN segment index out of range (bind_gate_inputs)".to_owned(),
                        };
                        assert(before + step_gates(schedule@[i as int], rank, base, top_k).take(0)
                            =~= before);
                        assert(gates_stop_at(
                            self,
                            schedule@,
                            rank,
                            base,
                            top_k,
                            i as int,
                            0,
                            out@,
                            e,
                        ));
                        return (out, Err(e));
                    }
                    let mut s: usize = 0;
                    let ghost want = step_gates(schedule@[i as int], rank, base, top_k);
                    assert(before + want.take(0) =~= before);
                    while s < gate_ids.len()
                        invariant
                            i < schedule@.len(),
                            schedule@[i as int] is MoeRoute,
                            schedule@[i as int]->MoeRoute_device_idx == rank,
                            *ffn_segment_idx == schedule@[i as int]->ffn_segment_idx,
                            *block == schedule@[i as int]->block,
                            *gate_ids == schedule@[i as int]->gate_ids,
                            *ffn_segment_idx < self.segments@.len(),
                            gate == Some((base, top_k)),
                            gate_offsets_fit(
                                self.segments@.len(),
                                schedule@[i as int],
                                rank,
                                base,
                                top_k,
                            ),
                            before == schedule_gates(schedule@.take(i as int), rank, base, top_k),
                            want == step_gates(schedule@[i as int], rank, base, top_k),
                            s <= gate_ids@.len(),
                            s > 0 ==> gate_in_range(base, *block, top_k, s - 1),
                            forall|k: int|
                                0 <= k < i ==> gate_fault(
                                    self.segments@.len(),
                                    #[trigger] schedule@[k],
                                    rank,
                                    base,
                                    top_k,
                                ) is None,
                            out@ == before + want.take(s as int),
                        decreases gate_ids.len() - s,
                    {
                        assert(0 <= *block * top_k) by (nonlinear_arith)
                            requires
                                0 <= *block,
                                0 <= top_k,
                        ;
                        assert(gate_offset_fits(base, *block, top_k, s as int));
                        let off: usize = (*block * top_k + s) * GATE_ELEM_BYTES;
                        let ptr: u64 = match base.checked_add(off as u64) {
                            Some(p) => p,
                            None => {
                                assert(gate_fault(
                                    self.segments@.len(),
                                    schedule@[i as int],
                                    rank,
                                    base,
                                    top_k,
                                ) is Some);
                                let e = RankExecError::Segment {
                                    segment_idx: *ffn_segment_idx,
                                    detail: "gate buffer offset overflow".to_owned(),
                                };
                                assert(gates_stop_at(
                                    self,
                                    schedule@,
                                    rank,
                                    base,
                                    top_k,
                                    i as int,
                                    s as int,
                                    out@,
                                    e,
                                ));
                                return (out, Err(e));
                            },
                        };
                        out.push(
                            Bind {
                                segment_idx: *ffn_segment_idx,
                                id: gate_ids[s],
                                ptr,
                                n_bytes: GATE_ELEM_BYTES,
                            },
                        );
                        s += 1;
                        assert(out@ =~= before + want.take(s as int));
                    }
                    assert(want.take(s as int) =~= want);
                }
            }
            assert(out@ =~= before + step_gates(schedule@[i as int], rank, base, top_k));
            i += 1;
        }
        assert(schedule@.take(i as int) =~= schedule@);
        (out, Ok(()))
    }
}

/// A resolved schedule says what the artifact's schedule says. A collective keeps its kind and
/// its participants, its id reads back as the tensor's name, and it has as many elements as
/// the shape, or one; a segment keeps its device and number; routing keeps its device, block,
/// segment and experts per token, and its ids read back as the names.
pub proof fn resolution_keeps_the_steps(
    table: Seq<Seq<char>>,
    segments: Seq<SegmentSpec>,
    resident: Seq<Vec<(String, u64)>>,
    step: SequenceStep,
    r: ResolvedSequenceStep,
    s: int,
    w: int,
)
    requires
        resolved_as(table, segments, resident, step, r),
    ensures
        match step {
            SequenceStep::ExecuteSegment { device_idx, segment_idx } => {
                &&& r is ExecuteSegment
                &&& r->ExecuteSegment_device_idx == device_idx
                &&& r->segment_idx == segment_idx
            },
            SequenceStep::Collective { collective, participants, tensor, shape, .. } => {
                &&& r is Collective
                &&& r->collective == collective
                &&& r->participants@ == participants@
                &&& table[(r->Collective_tensor).0 as int] == tensor@
                &&& r->elems >= 1
                &&& shape@.len() == 0 ==> r->elems == 1
                &&& shape@.len() == 1 && shape@[0] > 0 ==> r->elems == shape@[0]
                &&& shape@.len() == 2 && shape@[0] * shape@[1] > 0 ==> r->elems == shape@[0]
                    * shape@[1]
            },
            SequenceStep::MoeRoute {
                device_idx,
                block,
                ffn_segment_idx,
                router_tensor,
                top_k,
                slot_weight_names,
                slot_gate_names,
                ..
            } => {
                &&& r is MoeRoute
                &&& r->MoeRoute_device_idx == device_idx
                &&& r->block == block
                &&& r->ffn_segment_idx == ffn_segment_idx
                &&& r->top_k == top_k
                &&& table[(r->router_id).0 as int] == router_tensor@
                &&& 0 <= s < slot_weight_names@.len() && 0 <= w < 3
                    ==> table[r->slot_ids@[s]@[w].0 as int] == slot_weight_names@[s]@[w]@
                &&& 0 <= s < slot_gate_names@.len() ==> table[r->gate_ids@[s].0 as int]
                    == slot_gate_names@[s]@
            },
        },
{
    match step {
        SequenceStep::Collective { shape, .. } => {
            small_shapes(shape@);
        },
        SequenceStep::MoeRoute { slot_weight_names, slot_gate_names, .. } => {
            if 0 <= s < slot_weight_names@.len() && 0 <= w < 3 {
                assert(triple_stands(table, r->slot_ids@[s], slot_weight_names@[s]));
                assert(stands_for(table, r->slot_ids@[s]@[w], slot_weight_names@[s]@[w]@));
            }
            if 0 <= s < slot_gate_names@.len() {
                assert(stands_for(table, r->gate_ids@[s], slot_gate_names@[s]@));
            }
        },
        _ => {},
    }
}

proof fn small_shapes(shape: Seq<usize>)
    ensures
        shape.len() == 0 ==> shape_product(shape) == 1,
        shape.len() == 1 ==> shape_product(shape) == shape[0],
        shape.len() == 2 ==> shape_product(shape) == shape[0] * shape[1],
    decreases shape.len(),
{
    if shape.len() > 0 {
        let front = shape.drop_last();
        small_shapes(front);
        let before = shape_product(front);
        let last = shape.last() as nat;
        assert(shape_product(shape) == before * last);
        if shape.len() == 1 {
            assert(before * last == last) by (nonlinear_arith)
                requires
                    before == 1,
            ;
        }
    }
}

/// An expert's buffers are those of its own weights: the pointer that the name has among the
/// resident weights, and two bytes for every element of the shape that the segment declares
/// for it.
pub proof fn experts_get_their_own_buffers(
    resident: Seq<(String, u64)>,
    weights: Seq<(String, Vec<usize>)>,
    name: Seq<char>,
)
    requires
        weight_fault(resident, weights, name) is None,
        weights_fit(weights),
    ensures
        exists|i: int, j: int|
            {
                &&& 0 <= i < resident.len()
                &&& 0 <= j < weights.len()
                &&& (#[trigger] resident[i]).0@ == name
                &&& (#[trigger] weights[j]).0@ == name
                &&& weight_buffer(resident, weights, name).0 == resident[i].1
                &&& weight_buffer(resident, weights, name).1 == 2 * shape_product(weights[j].1@)
            },
{
    let i = resident_place(resident, name);
    let j = shape_place(weights, name);
    assert(shape_fits(weights[j].1@, 2));
    assert(weights[j].1@.take(weights[j].1@.len() as int) =~= weights[j].1@);
    assert(resident[i].0@ == name && weights[j].0@ == name);
}

proof fn resident_place(table: Seq<(String, u64)>, name: Seq<char>) -> (i: int)
    requires
        resident_ptr(table, name) is Some,
    ensures
        0 <= i < table.len(),
        table[i].0@ == name,
        resident_ptr(table, name) == Some(table[i].1),
    decreases table.len(),
{
    if table[0].0@ == name {
        0
    } else {
        let i = resident_place(table.drop_first(), name);
        i + 1
    }
}

proof fn shape_place(weights: Seq<(String, Vec<usize>)>, name: Seq<char>) -> (j: int)
    requires
        declared_shape(weights, name) is Some,
    ensures
        0 <= j < weights.len(),
        weights[j].0@ == name,
        declared_shape(weights, name) == Some(weights[j].1@),
    decreases weights.len(),
{
    if weights[0].0@ == name {
        0
    } else {
        let j = shape_place(weights.drop_first(), name);
        j + 1
    }
}

/// Gate inputs of a step on its own device are bound to two bytes each, one after the
/// other, in the order of the slots, from the block's place on; on another device none are.
pub proof fn gate_inputs_lie_side_by_side(
    step: ResolvedSequenceStep,
    rank: u32,
    base: u64,
    top_k: usize,
    s: int,
)
    requires
        step is MoeRoute,
        step->MoeRoute_device_idx == rank ==> 0 <= s < step->gate_ids@.len() && base + (step->block
            * top_k + s) * 2 <= u64::MAX,
    ensures
        step->MoeRoute_device_idx != rank ==> step_gates(step, rank, base, top_k).len() == 0,
        step->MoeRoute_device_idx == rank ==> {
            let b = step_gates(step, rank, base, top_k)[s];
            &&& step_gates(step, rank, base, top_k).len() == step->gate_ids@.len()
            &&& b.segment_idx == step->ffn_segment_idx
            &&& b.id == step->gate_ids@[s]
            &&& b.n_bytes == 2
            &&& b.ptr == base + (step->block * top_k + s) * 2
        },
{
    assert(step->block * top_k >= 0) by (nonlinear_arith)
        requires
            step->block >= 0,
            top_k >= 0,
    ;
}

} // verus!
