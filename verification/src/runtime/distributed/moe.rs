//! Expert routing: which experts a token goes to, and what is bound for them.

use vstd::prelude::*;

use crate::ieee::Ieee32;
use crate::runtime::distributed::handoff::{segment_error, unknown_tensor, RankExecError};
use crate::runtime::distributed::rank_plan::HandoffId;
use crate::runtime::distributed::segment_runner::SegmentRunner;
use crate::text::{decimal, push_decimal};

verus! {

/// Bytes of one gate scalar in the resident gate buffer.
pub const GATE_ELEM_BYTES: usize = 2;

/// A device buffer bound to a segment's input.
#[derive(Debug, Clone, Copy, PartialEq, Eq, Structural)]
pub struct Bind {
    pub segment_idx: usize,
    pub id: HandoffId,
    pub ptr: u64,
    pub n_bytes: usize,
}

/// Whether expert `a` ranks before expert `b`: by the greater logit, and by the smaller
/// index where equal.
pub open spec fn ranks_before(logits: Seq<Ieee32>, a: int, b: int) -> bool {
    logits[a].key() > logits[b].key() || (logits[a].key() == logits[b].key() && a < b)
}

/// Whether `picked` are the `k` highest-ranking of the experts, in rank order.
pub open spec fn top_experts(logits: Seq<Ieee32>, k: int, picked: Seq<usize>) -> bool {
    &&& picked.len() == if k < logits.len() {
        k
    } else {
        logits.len() as int
    }
    &&& forall|i: int| 0 <= i < picked.len() ==> (#[trigger] picked[i]) < logits.len()
    &&& forall|i: int, j: int|
        0 <= i < j < picked.len() ==> ranks_before(logits, picked[i] as int, picked[j] as int)
    &&& forall|i: int, e: int|
        0 <= i < picked.len() && 0 <= e < logits.len() && !picked.contains(e as usize)
            ==> #[trigger] ranks_before(logits, picked[i] as int, e)
}

/// Whether all logits are numbers.
pub open spec fn no_nan(logits: Seq<Ieee32>) -> bool {
    forall|i: int| 0 <= i < logits.len() ==> !(#[trigger] logits[i]).nan()
}

/// The highest-ranking expert that was not picked yet.
fn best_left(logits: &Vec<Ieee32>, picked: &Vec<usize>) -> (res: Option<usize>)
    requires
        no_nan(logits@),
    ensures
        res matches Some(e) ==> {
            &&& e < logits@.len()
            &&& !picked@.contains(e)
            &&& forall|o: int|
                0 <= o < logits@.len() && !picked@.contains(o as usize) && o != e
                    ==> #[trigger] ranks_before(logits@, e as int, o)
        },
        res is None ==> forall|o: usize| o < logits@.len() ==> #[trigger] picked@.contains(o),
{
    let mut best: Option<usize> = None;
    let mut i: usize = 0;
    while i < logits.len()
        invariant
            i <= logits@.len(),
            no_nan(logits@),
            best matches Some(e) ==> {
                &&& e < i
                &&& !picked@.contains(e)
                &&& forall|o: int|
                    0 <= o < i && !picked@.contains(o as usize) && o != e ==> #[trigger] ranks_before(
                        logits@,
                        e as int,
                        o,
                    )
            },
            best is None ==> forall|o: usize| o < i ==> #[trigger] picked@.contains(o),
        decreases logits.len() - i,
    {
        let mut seen = false;
        let mut j: usize = 0;
        while j < picked.len() && !seen
            invariant
                j <= picked@.len(),
                seen ==> picked@.contains(i),
                !seen ==> forall|k: int| 0 <= k < j ==> picked@[k] != i,
            decreases picked.len() - j + if seen {
                0int
            } else {
                1int
            },
        {
            if picked[j] == i {
                seen = true;
            } else {
                j += 1;
            }
        }
        assert(seen == picked@.contains(i));
        let ghost held = best;
        if !seen {
            assert(!logits@[i as int].nan());
            match best {
                None => {
                    best = Some(i);
                },
                Some(e) => {
                    assert(!logits@[e as int].nan());
                    if logits[i].gt(logits[e]) {
                        best = Some(i);
                    }
                },
            }
        }
        proof {
            if best is Some {
                let e = best->0;
                assert forall|o: int|
                    0 <= o < i + 1 && !picked@.contains(o as usize) && o
                        != e implies #[trigger] ranks_before(logits@, e as int, o) by {
                    if held is Some && o != held->0 && o < i {
                        assert(ranks_before(logits@, held->0 as int, o));
                    }
                }
            }
        }
        i += 1;
    }
    best
}

/// The `k` experts with the greatest logits, greatest first, the smaller index first where
/// equal; all of them if there are fewer.
pub fn top_k(logits: &Vec<Ieee32>, k: usize) -> (res: Vec<usize>)
    requires
        no_nan(logits@),
    ensures
        top_experts(logits@, k as int, res@),
{
    let n: usize = logits.len();
    let mut picked: Vec<usize> = Vec::new();
    while picked.len() < k
        invariant
            n == logits@.len(),
            no_nan(logits@),
            picked@.len() <= k,
            picked@.len() <= logits@.len(),
            top_experts(logits@, picked@.len() as int, picked@),
        ensures
            top_experts(logits@, k as int, picked@),
        decreases k - picked.len(),
    {
        match best_left(logits, &picked) {
            None => {
                proof {
                    picked_all(logits@, picked@);
                }
                break;
            },
            Some(e) => {
                let ghost before = picked@;
                picked.push(e);
                proof {
                    assert forall|i: int| 0 <= i < before.len() implies #[trigger] ranks_before(
                        logits@,
                        before[i] as int,
                        e as int,
                    ) by {
                        assert(!before.contains(e as int as usize));
                    }
                    assert forall|i: int, o: int|
                        0 <= i < picked@.len() && 0 <= o < logits@.len() && !picked@.contains(
                            o as usize,
                        ) implies #[trigger] ranks_before(logits@, picked@[i] as int, o) by {
                        if before.contains(o as usize) {
                            let q = before.index_of(o as usize);
                            assert(picked@[q] == o as usize);
                        }
                        if i == before.len() {
                            if o == e {
                                assert(picked@[before.len() as int] == e);
                            }
                        } else {
                            assert(picked@[i] == before[i]);
                        }
                    }
                    ranked_fit(logits@, picked@);
                }
            },
        }
    }
    picked
}

/// The logits of some experts.
pub open spec fn chosen_logits(logits: Seq<Ieee32>, picked: Seq<usize>) -> Seq<Ieee32> {
    picked.map_values(|e: usize| logits[e as int])
}

/// Whether these gate values are what `softmax` makes of the chosen experts' logits; there are
/// none where no expert is chosen.
pub open spec fn gated<F: Fn(&Vec<Ieee32>) -> Vec<Ieee32>>(
    softmax: F,
    logits: Seq<Ieee32>,
    picked: Seq<usize>,
    gates: Vec<Ieee32>,
) -> bool {
    if picked.len() == 0 {
        gates@.len() == 0
    } else {
        exists|chosen: Vec<Ieee32>|
            chosen@ == chosen_logits(logits, picked) && #[trigger] call_ensures(
                softmax,
                (&chosen,),
                gates,
            )
    }
}

/// The `k` experts with the greatest logits, and their gate values: `softmax` over just their
/// logits, in the same order.
pub fn top_k_softmax<F: Fn(&Vec<Ieee32>) -> Vec<Ieee32>>(
    logits: &Vec<Ieee32>,
    k: usize,
    softmax: &F,
) -> (res: (Vec<usize>, Vec<Ieee32>))
    requires
        no_nan(logits@),
        forall|v: &Vec<Ieee32>| call_requires(*softmax, (v,)),
    ensures
        top_experts(logits@, k as int, res.0@),
        gated(*softmax, logits@, res.0@, res.1),
{
    let picked = top_k(logits, k);
    if picked.len() == 0 {
        return (picked, Vec::new());
    }
    let mut chosen: Vec<Ieee32> = Vec::new();
    let mut i: usize = 0;
    while i < picked.len()
        invariant
            i <= picked@.len(),
            top_experts(logits@, k as int, picked@),
            chosen@ == chosen_logits(logits@, picked@).take(i as int),
        decreases picked.len() - i,
    {
        assert(picked@[i as int] < logits@.len());
        chosen.push(logits[picked[i]]);
        i += 1;
        assert(chosen@ =~= chosen_logits(logits@, picked@).take(i as int));
    }
    assert(chosen@ =~= chosen_logits(logits@, picked@));
    let gates = (*softmax)(&chosen);
    (picked, gates)
}

/// Ranked picks are distinct, so there are no more of them than experts.
proof fn ranked_fit(logits: Seq<Ieee32>, picked: Seq<usize>)
    requires
        forall|i: int| 0 <= i < picked.len() ==> (#[trigger] picked[i]) < logits.len(),
        forall|i: int, j: int|
            0 <= i < j < picked.len() ==> ranks_before(logits, picked[i] as int, picked[j] as int),
    ensures
        picked.no_duplicates(),
        picked.len() <= logits.len(),
{
    assert forall|i: int, j: int| 0 <= i < picked.len() && 0 <= j < picked.len() && i
        != j implies picked[i] != picked[j] by {
        if i < j {
            assert(ranks_before(logits, picked[i] as int, picked[j] as int));
        } else {
            assert(ranks_before(logits, picked[j] as int, picked[i] as int));
        }
    }
    let ints = picked.map_values(|e: usize| e as int);
    assert(ints.no_duplicates());
    ints.unique_seq_to_set();
    let all = vstd::set_lib::set_int_range(0, logits.len() as int);
    vstd::set_lib::lemma_int_range(0, logits.len() as int);
    assert forall|e: int| ints.to_set().contains(e) implies all.contains(e) by {
        let i = ints.index_of(e);
        assert(ints[i] == picked[i] as int);
    }
    vstd::set_lib::lemma_len_subset(ints.to_set(), all);
}

/// If every expert is picked, there are as many picks as experts.
proof fn picked_all(logits: Seq<Ieee32>, picked: Seq<usize>)
    requires
        picked.len() <= logits.len() <= usize::MAX,
        forall|o: usize| o < logits.len() ==> #[trigger] picked.contains(o),
    ensures
        picked.len() == logits.len(),
{
    let all = Seq::new(logits.len(), |i: int| i as usize);
    assert(all.no_duplicates());
    all.unique_seq_to_set();
    assert forall|e: usize| all.to_set().contains(e) implies picked.to_set().contains(e) by {
        let i = all.index_of(e);
        assert(all[i] == i as usize);
        assert(picked.contains(e));
    }
    vstd::set_lib::lemma_len_subset(all.to_set(), picked.to_set());
    picked.lemma_cardinality_of_set();
}

/// The bindings of the picked experts' weights to the slots, in order: three per slot.
pub open spec fn expert_binds(
    ffn: usize,
    picked: Seq<usize>,
    weights: Seq<[(u64, usize); 3]>,
    slots: Seq<[HandoffId; 3]>,
    n: int,
) -> Seq<Bind> {
    Seq::new(
        (3 * n) as nat,
        |b: int|
            {
                let slot = b / 3;
                let w = b % 3;
                let buf = weights[picked[slot] as int]@[w];
                Bind { segment_idx: ffn, id: slots[slot]@[w], ptr: buf.0, n_bytes: buf.1 }
            },
    )
}

impl SegmentRunner {
    /// The experts that the router logits pick for `slots` slots, and their gate values.
    pub fn route_experts<F: Fn(&Vec<Ieee32>) -> Vec<Ieee32>>(
        &self,
        router_id: HandoffId,
        k: usize,
        slots: usize,
        softmax: &F,
    ) -> (res: Result<(Vec<usize>, Vec<Ieee32>), RankExecError>)
        requires
            self.host_value(router_id) is Some ==> no_nan(self.host_value(router_id)->0),
            forall|v: &Vec<Ieee32>| call_requires(*softmax, (v,)),
        ensures
            match self.host_value(router_id) {
                None => res is Err && unknown_tensor(res->Err_0, self.described(router_id)),
                Some(logits) => {
                    &&& res is Ok
                    &&& top_experts(
                        logits,
                        if k < slots {
                            k as int
                        } else {
                            slots as int
                        },
                        (res->Ok_0).0@,
                    )
                    &&& gated(*softmax, logits, (res->Ok_0).0@, (res->Ok_0).1)
                },
            },
    {
        let logits = match self.read_by_id(router_id) {
            Ok(v) => v,
            Err(e) => {
                return Err(e);
            },
        };
        let n: usize = if k < slots {
            k
        } else {
            slots
        };
        Ok(top_k_softmax(&logits, n, softmax))
    }

    /// The bindings that give each slot the weights of the expert picked for it. They are
    /// made in order until one fails: the segment must exist, and every picked expert must
    /// be owned here.
    pub fn bind_experts(
        &self,
        ffn_segment_idx: usize,
        picked: &Vec<usize>,
        expert_weights: &Vec<[(u64, usize); 3]>,
        slot_ids: &Vec<[HandoffId; 3]>,
    ) -> (res: (Vec<Bind>, Result<(), RankExecError>))
        requires
            picked@.len() <= slot_ids@.len(),
        ensures
            picked@.len() == 0 ==> res.1 is Ok && res.0@.len() == 0,
            picked@.len() > 0 && ffn_segment_idx >= self.segments@.len() ==> {
                &&& res.0@.len() == 0
                &&& res.1 is Err
                &&& segment_error(
                    res.1->Err_0,
                    ffn_segment_idx,
                    "MoeRoute FFN segment index out of range"@,
                )
            },
            picked@.len() > 0 && ffn_segment_idx < self.segments@.len() ==> {
                &&& res.1 is Ok <==> forall|i: int|
                    0 <= i < picked@.len() ==> (#[trigger] picked@[i]) < expert_weights@.len()
                &&& res.1 is Ok ==> res.0@ == expert_binds(
                    ffn_segment_idx,
                    picked@,
                    expert_weights@,
                    slot_ids@,
                    picked@.len() as int,
                )
                &&& res.1 is Err ==> exists|n: int|
                    {
                        &&& 0 <= n < picked@.len()
                        &&& (#[trigger] picked@[n]) >= expert_weights@.len()
                        &&& forall|i: int|
                            0 <= i < n ==> (#[trigger] picked@[i]) < expert_weights@.len()
                        &&& res.0@ == expert_binds(
                            ffn_segment_idx,
                            picked@,
                            expert_weights@,
                            slot_ids@,
                            n,
                        )
                        &&& segment_error(
                            res.1->Err_0,
                            ffn_segment_idx,
                            "selected expert "@ + decimal(picked@[n] as nat)
                                + " not in owned set"@,
                        )
                    }
            },
    {
        let mut out: Vec<Bind> = Vec::new();
        if picked.len() == 0 {
            return (out, Ok(()));
        }
        if ffn_segment_idx >= self.segments.len() {
            return (
                out,
                Err(
                    RankExecError::Segment {
                        segment_idx: ffn_segment_idx,
                        detail: "MoeRoute FFN segment index out of range".to_owned(),
                    },
                ),
            );
        }
        let mut slot: usize = 0;
        assert(out@ =~= expert_binds(ffn_segment_idx, picked@, expert_weights@, slot_ids@, 0));
        while slot < picked.len()
            invariant
                picked@.len() <= slot_ids@.len(),
                picked@.len() > 0,
                ffn_segment_idx < self.segments@.len(),
                slot <= picked@.len(),
                forall|i: int| 0 <= i < slot ==> (#[trigger] picked@[i]) < expert_weights@.len(),
                out@ == expert_binds(
                    ffn_segment_idx,
                    picked@,
                    expert_weights@,
                    slot_ids@,
                    slot as int,
                ),
            decreases picked.len() - slot,
        {
            let expert: usize = picked[slot];
            if expert >= expert_weights.len() {
                let mut detail = "selected expert ".to_owned();
                push_decimal(&mut detail, expert as u64);
                detail.append(" not in owned set");
                assert(picked@[slot as int] >= expert_weights@.len());
                return (
                    out,
                    Err(RankExecError::Segment { segment_idx: ffn_segment_idx, detail }),
                );
            }
            let mut w: usize = 0;
            let ghost before = out@;
            while w < 3
                invariant
                    w <= 3,
                    slot < picked@.len() <= slot_ids@.len(),
                    expert == picked@[slot as int],
                    expert < expert_weights@.len(),
                    before == expert_binds(
                        ffn_segment_idx,
                        picked@,
                        expert_weights@,
                        slot_ids@,
                        slot as int,
                    ),
                    out@ == expert_binds(
                        ffn_segment_idx,
                        picked@,
                        expert_weights@,
                        slot_ids@,
                        slot + 1,
                    ).take(3 * slot + w),
                decreases 3 - w,
            {
                let buf = expert_weights[expert][w];
                let id = slot_ids[slot][w];
                out.push(Bind { segment_idx: ffn_segment_idx, id, ptr: buf.0, n_bytes: buf.1 });
                w += 1;
                assert(out@ =~= expert_binds(
                    ffn_segment_idx,
                    picked@,
                    expert_weights@,
                    slot_ids@,
                    slot + 1,
                ).take(3 * slot + w));
            }
            assert(out@ =~= expert_binds(
                ffn_segment_idx,
                picked@,
                expert_weights@,
                slot_ids@,
                slot + 1,
            ));
            slot += 1;
        }
        (out, Ok(()))
    }
}

/// A token goes to the experts with the greatest logits, each once, greatest first: no expert
/// left out has a greater logit than one picked, an expert left out whose logit is as great
/// has the larger index, and `k` are picked, or all where there are fewer.
pub proof fn the_greatest_logits_are_picked(
    logits: &Vec<Ieee32>,
    k: usize,
    picked: Vec<usize>,
    i: int,
    e: usize,
)
    requires
        call_ensures(top_k, (logits, k), picked),
        no_nan(logits@),
        0 <= i < picked@.len(),
        e < logits@.len(),
    ensures
        picked@.len() == k || picked@.len() == logits@.len() < k,
        picked@.no_duplicates(),
        picked@[i] < logits@.len(),
        forall|j: int|
            0 <= j < i ==> !logits@[picked@[i] as int].above(
                logits@[(#[trigger] picked@[j]) as int],
            ),
        !picked@.contains(e) ==> {
            &&& !logits@[e as int].above(logits@[picked@[i] as int])
            &&& logits@[e as int].equals(logits@[picked@[i] as int]) ==> picked@[i] < e
        },
{
    ranked_fit(logits@, picked@);
    assert(!logits@[picked@[i] as int].nan());
    assert(!logits@[e as int].nan());
    if !picked@.contains(e) {
        assert(!picked@.contains(e as int as usize));
        assert(ranks_before(logits@, picked@[i] as int, e as int));
    }
    assert forall|j: int| 0 <= j < i implies !logits@[picked@[i] as int].above(
        logits@[(#[trigger] picked@[j]) as int],
    ) by {
        assert(ranks_before(logits@, picked@[j] as int, picked@[i] as int));
    }
}

/// Gate values are made of the picked experts' own logits, in the order of the picks.
pub proof fn gates_are_of_the_picked<F: Fn(&Vec<Ieee32>) -> Vec<Ieee32>>(
    softmax: F,
    logits: Seq<Ieee32>,
    picked: Seq<usize>,
    gates: Vec<Ieee32>,
)
    requires
        gated(softmax, logits, picked, gates),
        picked.len() > 0,
    ensures
        exists|chosen: Vec<Ieee32>|
            {
                &&& #[trigger] call_ensures(softmax, (&chosen,), gates)
                &&& chosen@.len() == picked.len()
                &&& forall|i: int|
                    0 <= i < picked.len() ==> #[trigger] chosen@[i] == logits[picked[i] as int]
            },
{
    let chosen = choose|chosen: Vec<Ieee32>|
        chosen@ == chosen_logits(logits, picked) && #[trigger] call_ensures(
            softmax,
            (&chosen,),
            gates,
        );
    assert(chosen@.len() == picked.len());
}

/// Every slot is bound to the expert picked for it: each of its three inputs to the weight of
/// the same place, and nothing else is bound.
pub proof fn slots_get_their_experts_weights(
    ffn: usize,
    picked: Seq<usize>,
    weights: Seq<[(u64, usize); 3]>,
    slots: Seq<[HandoffId; 3]>,
    n: int,
    s: int,
    w: int,
)
    requires
        0 <= s < n,
        0 <= w < 3,
    ensures
        expert_binds(ffn, picked, weights, slots, n).len() == 3 * n,
        ({
            let b = expert_binds(ffn, picked, weights, slots, n)[3 * s + w];
            &&& b.segment_idx == ffn
            &&& b.id == slots[s]@[w]
            &&& (b.ptr, b.n_bytes) == weights[picked[s] as int]@[w]
        }),
{
    assert((3 * s + w) / 3 == s && (3 * s + w) % 3 == w);
}

} // verus!
