//! What one rank does at each step of the global schedule.
//!
//! Every rank walks the same schedule. It runs its own device's segments, takes part in
//! the collectives that list it, and skips the rest. This module says, step by step, which
//! actions a rank performs and in what order.

use vstd::prelude::*;

use crate::runtime::collective_kind::CollectiveKind;

verus! {

/// An interned handoff-tensor name.
#[derive(Debug, Clone, Copy, PartialEq, Eq, Hash, Structural)]
pub struct HandoffId(pub u32);

/// A schedule step whose tensor names are interned and whose expert weights are
/// resolved to resident buffers.
#[derive(Debug, Clone)]
pub enum ResolvedSequenceStep {
    /// Run segment `segment_idx` of device `device_idx`.
    ExecuteSegment { device_idx: u32, segment_idx: usize },
    /// Issue a collective over the handoff tensor `tensor` of `elems` elements.
    Collective {
        collective: CollectiveKind,
        participants: Vec<u32>,
        tensor: HandoffId,
        elems: usize,
    },
    /// Route tokens to experts and bind the chosen experts' weights.
    MoeRoute {
        device_idx: u32,
        ffn_segment_idx: usize,
        router_id: HandoffId,
        top_k: usize,
        block: usize,
        /// Per owned expert, its three weight buffers as pointer and byte count.
        expert_weights: Vec<[(u64, usize); 3]>,
        /// Per slot, the ids of its three weight inputs.
        slot_ids: Vec<[HandoffId; 3]>,
        /// Per slot, the id of its gate input.
        gate_ids: Vec<HandoffId>,
    },
}

/// The shared-memory all-reduce that a transport offers.
#[derive(Debug, Clone, Copy, PartialEq, Eq, Structural)]
pub struct ShmInfo {
    pub ptr: u64,
    pub rank: i32,
    pub slot_bytes: i32,
    pub max_elems: usize,
}

/// One thing that a rank does. `Read` leaves a tensor's value in the rank's buffer; the
/// transfers work on that buffer; `Write` stores it.
#[derive(Debug, Clone, Copy, PartialEq, Eq, Structural)]
pub enum RankAction {
    RunSegment { segment_idx: usize },
    Read { tensor: HandoffId },
    Write { tensor: HandoffId },
    Send { to: usize },
    Recv { from: usize, elems: usize },
    AllReduceSum,
    AllGather,
    Broadcast { root: usize },
    /// All-reduce a device buffer in place through shared memory.
    ShmAllReduce { ptr: u64, shm: ShmInfo, elems: usize },
    /// All-reduce a device buffer in place through the transport.
    DeviceAllReduce { ptr: u64, elems: usize },
    /// Route the step's experts.
    RouteMoe,
    /// Stop with an error: the collective has no place in a rank's walk.
    Unsupported { kind: CollectiveKind },
}

/// Whether a rank takes part in a collective.
pub open spec fn takes_part(participants: Seq<u32>, rank: usize) -> bool {
    exists|i: int| 0 <= i < participants.len() && #[trigger] participants[i] as usize == rank
}

/// The sender of a stage handoff: the first participant, or rank zero.
pub open spec fn sender_of(participants: Seq<u32>) -> usize {
    if participants.len() > 0 {
        participants[0] as usize
    } else {
        0
    }
}

/// The receiver of a stage handoff: the second participant, or rank zero.
pub open spec fn receiver_of(participants: Seq<u32>) -> usize {
    if participants.len() > 1 {
        participants[1] as usize
    } else {
        0
    }
}

/// The middle of a collective on a host buffer; the root of a broadcast is the first
/// member of the group.
pub open spec fn host_transfer(kind: CollectiveKind) -> RankAction {
    match kind {
        CollectiveKind::RingAllReduce => RankAction::AllReduceSum,
        CollectiveKind::AllGather => RankAction::AllGather,
        CollectiveKind::Broadcast => RankAction::Broadcast { root: 0 },
        _ => RankAction::Unsupported { kind },
    }
}

/// The actions of a collective on a host buffer.
pub open spec fn host_collective(kind: CollectiveKind, tensor: HandoffId) -> Seq<RankAction> {
    if host_transfer(kind) is Unsupported {
        seq![RankAction::Read { tensor }, host_transfer(kind)]
    } else {
        seq![RankAction::Read { tensor }, host_transfer(kind), RankAction::Write { tensor }]
    }
}

/// How a device buffer is all-reduced: through shared memory while a graph is being
/// captured and the buffer fits, through the transport otherwise.
pub open spec fn device_reduction(
    capture: bool,
    buffer: (u64, usize),
    shm: Option<ShmInfo>,
) -> RankAction {
    if capture && shm is Some && buffer.1 <= shm->0.max_elems {
        RankAction::ShmAllReduce { ptr: buffer.0, shm: shm->0, elems: buffer.1 }
    } else {
        RankAction::DeviceAllReduce { ptr: buffer.0, elems: buffer.1 }
    }
}

/// The tensor whose device buffer, if it has one, decides how the step is done.
pub open spec fn device_query_spec(rank: usize, step: ResolvedSequenceStep) -> Option<HandoffId> {
    match step {
        ResolvedSequenceStep::Collective { collective, participants, tensor, elems } => {
            if collective == CollectiveKind::RingAllReduce && takes_part(participants@, rank) {
                Some(tensor)
            } else {
                None
            }
        },
        _ => None,
    }
}

/// What a rank does at a step. `device` is the device buffer of the tensor named by
/// [`device_query_spec`], and `shm` what the transport offers.
pub open spec fn rank_actions(
    rank: usize,
    capture: bool,
    step: ResolvedSequenceStep,
    device: Option<(u64, usize)>,
    shm: Option<ShmInfo>,
) -> Seq<RankAction> {
    match step {
        ResolvedSequenceStep::ExecuteSegment { device_idx, segment_idx } => {
            if device_idx as usize == rank {
                seq![RankAction::RunSegment { segment_idx }]
            } else {
                seq![]
            }
        },
        ResolvedSequenceStep::Collective { collective, participants, tensor, elems } => {
            if collective == CollectiveKind::SendRecv {
                if rank == sender_of(participants@) {
                    seq![
                        RankAction::Read { tensor },
                        RankAction::Send { to: receiver_of(participants@) },
                    ]
                } else if rank == receiver_of(participants@) {
                    seq![
                        RankAction::Recv { from: sender_of(participants@), elems },
                        RankAction::Write { tensor },
                    ]
                } else {
                    seq![]
                }
            } else if !takes_part(participants@, rank) {
                seq![]
            } else if collective == CollectiveKind::RingAllReduce && device is Some {
                seq![device_reduction(capture, device->0, shm)]
            } else {
                host_collective(collective, tensor)
            }
        },
        ResolvedSequenceStep::MoeRoute { device_idx, .. } => {
            if device_idx as usize == rank {
                seq![RankAction::RouteMoe]
            } else {
                seq![]
            }
        },
    }
}

/// Whether a rank takes part in a collective.
fn is_participant(participants: &Vec<u32>, rank: usize) -> (res: bool)
    ensures
        res == takes_part(participants@, rank),
{
    let mut i: usize = 0;
    while i < participants.len()
        invariant
            i <= participants@.len(),
            forall|j: int| 0 <= j < i ==> #[trigger] participants@[j] as usize != rank,
        decreases participants.len() - i,
    {
        if participants[i] as usize == rank {
            assert(participants@[i as int] as usize == rank);
            return true;
        }
        i += 1;
    }
    false
}

/// The sender of a stage handoff.
pub fn handoff_sender(participants: &Vec<u32>) -> (res: usize)
    ensures
        res == sender_of(participants@),
{
    if participants.len() > 0 {
        participants[0] as usize
    } else {
        0
    }
}

/// The receiver of a stage handoff.
pub fn handoff_receiver(participants: &Vec<u32>) -> (res: usize)
    ensures
        res == receiver_of(participants@),
{
    if participants.len() > 1 {
        participants[1] as usize
    } else {
        0
    }
}

/// The tensor whose device buffer must be looked up before the step is planned.
pub fn device_query(rank: usize, step: &ResolvedSequenceStep) -> (res: Option<HandoffId>)
    ensures
        res == device_query_spec(rank, *step),
{
    match step {
        ResolvedSequenceStep::Collective { collective, participants, tensor, elems: _ } => {
            if *collective == CollectiveKind::RingAllReduce && is_participant(participants, rank) {
                Some(*tensor)
            } else {
                None
            }
        },
        _ => None,
    }
}

fn reduce_on_device(capture: bool, ptr: u64, elems: usize, shm: Option<ShmInfo>) -> (res: RankAction)
    ensures
        res == device_reduction(capture, (ptr, elems), shm),
{
    if capture {
        if let Some(info) = shm {
            if elems <= info.max_elems {
                return RankAction::ShmAllReduce { ptr, shm: info, elems };
            }
        }
    }
    RankAction::DeviceAllReduce { ptr, elems }
}

/// The actions of a rank at a step, in order.
pub fn plan_rank_step(
    rank: usize,
    capture: bool,
    step: &ResolvedSequenceStep,
    device: Option<(u64, usize)>,
    shm: Option<ShmInfo>,
) -> (res: Vec<RankAction>)
    ensures
        res@ == rank_actions(rank, capture, *step, device, shm),
{
    let mut out: Vec<RankAction> = Vec::new();
    match step {
        ResolvedSequenceStep::ExecuteSegment { device_idx, segment_idx } => {
            if *device_idx as usize == rank {
                out.push(RankAction::RunSegment { segment_idx: *segment_idx });
            }
        },
        ResolvedSequenceStep::Collective { collective, participants, tensor, elems } => {
            if *collective == CollectiveKind::SendRecv {
                let sender: usize = handoff_sender(participants);
                let receiver: usize = handoff_receiver(participants);
                if rank == sender {
                    out.push(RankAction::Read { tensor: *tensor });
                    out.push(RankAction::Send { to: receiver });
                } else if rank == receiver {
                    out.push(RankAction::Recv { from: sender, elems: *elems });
                    out.push(RankAction::Write { tensor: *tensor });
                }
            } else if is_participant(participants, rank) {
                let on_device = match collective {
                    CollectiveKind::RingAllReduce => device,
                    _ => None,
                };
                if let Some((ptr, n)) = on_device {
                    out.push(reduce_on_device(capture, ptr, n, shm));
                } else {
                    out.push(RankAction::Read { tensor: *tensor });
                    match collective {
                        CollectiveKind::RingAllReduce => {
                            out.push(RankAction::AllReduceSum);
                        },
                        CollectiveKind::AllGather => {
                            out.push(RankAction::AllGather);
                        },
                        CollectiveKind::Broadcast => {
                            out.push(RankAction::Broadcast { root: 0 });
                        },
                        _ => {
                            out.push(RankAction::Unsupported { kind: *collective });
                            assert(out@ =~= rank_actions(rank, capture, *step, device, shm));
                            return out;
                        },
                    }
                    out.push(RankAction::Write { tensor: *tensor });
                }
            }
        },
        ResolvedSequenceStep::MoeRoute { device_idx, .. } => {
            if *device_idx as usize == rank {
                out.push(RankAction::RouteMoe);
            }
        },
    }
    assert(out@ =~= rank_actions(rank, capture, *step, device, shm));
    out
}

/// At a stage handoff between two different ranks, exactly those two act: the sender
/// sends to the receiver what the receiver awaits from the sender, and every other rank
/// goes on.
pub proof fn handoffs_are_matched(
    step: ResolvedSequenceStep,
    rank: usize,
    capture: bool,
    device: Option<(u64, usize)>,
    shm: Option<ShmInfo>,
)
    requires
        step is Collective,
        step->collective == CollectiveKind::SendRecv,
        sender_of(step->participants@) != receiver_of(step->participants@),
    ensures
        ({
            let acts = rank_actions(rank, capture, step, device, shm);
            let s = sender_of(step->participants@);
            let r = receiver_of(step->participants@);
            &&& rank == s <==> acts.contains(RankAction::Send { to: r })
            &&& rank == r <==> acts.contains(RankAction::Recv { from: s, elems: step->elems })
            &&& rank != s && rank != r ==> acts.len() == 0
        }),
{
    let acts = rank_actions(rank, capture, step, device, shm);
    let s = sender_of(step->participants@);
    let r = receiver_of(step->participants@);
    if rank == s {
        assert(acts[1] == RankAction::Send { to: r });
    } else if rank == r {
        assert(acts[0] == RankAction::Recv { from: s, elems: step->elems });
    }
}

/// Every participant of a collective whose tensor is not on a device performs the same
/// actions, and no other rank performs any: the group meets in the same transfer.
pub proof fn host_collectives_are_uniform(
    step: ResolvedSequenceStep,
    a: usize,
    b: usize,
    capture: bool,
)
    requires
        step is Collective,
        step->collective != CollectiveKind::SendRecv,
    ensures
        takes_part(step->participants@, a) && takes_part(step->participants@, b) ==> rank_actions(
            a,
            capture,
            step,
            None,
            None,
        ) == rank_actions(b, capture, step, None, None),
        !takes_part(step->participants@, a) ==> rank_actions(a, capture, step, None, None).len()
            == 0,
{
}

/// Running a segment and routing experts are the business of the step's own device
/// alone.
pub proof fn local_steps_are_local(
    step: ResolvedSequenceStep,
    rank: usize,
    capture: bool,
    device: Option<(u64, usize)>,
    shm: Option<ShmInfo>,
)
    requires
        !(step is Collective),
    ensures
        ({
            let own = match step {
                ResolvedSequenceStep::ExecuteSegment { device_idx, .. } => device_idx,
                ResolvedSequenceStep::MoeRoute { device_idx, .. } => device_idx,
                _ => 0,
            };
            rank_actions(rank, capture, step, device, shm).len() == if own as usize == rank {
                1nat
            } else {
                0nat
            }
        }),
{
}

} // verus!
