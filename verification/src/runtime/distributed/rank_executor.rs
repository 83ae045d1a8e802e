//! Drives one rank through the global schedule.
//!
//! The compute of the rank and the transport between the ranks are behind two traits. What
//! an implementation of theirs may do is its own business; the walk is verified for every
//! one.

use vstd::prelude::*;

use crate::ieee::Ieee32;
use crate::runtime::collective_kind::CollectiveKind;
use crate::runtime::distributed::handoff::{unknown_tensor, RankExecError};
use crate::runtime::distributed::rank_plan::{
    device_query, device_query_spec, plan_rank_step, rank_actions, receiver_of, sender_of,
    takes_part, HandoffId, RankAction, ResolvedSequenceStep, ShmInfo,
};
use crate::runtime::distributed::world::CollectiveError;
use crate::runtime::tensor::{concatenated, sums};
use crate::text::{decimal, push_decimal};

verus! {

/// A rank's local segments and the store of its handoff tensors.
pub trait LocalSegments: Sized {
    /// Whether running a segment may end so.
    open spec fn runs(
        before: Self,
        segment_idx: usize,
        after: Self,
        res: Result<(), RankExecError>,
    ) -> bool {
        true
    }

    /// Whether storing a tensor may end so.
    open spec fn stores(
        before: Self,
        id: HandoffId,
        data: Seq<Ieee32>,
        after: Self,
        res: Result<(), RankExecError>,
    ) -> bool {
        true
    }

    /// Whether storing a tensor by its name may end so.
    open spec fn stores_named(
        before: Self,
        name: Seq<char>,
        data: Seq<Ieee32>,
        after: Self,
        res: Result<(), RankExecError>,
    ) -> bool {
        true
    }

    /// Whether an all-reduce through shared memory may end so.
    open spec fn reduces(
        before: Self,
        ptr: u64,
        shm: ShmInfo,
        elems: usize,
        after: Self,
        res: Result<(), RankExecError>,
    ) -> bool {
        true
    }

    /// Whether routing a step's experts may end so.
    open spec fn routes(
        before: Self,
        step: ResolvedSequenceStep,
        after: Self,
        res: Result<(), RankExecError>,
    ) -> bool {
        true
    }

    /// Runs a segment on the tensors that it takes, and stores those that it gives.
    fn run_segment(&mut self, segment_idx: usize) -> (res: Result<(), RankExecError>)
        ensures
            Self::runs(*old(self), segment_idx, *final(self), res),
    ;

    /// The value of a tensor on the host, by its name. The walk goes by ids; names are for
    /// those who feed it and read its results.
    fn read(&self, name: &str) -> Result<Vec<Ieee32>, RankExecError>;

    /// Stores the value of a tensor by its name.
    fn write(&mut self, name: &str, data: Vec<Ieee32>) -> (res: Result<(), RankExecError>)
        ensures
            Self::stores_named(*old(self), name@, data@, *final(self), res),
    ;

    /// The device buffer of a named tensor that stays on the device, with its element count;
    /// none where the segments have no device memory.
    fn output_device_ptr(&self, name: &str) -> (res: Option<(u64, usize)>)
        default_ensures
            res is None,
    {
        None
    }

    /// The value of a tensor on the host. Segments that know no ids have none.
    fn read_by_id(&self, id: HandoffId) -> (res: Result<Vec<Ieee32>, RankExecError>)
        default_ensures
            res is Err,
            unknown_tensor(res->Err_0, "id "@ + decimal(id.0 as nat)),
    {
        let mut what = "id ".to_owned();
        push_decimal(&mut what, id.0 as u64);
        Err(RankExecError::UnknownTensor(what))
    }

    /// Stores the value of a tensor.
    fn write_by_id(&mut self, id: HandoffId, data: Vec<Ieee32>) -> (res: Result<(), RankExecError>)
        ensures
            Self::stores(*old(self), id, data@, *final(self), res),
    ;

    /// The device buffer of a tensor that stays on the device, with its element count; none
    /// where the segments have no device memory.
    fn output_device_ptr_by_id(&self, id: HandoffId) -> (res: Option<(u64, usize)>)
        default_ensures
            res is None,
    {
        None
    }

    /// All-reduces a device buffer in place through shared memory, on the stream that the
    /// segments run on.
    fn device_shm_all_reduce(&mut self, ptr: u64, shm: ShmInfo, elems: usize) -> (res: Result<
        (),
        RankExecError,
    >)
        ensures
            Self::reduces(*old(self), ptr, shm, elems, *final(self), res),
    ;

    /// Routes the experts of a routing step.
    fn route_moe_resolved(&mut self, step: &ResolvedSequenceStep) -> (res: Result<
        (),
        RankExecError,
    >)
        ensures
            Self::routes(*old(self), *step, *final(self), res),
    ;
}

/// One rank's handle on its group. Every collective is performed by the whole group and
/// leaves this rank's result with it.
pub trait RankCollective {
    /// Whether summing a buffer over the group may end so.
    open spec fn sums_to(
        &self,
        before: Seq<Ieee32>,
        after: Seq<Ieee32>,
        res: Result<(), CollectiveError>,
    ) -> bool {
        true
    }

    /// Whether taking over the root's buffer may end so.
    open spec fn becomes(
        &self,
        root: usize,
        before: Seq<Ieee32>,
        after: Seq<Ieee32>,
        res: Result<(), CollectiveError>,
    ) -> bool {
        true
    }

    fn rank(&self) -> usize;

    fn world_size(&self) -> usize;

    /// Replaces the buffer by the elementwise sum over all ranks.
    fn all_reduce_sum(&self, buf: &mut Vec<Ieee32>) -> (res: Result<(), CollectiveError>)
        ensures
            self.sums_to(old(buf)@, final(buf)@, res),
    ;

    /// The buffers of all ranks, one after the other.
    fn all_gather(&self, buf: &Vec<Ieee32>) -> Result<Vec<Ieee32>, CollectiveError>;

    /// Replaces the buffer by the root's.
    fn broadcast(&self, buf: &mut Vec<Ieee32>, root: usize) -> (res: Result<(), CollectiveError>)
        ensures
            self.becomes(root, old(buf)@, final(buf)@, res),
    ;

    /// Sends the buffer to a rank.
    fn send_f32(&self, buf: &Vec<Ieee32>, to: usize) -> Result<(), CollectiveError>;

    /// Receives a buffer from a rank.
    fn recv_f32(&self, from: usize, elems: usize) -> Result<Vec<Ieee32>, CollectiveError>;

    /// Sums a device buffer over all ranks in place.
    fn all_reduce_sum_device_bf16(&self, ptr: u64, elems: usize) -> Result<(), CollectiveError>;

    /// The shared-memory all-reduce, where there is one.
    fn shm_all_reduce_info(&self) -> (res: Option<ShmInfo>)
        default_ensures
            res is None,
    {
        None
    }
}

/// Drives one rank through the global schedule.
pub struct RankExecutor<S: LocalSegments> {
    pub rank: usize,
    pub runner: S,
}

/// A transport's outcome as the walk's.
pub open spec fn transported(r: Result<(), CollectiveError>) -> Result<(), RankExecError> {
    match r {
        Ok(()) => Ok(()),
        Err(e) => Err(RankExecError::Collective(e)),
    }
}

/// Whether receiving a buffer, or gathering one, ends with it or with the error.
pub open spec fn received(
    r: Result<Vec<Ieee32>, CollectiveError>,
    before: Seq<Ieee32>,
    after: Seq<Ieee32>,
    res: Result<(), RankExecError>,
) -> bool {
    match r {
        Ok(v) => after == v@ && res == Ok::<(), RankExecError>(()),
        Err(e) => after == before && res == Err::<(), _>(RankExecError::Collective(e)),
    }
}

/// Whether summing a buffer over the group may take it from one value to another and end so.
pub open spec fn summed<C: RankCollective>(
    c: &C,
    before: Seq<Ieee32>,
    after: Seq<Ieee32>,
    res: Result<(), RankExecError>,
) -> bool {
    exists|r: Result<(), CollectiveError>|
        #[trigger] c.sums_to(before, after, r) && res == transported(r)
}

/// Whether taking over the root's buffer may take a buffer from one value to another and end
/// so.
pub open spec fn became<C: RankCollective>(
    c: &C,
    root: usize,
    before: Seq<Ieee32>,
    after: Seq<Ieee32>,
    res: Result<(), RankExecError>,
) -> bool {
    exists|r: Result<(), CollectiveError>|
        #[trigger] c.becomes(root, before, after, r) && res == transported(r)
}

/// Whether gathering a buffer may replace it by another and end so.
pub open spec fn gathered<C: RankCollective>(
    c: &C,
    before: Seq<Ieee32>,
    after: Seq<Ieee32>,
    res: Result<(), RankExecError>,
) -> bool {
    exists|v: Vec<Ieee32>, r: Result<Vec<Ieee32>, CollectiveError>|
        {
            &&& v@ == before
            &&& #[trigger] call_ensures(C::all_gather, (c, &v), r)
            &&& received(r, before, after, res)
        }
}

/// Whether sending a buffer may end so.
pub open spec fn sent<C: RankCollective>(
    c: &C,
    buf: Seq<Ieee32>,
    to: usize,
    res: Result<(), RankExecError>,
) -> bool {
    exists|v: Vec<Ieee32>, r: Result<(), CollectiveError>|
        {
            &&& v@ == buf
            &&& #[trigger] call_ensures(C::send_f32, (c, &v, to), r)
            &&& res == transported(r)
        }
}

/// Whether an action at a step may take the rank's segments and its buffer from one state to
/// another and end so.
pub open spec fn acts<S: LocalSegments, C: RankCollective>(
    c: &C,
    step: ResolvedSequenceStep,
    action: RankAction,
    before: (S, Seq<Ieee32>),
    after: (S, Seq<Ieee32>),
    res: Result<(), RankExecError>,
) -> bool {
    match action {
        RankAction::RunSegment { segment_idx } => S::runs(before.0, segment_idx, after.0, res)
            && after.1 == before.1,
        RankAction::RouteMoe => S::routes(before.0, step, after.0, res) && after.1 == before.1,
        RankAction::ShmAllReduce { ptr, shm, elems } => S::reduces(
            before.0,
            ptr,
            shm,
            elems,
            after.0,
            res,
        ) && after.1 == before.1,
        RankAction::Write { tensor } => S::stores(before.0, tensor, before.1, after.0, res),
        RankAction::Read { tensor } => {
            &&& after.0 == before.0
            &&& exists|r: Result<Vec<Ieee32>, RankExecError>|
                {
                    &&& #[trigger] call_ensures(S::read_by_id, (&before.0, tensor), r)
                    &&& match r {
                        Ok(v) => after.1 == v@ && res == Ok::<(), RankExecError>(()),
                        Err(e) => after.1 == before.1 && res == Err::<(), _>(e),
                    }
                }
        },
        RankAction::AllReduceSum => {
            &&& after.0 == before.0
            &&& summed(c, before.1, after.1, res)
        },
        RankAction::Broadcast { root } => {
            &&& after.0 == before.0
            &&& became(c, root, before.1, after.1, res)
        },
        RankAction::AllGather => {
            &&& after.0 == before.0
            &&& gathered(c, before.1, after.1, res)
        },
        RankAction::Send { to } => {
            &&& after == before
            &&& sent(c, before.1, to, res)
        },
        RankAction::Recv { from, elems } => {
            &&& after.0 == before.0
            &&& exists|r: Result<Vec<Ieee32>, CollectiveError>|
                #[trigger] call_ensures(C::recv_f32, (c, from, elems), r) && received(
                    r,
                    before.1,
                    after.1,
                    res,
                )
        },
        RankAction::DeviceAllReduce { ptr, elems } => {
            &&& after == before
            &&& exists|r: Result<(), CollectiveError>|
                #[trigger] call_ensures(C::all_reduce_sum_device_bf16, (c, ptr, elems), r) && res
                    == transported(r)
        },
        RankAction::Unsupported { kind } => after == before && res == Err::<(), _>(
            RankExecError::UnsupportedCollective { kind },
        ),
    }
}

/// Whether the states are those after each of the first actions, all of which went well.
pub open spec fn acted<S: LocalSegments, C: RankCollective>(
    c: &C,
    step: ResolvedSequenceStep,
    actions: Seq<RankAction>,
    states: Seq<(S, Seq<Ieee32>)>,
) -> bool {
    &&& 1 <= states.len() <= actions.len() + 1
    &&& forall|i: int|
        0 <= i < states.len() - 1 ==> acts(
            c,
            step,
            actions[i],
            #[trigger] states[i],
            states[i + 1],
            Ok(()),
        )
}

/// Whether performing the actions in order, up to the first that fails, may take the rank's
/// segments from one state to another and end so. The buffer is empty at first.
pub open spec fn performed<S: LocalSegments, C: RankCollective>(
    c: &C,
    step: ResolvedSequenceStep,
    actions: Seq<RankAction>,
    before: S,
    after: S,
    res: Result<(), RankExecError>,
) -> bool {
    exists|states: Seq<(S, Seq<Ieee32>)>|
        {
            &&& #[trigger] acted(c, step, actions, states)
            &&& states[0] == (before, Seq::<Ieee32>::empty())
            &&& if states.len() == actions.len() + 1 {
                states.last().0 == after && res is Ok
            } else {
                res is Err && exists|buf: Seq<Ieee32>|
                    #[trigger] acts(
                        c,
                        step,
                        actions[states.len() - 1],
                        states.last(),
                        (after, buf),
                        res,
                    )
            }
        }
}

/// Whether the answer is what the rank's segments say of the device buffer that decides how
/// the step is done.
pub open spec fn answered<S: LocalSegments>(
    runner: S,
    query: Option<HandoffId>,
    device: Option<(u64, usize)>,
) -> bool {
    match query {
        Some(id) => call_ensures(S::output_device_ptr_by_id, (&runner, id), device),
        None => device is None,
    }
}

/// Whether the answer is what the transport offers, where that matters.
pub open spec fn offered<C: RankCollective>(
    c: &C,
    capture: bool,
    device: Option<(u64, usize)>,
    shm: Option<ShmInfo>,
) -> bool {
    if capture && device is Some {
        call_ensures(C::shm_all_reduce_info, (c,), shm)
    } else {
        shm is None
    }
}

/// Whether a step may take the rank's segments from one state to another and end so: its
/// actions are performed in order, up to the first that fails.
pub open spec fn stepped<S: LocalSegments, C: RankCollective>(
    rank: usize,
    capture: bool,
    c: &C,
    step: ResolvedSequenceStep,
    before: S,
    after: S,
    res: Result<(), RankExecError>,
) -> bool {
    exists|device: Option<(u64, usize)>, shm: Option<ShmInfo>|
        {
            &&& #[trigger] answered(before, device_query_spec(rank, step), device)
            &&& #[trigger] offered(c, capture, device, shm)
            &&& performed(
                c,
                step,
                rank_actions(rank, capture, step, device, shm),
                before,
                after,
                res,
            )
        }
}

/// Whether the states are those after each of the first steps, all of which went well.
pub open spec fn walked<S: LocalSegments, C: RankCollective>(
    rank: usize,
    capture: bool,
    c: &C,
    schedule: Seq<ResolvedSequenceStep>,
    states: Seq<S>,
) -> bool {
    &&& 1 <= states.len() <= schedule.len() + 1
    &&& forall|i: int|
        0 <= i < states.len() - 1 ==> stepped(
            rank,
            capture,
            c,
            schedule[i],
            #[trigger] states[i],
            states[i + 1],
            Ok(()),
        )
}

/// Whether walking the schedule may take the rank's segments from one state to another and
/// end so: every step in order, up to the first that fails.
pub open spec fn walks<S: LocalSegments, C: RankCollective>(
    rank: usize,
    capture: bool,
    c: &C,
    schedule: Seq<ResolvedSequenceStep>,
    before: S,
    after: S,
    res: Result<(), RankExecError>,
) -> bool {
    exists|states: Seq<S>|
        {
            &&& #[trigger] walked(rank, capture, c, schedule, states)
            &&& states[0] == before
            &&& if states.len() == schedule.len() + 1 {
                states.last() == after && res is Ok
            } else {
                res is Err && stepped(
                    rank,
                    capture,
                    c,
                    schedule[states.len() - 1],
                    states.last(),
                    after,
                    res,
                )
            }
        }
}

impl<S: LocalSegments> RankExecutor<S> {
    pub fn new(rank: usize, runner: S) -> (res: Self)
        ensures
            res == (RankExecutor { rank, runner }),
    {
        RankExecutor { rank, runner }
    }

    /// The rank's segments, for reading its outputs after a run.
    pub fn into_runner(self) -> (res: S)
        ensures
            res == self.runner,
    {
        self.runner
    }

    pub fn runner(&self) -> (res: &S)
        ensures
            *res == self.runner,
    {
        &self.runner
    }

    pub fn runner_mut(&mut self) -> (res: &mut S)
        ensures
            *res == old(self).runner,
            final(self).runner == *final(res),
            final(self).rank == old(self).rank,
    {
        &mut self.runner
    }

    fn perform<C: RankCollective>(
        &mut self,
        c: &C,
        step: &ResolvedSequenceStep,
        action: RankAction,
        buf: &mut Vec<Ieee32>,
    ) -> (res: Result<(), RankExecError>)
        ensures
            final(self).rank == old(self).rank,
            acts(
                c,
                *step,
                action,
                (old(self).runner, old(buf)@),
                (final(self).runner, final(buf)@),
                res,
            ),
    {
        match action {
            RankAction::RunSegment { segment_idx } => {
                let r = self.runner.run_segment(segment_idx);
                r
            },
            RankAction::RouteMoe => {
                let r = self.runner.route_moe_resolved(step);
                assert(S::routes(old(self).runner, *step, self.runner, r));
                r
            },
            RankAction::ShmAllReduce { ptr, shm, elems } => {
                let r = self.runner.device_shm_all_reduce(ptr, shm, elems);
                assert(S::reduces(old(self).runner, ptr, shm, elems, self.runner, r));
                r
            },
            RankAction::Write { tensor } => {
                let mut data: Vec<Ieee32> = Vec::new();
                std::mem::swap(&mut data, buf);
                self.runner.write_by_id(tensor, data)
            },
            RankAction::Read { tensor } => {
                let r = self.runner.read_by_id(tensor);
                assert(call_ensures(S::read_by_id, (&old(self).runner, tensor), r));
                match r {
                    Ok(v) => {
                        *buf = v;
                        Ok(())
                    },
                    Err(e) => Err(e),
                }
            },
            RankAction::AllReduceSum => {
                let r = c.all_reduce_sum(buf);
                assert(c.sums_to(old(buf)@, buf@, r));
                match r {
                    Ok(()) => Ok(()),
                    Err(e) => Err(RankExecError::Collective(e)),
                }
            },
            RankAction::Broadcast { root } => {
                let r = c.broadcast(buf, root);
                assert(c.becomes(root, old(buf)@, buf@, r));
                match r {
                    Ok(()) => Ok(()),
                    Err(e) => Err(RankExecError::Collective(e)),
                }
            },
            RankAction::AllGather => {
                let r = c.all_gather(buf);
                match r {
                    Ok(v) => {
                        *buf = v;
                        Ok(())
                    },
                    Err(e) => Err(RankExecError::Collective(e)),
                }
            },
            RankAction::Send { to } => {
                let r = c.send_f32(buf, to);
                match r {
                    Ok(()) => Ok(()),
                    Err(e) => Err(RankExecError::Collective(e)),
                }
            },
            RankAction::Recv { from, elems } => {
                let r = c.recv_f32(from, elems);
                assert(call_ensures(C::recv_f32, (c, from, elems), r));
                match r {
                    Ok(v) => {
                        *buf = v;
                        Ok(())
                    },
                    Err(e) => Err(RankExecError::Collective(e)),
                }
            },
            RankAction::DeviceAllReduce { ptr, elems } => {
                let r = c.all_reduce_sum_device_bf16(ptr, elems);
                assert(call_ensures(C::all_reduce_sum_device_bf16, (c, ptr, elems), r));
                match r {
                    Ok(()) => Ok(()),
                    Err(e) => Err(RankExecError::Collective(e)),
                }
            },
            RankAction::Unsupported { kind } => Err(RankExecError::UnsupportedCollective { kind }),
        }
    }

    /// Takes the rank through one step.
    pub fn run_step<C: RankCollective>(
        &mut self,
        step: &ResolvedSequenceStep,
        collective: &C,
        capture: bool,
    ) -> (res: Result<(), RankExecError>)
        ensures
            final(self).rank == old(self).rank,
            stepped(
                old(self).rank,
                capture,
                collective,
                *step,
                old(self).runner,
                final(self).runner,
                res,
            ),
    {
        let ghost before = self.runner;
        let ghost rank = self.rank;
        let device = match device_query(self.rank, step) {
            Some(id) => self.runner.output_device_ptr_by_id(id),
            None => None,
        };
        let shm = if capture && device.is_some() {
            collective.shm_all_reduce_info()
        } else {
            None
        };
        assert(answered(before, device_query_spec(rank, *step), device));
        assert(offered(collective, capture, device, shm));
        let actions = plan_rank_step(self.rank, capture, step, device, shm);
        let mut buf: Vec<Ieee32> = Vec::new();
        let ghost mut states: Seq<(S, Seq<Ieee32>)> = seq![(before, buf@)];
        let mut i: usize = 0;
        while i < actions.len()
            invariant
                i <= actions@.len(),
                rank == old(self).rank,
                self.rank == rank,
                before == old(self).runner,
                answered(before, device_query_spec(rank, *step), device),
                offered(collective, capture, device, shm),
                actions@ == rank_actions(rank, capture, *step, device, shm),
                states.len() == i + 1,
                states[0] == (before, Seq::<Ieee32>::empty()),
                states.last() == (self.runner, buf@),
                acted(collective, *step, actions@, states),
            decreases actions.len() - i,
        {
            let ghost at = (self.runner, buf@);
            let r = self.perform(collective, step, actions[i], &mut buf);
            match r {
                Ok(u) => {
                    assert(r == Ok::<(), RankExecError>(u));
                    assert(acts(
                        collective,
                        *step,
                        actions@[i as int],
                        at,
                        (self.runner, buf@),
                        Ok(()),
                    ));
                },
                Err(e) => {
                    assert(acts(
                        collective,
                        *step,
                        actions@[i as int],
                        states.last(),
                        (self.runner, buf@),
                        Err(e),
                    ));
                    assert(performed(collective, *step, actions@, before, self.runner, Err(e)));
                    return Err(e);
                },
            }
            proof {
                let was = states;
                states = states.push((self.runner, buf@));
                assert forall|k: int| 0 <= k < states.len() - 1 implies acts(
                    collective,
                    *step,
                    actions@[k],
                    #[trigger] states[k],
                    states[k + 1],
                    Ok(()),
                ) by {
                    assert(states[k] == was[k]);
                    if k < i {
                        assert(states[k + 1] == was[k + 1]);
                    } else {
                        assert(states[k] == at);
                    }
                }
            }
            i += 1;
        }
        assert(performed(collective, *step, actions@, before, self.runner, Ok(())));
        Ok(())
    }

    /// Walks the schedule once: runs this rank's segments and takes part in its collectives.
    /// `capture` says whether device graphs are captured, so that device all-reduces must
    /// share the capture stream.
    pub fn run<C: RankCollective>(
        &mut self,
        schedule: &Vec<ResolvedSequenceStep>,
        collective: &C,
        capture: bool,
    ) -> (res: Result<(), RankExecError>)
        ensures
            final(self).rank == old(self).rank,
            walks(
                old(self).rank,
                capture,
                collective,
                schedule@,
                old(self).runner,
                final(self).runner,
                res,
            ),
    {
        let ghost before = self.runner;
        let ghost mut states: Seq<S> = seq![before];
        let mut i: usize = 0;
        while i < schedule.len()
            invariant
                i <= schedule@.len(),
                self.rank == old(self).rank,
                before == old(self).runner,
                states.len() == i + 1,
                states[0] == before,
                states.last() == self.runner,
                walked(self.rank, capture, collective, schedule@, states),
            decreases schedule.len() - i,
        {
            if let Err(e) = self.run_step(&schedule[i], collective, capture) {
                assert(walks(
                    self.rank,
                    capture,
                    collective,
                    schedule@,
                    before,
                    self.runner,
                    Err(e),
                ));
                return Err(e);
            }
            proof {
                states = states.push(self.runner);
            }
            i += 1;
        }
        Ok(())
    }
}

/// Whether a step has anything for a rank to do.
pub open spec fn concerns(rank: usize, step: ResolvedSequenceStep) -> bool {
    match step {
        ResolvedSequenceStep::ExecuteSegment { device_idx, .. } => device_idx as usize == rank,
        ResolvedSequenceStep::MoeRoute { device_idx, .. } => device_idx as usize == rank,
        ResolvedSequenceStep::Collective { collective, participants, .. } => if collective
            == CollectiveKind::SendRecv {
            rank == sender_of(participants@) || rank == receiver_of(participants@)
        } else {
            takes_part(participants@, rank)
        },
    }
}

/// A step that does not concern a rank succeeds and leaves the rank's segments as they were.
pub proof fn other_ranks_are_untouched<S: LocalSegments, C: RankCollective>(
    rank: usize,
    capture: bool,
    c: &C,
    step: ResolvedSequenceStep,
    before: S,
    after: S,
    res: Result<(), RankExecError>,
)
    requires
        !concerns(rank, step),
        stepped(rank, capture, c, step, before, after, res),
    ensures
        after == before,
        res is Ok,
{
    let (device, shm) = choose|device: Option<(u64, usize)>, shm: Option<ShmInfo>|
        {
            &&& #[trigger] answered(before, device_query_spec(rank, step), device)
            &&& #[trigger] offered(c, capture, device, shm)
            &&& performed(
                c,
                step,
                rank_actions(rank, capture, step, device, shm),
                before,
                after,
                res,
            )
        };
    assert(rank_actions(rank, capture, step, device, shm).len() == 0);
}

/// Whether a rank's segments have a tensor on the host, with this value, and give it to
/// whoever reads it.
pub open spec fn holds<S: LocalSegments>(s: S, id: HandoffId, value: Seq<Ieee32>) -> bool {
    forall|r: Result<Vec<Ieee32>, RankExecError>| #[trigger]
        call_ensures(S::read_by_id, (&s, id), r) ==> r is Ok && r->Ok_0@ == value
}

/// Whether a tensor of a rank is on the host only.
pub open spec fn on_host<S: LocalSegments>(s: S, id: HandoffId) -> bool {
    forall|d: Option<(u64, usize)>| #[trigger]
        call_ensures(S::output_device_ptr_by_id, (&s, id), d) ==> d is None
}

/// Whether the segments of a kind keep what they are given: a stored tensor has the value
/// stored, and every other keeps the value it had.
pub open spec fn keeps_what_it_stores<S: LocalSegments>() -> bool {
    forall|
        before: S,
        id: HandoffId,
        data: Seq<Ieee32>,
        after: S,
        res: Result<(), RankExecError>,
    | #[trigger]
        S::stores(before, id, data, after, res) ==> {
            &&& res is Ok
            &&& holds(after, id, data)
            &&& forall|other: HandoffId, v: Seq<Ieee32>|
                other != id && #[trigger] holds(before, other, v) ==> holds(after, other, v)
        }
}

/// Whether a transport, for the member `k` of a group that has the tensors `bufs` in rank
/// order, does what its operations are named for: a sum leaves `sum`, a gathering gives all
/// the tensors one after the other, and a broadcast leaves the root's.
pub open spec fn joins<C: RankCollective>(
    c: &C,
    bufs: Seq<Seq<Ieee32>>,
    k: int,
    sum: Seq<Ieee32>,
) -> bool {
    &&& forall|after: Seq<Ieee32>, r: Result<(), CollectiveError>| #[trigger]
        c.sums_to(bufs[k], after, r) ==> r is Ok && after == sum
    &&& forall|v: Vec<Ieee32>, r: Result<Vec<Ieee32>, CollectiveError>|
        v@ == bufs[k] && #[trigger] call_ensures(C::all_gather, (c, &v), r) ==> r is Ok
            && r->Ok_0@ == concatenated(bufs)
    &&& forall|root: usize, after: Seq<Ieee32>, r: Result<(), CollectiveError>|
        root < bufs.len() && #[trigger] c.becomes(root, bufs[k], after, r) ==> r is Ok && after
            == bufs[root as int]
}

/// [`performed`] from any state of the buffer.
spec fn performed_from<S: LocalSegments, C: RankCollective>(
    c: &C,
    step: ResolvedSequenceStep,
    actions: Seq<RankAction>,
    start: (S, Seq<Ieee32>),
    after: S,
    res: Result<(), RankExecError>,
) -> bool {
    exists|states: Seq<(S, Seq<Ieee32>)>|
        {
            &&& #[trigger] acted(c, step, actions, states)
            &&& states[0] == start
            &&& if states.len() == actions.len() + 1 {
                states.last().0 == after && res is Ok
            } else {
                res is Err && exists|buf: Seq<Ieee32>|
                    #[trigger] acts(
                        c,
                        step,
                        actions[states.len() - 1],
                        states.last(),
                        (after, buf),
                        res,
                    )
            }
        }
}

/// The first of some actions: the walk stops with it, or goes on with the rest.
proof fn first_action<S: LocalSegments, C: RankCollective>(
    c: &C,
    step: ResolvedSequenceStep,
    actions: Seq<RankAction>,
    start: (S, Seq<Ieee32>),
    after: S,
    res: Result<(), RankExecError>,
) -> (mid: (S, Seq<Ieee32>))
    requires
        performed_from(c, step, actions, start, after, res),
    ensures
        actions.len() == 0 ==> after == start.0 && res is Ok,
        actions.len() > 0 ==> {
            ||| res is Err && mid.0 == after && acts(c, step, actions[0], start, mid, res)
            ||| acts(c, step, actions[0], start, mid, Ok(())) && performed_from(
                c,
                step,
                actions.drop_first(),
                mid,
                after,
                res,
            )
        },
{
    let states = choose|states: Seq<(S, Seq<Ieee32>)>|
        {
            &&& #[trigger] acted(c, step, actions, states)
            &&& states[0] == start
            &&& if states.len() == actions.len() + 1 {
                states.last().0 == after && res is Ok
            } else {
                res is Err && exists|buf: Seq<Ieee32>|
                    #[trigger] acts(
                        c,
                        step,
                        actions[states.len() - 1],
                        states.last(),
                        (after, buf),
                        res,
                    )
            }
        };
    if actions.len() == 0 {
        start
    } else if states.len() == 1 {
        let buf = choose|buf: Seq<Ieee32>|
            #[trigger] acts(c, step, actions[0], states.last(), (after, buf), res);
        (after, buf)
    } else {
        let rest = actions.drop_first();
        let later = states.drop_first();
        assert(acts(c, step, actions[0], states[0], states[1], Ok(())));
        assert forall|i: int| 0 <= i < later.len() - 1 implies acts(
            c,
            step,
            rest[i],
            #[trigger] later[i],
            later[i + 1],
            Ok(()),
        ) by {
            assert(later[i] == states[i + 1]);
            assert(later[i + 1] == states[i + 1 + 1]);
            assert(rest[i] == actions[i + 1]);
        }
        assert(acted(c, step, rest, later));
        assert(later.last() == states.last());
        if states.len() < actions.len() + 1 {
            assert(rest[later.len() - 1] == actions[states.len() - 1]);
        }
        states[1]
    }
}

proof fn step_performed<S: LocalSegments, C: RankCollective>(
    rank: usize,
    capture: bool,
    c: &C,
    step: ResolvedSequenceStep,
    before: S,
    after: S,
    res: Result<(), RankExecError>,
) -> (r: (Option<(u64, usize)>, Option<ShmInfo>))
    requires
        stepped(rank, capture, c, step, before, after, res),
    ensures
        answered(before, device_query_spec(rank, step), r.0),
        offered(c, capture, r.0, r.1),
        performed_from(
            c,
            step,
            rank_actions(rank, capture, step, r.0, r.1),
            (before, Seq::<Ieee32>::empty()),
            after,
            res,
        ),
{
    let (device, shm) = choose|device: Option<(u64, usize)>, shm: Option<ShmInfo>|
        {
            &&& #[trigger] answered(before, device_query_spec(rank, step), device)
            &&& #[trigger] offered(c, capture, device, shm)
            &&& performed(
                c,
                step,
                rank_actions(rank, capture, step, device, shm),
                before,
                after,
                res,
            )
        };
    (device, shm)
}

proof fn participates(participants: Seq<u32>, rank: usize)
    requires
        rank <= u32::MAX,
    ensures
        takes_part(participants, rank) <==> participants.contains(rank as u32),
{
    if participants.contains(rank as u32) {
        let i = participants.index_of(rank as u32);
        assert(participants[i] as usize == rank);
    }
}

/// After a collective each participant's tensor is what the kind of the collective makes of
/// the participants' tensors before: their elementwise sum for an all-reduce, all of them
/// one after the other in rank order for an all-gather, the first one's for a broadcast. All
/// other tensors keep their values. The other kinds have no place in a rank's walk: they
/// fail, and change nothing. This is stated of tensors on the host, of segments that keep
/// what they store, and of a transport that does what its operations are named for.
pub proof fn collectives_do_what_their_kind_says<
    S: LocalSegments,
    C: RankCollective,
    F: Fn(Ieee32, Ieee32) -> Ieee32,
>(
    rank: usize,
    capture: bool,
    c: &C,
    step: ResolvedSequenceStep,
    before: S,
    after: S,
    res: Result<(), RankExecError>,
    bufs: Seq<Seq<Ieee32>>,
    k: int,
    plus: F,
    sum: Seq<Ieee32>,
)
    requires
        step is Collective,
        step->collective != CollectiveKind::SendRecv,
        rank <= u32::MAX,
        step->participants@.contains(rank as u32),
        0 <= k < bufs.len(),
        sums(plus, bufs, sum),
        joins(c, bufs, k, sum),
        keeps_what_it_stores::<S>(),
        holds(before, step->Collective_tensor, bufs[k]),
        on_host(before, step->Collective_tensor),
        stepped(rank, capture, c, step, before, after, res),
    ensures
        step->collective == CollectiveKind::RingAllReduce ==> res is Ok && holds(
            after,
            step->Collective_tensor,
            sum,
        ),
        step->collective == CollectiveKind::AllGather ==> res is Ok && holds(
            after,
            step->Collective_tensor,
            concatenated(bufs),
        ),
        step->collective == CollectiveKind::Broadcast ==> res is Ok && holds(
            after,
            step->Collective_tensor,
            bufs[0],
        ),
        step->collective == CollectiveKind::ReduceScatter || step->collective
            == CollectiveKind::AllToAll ==> after == before && res == Err::<(), _>(
            RankExecError::UnsupportedCollective { kind: step->collective },
        ),
        forall|other: HandoffId, v: Seq<Ieee32>|
            other != step->Collective_tensor && #[trigger] holds(before, other, v) ==> holds(
                after,
                other,
                v,
            ),
{
    let tensor = step->Collective_tensor;
    let (device, shm) = step_performed(rank, capture, c, step, before, after, res);
    participates(step->participants@, rank);
    assert(device is None);
    let actions = rank_actions(rank, capture, step, device, shm);
    let start = (before, Seq::<Ieee32>::empty());
    let read = first_action(c, step, actions, start, after, res);
    assert(actions[0] == RankAction::Read { tensor });
    assert(read == (before, bufs[k]));
    let moved = first_action(c, step, actions.drop_first(), read, after, res);
    let transfer = actions.drop_first()[0];
    assert(transfer == actions[1]);
    if actions.len() == 3 {
        let stored = first_action(
            c,
            step,
            actions.drop_first().drop_first(),
            moved,
            after,
            res,
        );
        assert(actions.drop_first().drop_first()[0] == RankAction::Write { tensor });
        let end = first_action(
            c,
            step,
            actions.drop_first().drop_first().drop_first(),
            stored,
            after,
            res,
        );
    }
}

/// A step's collective leaves alone whoever is not in its list: the step succeeds and the
/// rank's segments are as before. At a stage handoff only the first two of the list take
/// part.
pub proof fn bystanders_are_untouched<S: LocalSegments, C: RankCollective>(
    rank: usize,
    capture: bool,
    c: &C,
    step: ResolvedSequenceStep,
    before: S,
    after: S,
    res: Result<(), RankExecError>,
)
    requires
        step is Collective,
        rank <= u32::MAX,
        step->collective != CollectiveKind::SendRecv ==> !step->participants@.contains(rank as u32),
        step->collective == CollectiveKind::SendRecv ==> step->participants@.len() >= 2 && rank
            != step->participants@[0] && rank != step->participants@[1],
        stepped(rank, capture, c, step, before, after, res),
    ensures
        after == before,
        res is Ok,
{
    let (device, shm) = step_performed(rank, capture, c, step, before, after, res);
    participates(step->participants@, rank);
    let actions = rank_actions(rank, capture, step, device, shm);
    let mid = first_action(c, step, actions, (before, Seq::<Ieee32>::empty()), after, res);
}

/// At a stage handoff the second participant's tensor becomes the first one's, and the
/// first one's stays. The transport between them carries what the first sends the second,
/// and nothing else.
pub proof fn handoffs_move_the_tensor<R: LocalSegments, S: LocalSegments, C: RankCollective>(
    sender: usize,
    receiver: usize,
    capture: bool,
    c: &C,
    d: &C,
    step: ResolvedSequenceStep,
    s_before: R,
    s_after: R,
    s_res: Result<(), RankExecError>,
    r_before: S,
    r_after: S,
    r_res: Result<(), RankExecError>,
    value: Seq<Ieee32>,
    carried: Seq<Ieee32>,
)
    requires
        step is Collective,
        step->collective == CollectiveKind::SendRecv,
        step->participants@.len() >= 2,
        step->participants@[0] == sender,
        step->participants@[1] == receiver,
        sender != receiver,
        holds(s_before, step->Collective_tensor, value),
        keeps_what_it_stores::<S>(),
        forall|v: Vec<Ieee32>, r: Result<(), CollectiveError>| #[trigger]
            call_ensures(C::send_f32, (c, &v, receiver), r) ==> r is Ok && carried == v@,
        forall|r: Result<Vec<Ieee32>, CollectiveError>| #[trigger]
            call_ensures(C::recv_f32, (d, sender, step->elems), r) ==> r is Ok && r->Ok_0@
                == carried,
        stepped(sender, capture, c, step, s_before, s_after, s_res),
        stepped(receiver, capture, d, step, r_before, r_after, r_res),
    ensures
        s_res is Ok,
        s_after == s_before,
        r_res is Ok,
        holds(r_after, step->Collective_tensor, value),
        forall|other: HandoffId, v: Seq<Ieee32>|
            other != step->Collective_tensor && #[trigger] holds(r_before, other, v) ==> holds(
                r_after,
                other,
                v,
            ),
{
    let tensor = step->Collective_tensor;
    let (x, y) = step_performed(sender, capture, c, step, s_before, s_after, s_res);
    let acts_s = rank_actions(sender, capture, step, x, y);
    let start = (s_before, Seq::<Ieee32>::empty());
    let read = first_action(c, step, acts_s, start, s_after, s_res);
    assert(acts_s[0] == RankAction::Read { tensor });
    assert(read == (s_before, value));
    let sent = first_action(c, step, acts_s.drop_first(), read, s_after, s_res);
    assert(acts_s.drop_first()[0] == RankAction::Send { to: receiver });
    let s_end = first_action(c, step, acts_s.drop_first().drop_first(), sent, s_after, s_res);

    let (x, y) = step_performed(receiver, capture, d, step, r_before, r_after, r_res);
    let acts_r = rank_actions(receiver, capture, step, x, y);
    let start = (r_before, Seq::<Ieee32>::empty());
    let got = first_action(d, step, acts_r, start, r_after, r_res);
    assert(acts_r[0] == RankAction::Recv { from: sender, elems: step->elems });
    let stored = first_action(d, step, acts_r.drop_first(), got, r_after, r_res);
    assert(acts_r.drop_first()[0] == RankAction::Write { tensor });
    let r_end = first_action(d, step, acts_r.drop_first().drop_first(), stored, r_after, r_res);
}

/// A tensor that stays on the device is reduced there, in place and whole: through shared
/// memory only while a graph is captured and the buffer fits what the transport offers,
/// through the transport otherwise. Only an all-reduce does so, and nothing else happens.
pub proof fn device_buffers_are_reduced_in_place<S: LocalSegments, C: RankCollective>(
    rank: usize,
    capture: bool,
    c: &C,
    step: ResolvedSequenceStep,
    before: S,
    after: S,
    res: Result<(), RankExecError>,
    ptr: u64,
    elems: usize,
)
    requires
        step is Collective,
        step->collective == CollectiveKind::RingAllReduce,
        rank <= u32::MAX,
        step->participants@.contains(rank as u32),
        forall|d: Option<(u64, usize)>| #[trigger]
            call_ensures(
                S::output_device_ptr_by_id,
                (&before, step->Collective_tensor),
                d,
            ) ==> d == Some((ptr, elems)),
        stepped(rank, capture, c, step, before, after, res),
    ensures
        ({
            ||| exists|r: Result<(), CollectiveError>|
                {
                    &&& #[trigger] call_ensures(C::all_reduce_sum_device_bf16, (c, ptr, elems), r)
                    &&& after == before
                    &&& r is Ok <==> res is Ok
                    &&& r is Err ==> res == Err::<(), _>(RankExecError::Collective(r->Err_0))
                }
            ||| exists|shm: ShmInfo|
                {
                    &&& capture
                    &&& elems <= shm.max_elems
                    &&& call_ensures(C::shm_all_reduce_info, (c,), Some(shm))
                    &&& #[trigger] S::reduces(before, ptr, shm, elems, after, res)
                }
        }),
        !capture ==> after == before,
{
    let (device, shm) = step_performed(rank, capture, c, step, before, after, res);
    participates(step->participants@, rank);
    assert(device == Some((ptr, elems)));
    let actions = rank_actions(rank, capture, step, device, shm);
    let start = (before, Seq::<Ieee32>::empty());
    let mid = first_action(c, step, actions, start, after, res);
    assert(actions.len() == 1);
    if res is Ok {
        let end = first_action(c, step, actions.drop_first(), mid, after, res);
        assert(res == Ok::<(), RankExecError>(res->Ok_0));
    }
    assert(acts(c, step, actions[0], start, (after, mid.1), res));
}

/// The shared-memory path is taken where it can be: while a graph is captured, for a buffer
/// that fits what the transport offers.
pub proof fn captured_reductions_stay_on_the_stream<S: LocalSegments, C: RankCollective>(
    rank: usize,
    c: &C,
    step: ResolvedSequenceStep,
    before: S,
    after: S,
    res: Result<(), RankExecError>,
    ptr: u64,
    elems: usize,
    shm: ShmInfo,
)
    requires
        step is Collective,
        step->collective == CollectiveKind::RingAllReduce,
        rank <= u32::MAX,
        step->participants@.contains(rank as u32),
        forall|d: Option<(u64, usize)>| #[trigger]
            call_ensures(
                S::output_device_ptr_by_id,
                (&before, step->Collective_tensor),
                d,
            ) ==> d == Some((ptr, elems)),
        forall|o: Option<ShmInfo>| #[trigger]
            call_ensures(C::shm_all_reduce_info, (c,), o) ==> o == Some(shm),
        elems <= shm.max_elems,
        stepped(rank, true, c, step, before, after, res),
    ensures
        S::reduces(before, ptr, shm, elems, after, res),
{
    let (device, offer) = step_performed(rank, true, c, step, before, after, res);
    participates(step->participants@, rank);
    assert(device == Some((ptr, elems)));
    let actions = rank_actions(rank, true, step, device, offer);
    let start = (before, Seq::<Ieee32>::empty());
    let mid = first_action(c, step, actions, start, after, res);
    assert(actions.len() == 1);
    if res is Ok {
        let end = first_action(c, step, actions.drop_first(), mid, after, res);
        assert(res == Ok::<(), RankExecError>(res->Ok_0));
    }
    assert(acts(c, step, actions[0], start, (after, mid.1), res));
}

/// A step with a segment or with experts to route is the business of its own device: there
/// the segment runs, or the experts are routed, and that is all; elsewhere nothing happens.
pub proof fn local_work_is_done_where_it_belongs<S: LocalSegments, C: RankCollective>(
    rank: usize,
    capture: bool,
    c: &C,
    step: ResolvedSequenceStep,
    before: S,
    after: S,
    res: Result<(), RankExecError>,
)
    requires
        stepped(rank, capture, c, step, before, after, res),
    ensures
        match step {
            ResolvedSequenceStep::ExecuteSegment { device_idx, segment_idx } => if device_idx
                == rank {
                S::runs(before, segment_idx, after, res)
            } else {
                after == before && res is Ok
            },
            ResolvedSequenceStep::MoeRoute { device_idx, .. } => if device_idx == rank {
                S::routes(before, step, after, res)
            } else {
                after == before && res is Ok
            },
            _ => true,
        },
{
    if !(step is Collective) {
        let (device, shm) = step_performed(rank, capture, c, step, before, after, res);
        let actions = rank_actions(rank, capture, step, device, shm);
        let start = (before, Seq::<Ieee32>::empty());
        let mid = first_action(c, step, actions, start, after, res);
        if actions.len() == 1 {
            if res is Ok {
                let end = first_action(c, step, actions.drop_first(), mid, after, res);
                assert(res == Ok::<(), RankExecError>(res->Ok_0));
            }
            assert(acts(c, step, actions[0], start, (after, mid.1), res));
        }
    }
}

/// A schedule is walked step by step, in order: an empty one changes nothing, and a longer
/// one takes its first step and walks the rest, or stops with the first step's error.
pub proof fn schedules_are_walked_in_order<S: LocalSegments, C: RankCollective>(
    rank: usize,
    capture: bool,
    c: &C,
    schedule: Seq<ResolvedSequenceStep>,
    before: S,
    after: S,
    res: Result<(), RankExecError>,
)
    requires
        walks(rank, capture, c, schedule, before, after, res),
    ensures
        schedule.len() == 0 ==> after == before && res is Ok,
        schedule.len() > 0 ==> {
            ||| res is Err && stepped(rank, capture, c, schedule[0], before, after, res)
            ||| exists|mid: S|
                {
                    &&& #[trigger] stepped(rank, capture, c, schedule[0], before, mid, Ok(()))
                    &&& walks(rank, capture, c, schedule.drop_first(), mid, after, res)
                }
        },
{
    let states = choose|states: Seq<S>|
        {
            &&& #[trigger] walked(rank, capture, c, schedule, states)
            &&& states[0] == before
            &&& if states.len() == schedule.len() + 1 {
                states.last() == after && res is Ok
            } else {
                res is Err && stepped(
                    rank,
                    capture,
                    c,
                    schedule[states.len() - 1],
                    states.last(),
                    after,
                    res,
                )
            }
        };
    if schedule.len() > 0 && states.len() > 1 {
        let rest = schedule.drop_first();
        let later = states.drop_first();
        assert(stepped(rank, capture, c, schedule[0], states[0], states[1], Ok(())));
        assert forall|i: int| 0 <= i < later.len() - 1 implies stepped(
            rank,
            capture,
            c,
            rest[i],
            #[trigger] later[i],
            later[i + 1],
            Ok(()),
        ) by {
            assert(later[i] == states[i + 1]);
            assert(later[i + 1] == states[i + 1 + 1]);
            assert(rest[i] == schedule[i + 1]);
        }
        assert(walked(rank, capture, c, rest, later));
        assert(later.last() == states.last());
        if states.len() < schedule.len() + 1 {
            assert(rest[later.len() - 1] == schedule[states.len() - 1]);
        }
        assert(walks(rank, capture, c, rest, states[1], after, res));
    }
}

/// A transport that fails stops the step with its error: where the members of the group cannot
/// be reached, a participant's step ends with the transport's error, and its segments are as
/// before.
pub proof fn failed_transfers_stop_the_step<S: LocalSegments, C: RankCollective>(
    rank: usize,
    capture: bool,
    c: &C,
    step: ResolvedSequenceStep,
    before: S,
    after: S,
    res: Result<(), RankExecError>,
    value: Seq<Ieee32>,
    e: CollectiveError,
)
    requires
        step is Collective,
        step->collective == CollectiveKind::RingAllReduce || step->collective
            == CollectiveKind::AllGather || step->collective == CollectiveKind::Broadcast,
        rank <= u32::MAX,
        step->participants@.contains(rank as u32),
        holds(before, step->Collective_tensor, value),
        on_host(before, step->Collective_tensor),
        forall|b: Seq<Ieee32>, a: Seq<Ieee32>, r: Result<(), CollectiveError>| #[trigger]
            c.sums_to(b, a, r) ==> r == Err::<(), _>(e),
        forall|v: Vec<Ieee32>, r: Result<Vec<Ieee32>, CollectiveError>| #[trigger]
            call_ensures(C::all_gather, (c, &v), r) ==> r == Err::<Vec<Ieee32>, _>(e),
        forall|root: usize, b: Seq<Ieee32>, a: Seq<Ieee32>, r: Result<(), CollectiveError>|
            #[trigger] c.becomes(root, b, a, r) ==> r == Err::<(), _>(e),
        stepped(rank, capture, c, step, before, after, res),
    ensures
        res == Err::<(), _>(RankExecError::Collective(e)),
        after == before,
{
    let tensor = step->Collective_tensor;
    let (device, shm) = step_performed(rank, capture, c, step, before, after, res);
    participates(step->participants@, rank);
    assert(device is None);
    let actions = rank_actions(rank, capture, step, device, shm);
    let start = (before, Seq::<Ieee32>::empty());
    let read = first_action(c, step, actions, start, after, res);
    assert(actions[0] == RankAction::Read { tensor });
    assert(read == (before, value));
    let moved = first_action(c, step, actions.drop_first(), read, after, res);
    assert(actions.drop_first()[0] == actions[1]);
}

/// A tensor that a participant does not have stops the step before anything is transferred: the
/// step ends with the error of reading it, and the segments are as before.
pub proof fn missing_tensors_stop_the_step<S: LocalSegments, C: RankCollective>(
    rank: usize,
    capture: bool,
    c: &C,
    step: ResolvedSequenceStep,
    before: S,
    after: S,
    res: Result<(), RankExecError>,
    e: RankExecError,
)
    requires
        step is Collective,
        step->collective != CollectiveKind::SendRecv,
        rank <= u32::MAX,
        step->participants@.contains(rank as u32),
        on_host(before, step->Collective_tensor),
        forall|r: Result<Vec<Ieee32>, RankExecError>| #[trigger]
            call_ensures(S::read_by_id, (&before, step->Collective_tensor), r) ==> r == Err::<
                Vec<Ieee32>,
                _,
            >(e),
        stepped(rank, capture, c, step, before, after, res),
    ensures
        res == Err::<(), _>(e),
        after == before,
{
    let tensor = step->Collective_tensor;
    let (device, shm) = step_performed(rank, capture, c, step, before, after, res);
    participates(step->participants@, rank);
    assert(device is None);
    let actions = rank_actions(rank, capture, step, device, shm);
    let start = (before, Seq::<Ieee32>::empty());
    let read = first_action(c, step, actions, start, after, res);
    assert(actions[0] == RankAction::Read { tensor });
}

} // verus!
