//! All devices of a plan in one process: their stores, and the collectives among them.

use vstd::prelude::*;

use crate::ieee::Ieee32;
use crate::runtime::collective_kind::CollectiveKind;
use crate::runtime::collectives::{combine, outcome, outcomes};
use crate::runtime::distributed::handoff::{
    segment_error, unknown_tensor, RankExecError, SequenceStep,
};
use crate::runtime::distributed::rank_plan::{HandoffId, ResolvedSequenceStep};
use crate::runtime::distributed::segment_runner::{copy_values, SegmentRunner};
use crate::runtime::tensor::{concatenated, sums, tensor_views};
use crate::text::{decimal, push_decimal};

verus! {

/// The devices' stores with the schedule that runs over them.
#[derive(Debug)]
pub struct LocalTopology {
    pub runners: Vec<SegmentRunner>,
    pub sequencing: Vec<SequenceStep>,
    /// Per device, its resolved schedule; none where tensors go by name.
    pub resolved: Vec<Vec<ResolvedSequenceStep>>,
}

/// What is done at a step.
#[derive(Debug, Clone, Copy, PartialEq, Eq, Structural)]
pub enum TopologyAction {
    /// Run a segment on a device.
    RunSegment { device: usize, segment_idx: usize },
    /// Route a device's experts.
    Route { device: usize },
    /// Perform the step's collective.
    Collective,
    /// Nothing.
    Nothing,
}

/// What a device is given by a collective over the first `n` participants: the last share
/// that one of them brings it.
pub open spec fn given(
    kind: CollectiveKind,
    participants: Seq<int>,
    bufs: Seq<Seq<Ieee32>>,
    sum: Seq<Ieee32>,
    device: int,
    n: int,
) -> Option<Seq<Ieee32>>
    decreases n,
{
    if n <= 0 {
        None
    } else if participants[n - 1] == device && outcome(kind, bufs, sum, n - 1) is Some {
        outcome(kind, bufs, sum, n - 1)
    } else {
        given(kind, participants, bufs, sum, device, n - 1)
    }
}

/// Whether some stores differ from others at most in the values that they have on the host.
pub open spec fn only_host_values(before: Seq<SegmentRunner>, after: Seq<SegmentRunner>) -> bool {
    &&& after.len() == before.len()
    &&& forall|d: int|
        0 <= d < before.len() ==> #[trigger] after[d] == (SegmentRunner {
            f32_slots: after[d].f32_slots,
            ..before[d]
        })
}

/// Whether a collective over a named tensor has left every device with what it was given,
/// and with everything else as it was.
pub open spec fn shared(
    before: LocalTopology,
    after: LocalTopology,
    kind: CollectiveKind,
    participants: Seq<u32>,
    tensor: Seq<char>,
    sum: Seq<Ieee32>,
) -> bool {
    &&& only_host_values(before.runners@, after.runners@)
    &&& forall|d: int, name: Seq<char>|
        0 <= d < before.runners@.len() ==> #[trigger] after.runners@[d].named_value(name)
            == match given(
            kind,
            devices(participants),
            before.held(participants, tensor),
            sum,
            d,
            participants.len() as int,
        ) {
            Some(v) => if name == tensor {
                Some(v)
            } else {
                before.runners@[d].named_value(name)
            },
            None => before.runners@[d].named_value(name),
        }
}

/// The participants as device numbers.
pub open spec fn devices(participants: Seq<u32>) -> Seq<int> {
    participants.map_values(|p: u32| p as int)
}

impl LocalTopology {
    pub open spec fn wf(&self) -> bool {
        forall|d: int|
            0 <= d < self.runners@.len() ==> (#[trigger] self.runners@[d]).wf()
                && self.runners@[d].names@.len() < u32::MAX
    }

    /// The stores of some devices with a schedule by name.
    pub fn new(runners: Vec<SegmentRunner>, sequencing: Vec<SequenceStep>) -> (res: Self)
        ensures
            res.runners == runners,
            res.sequencing == sequencing,
            res.resolved@.len() == 0,
    {
        LocalTopology { runners, sequencing, resolved: Vec::new() }
    }

    /// Installs the devices' resolved schedules; steps go by them from now on.
    pub fn set_resolved(&mut self, resolved: Vec<Vec<ResolvedSequenceStep>>)
        ensures
            *final(self) == (LocalTopology { resolved, ..*old(self) }),
    {
        self.resolved = resolved;
    }

    pub fn num_devices(&self) -> (res: usize)
        ensures
            res == self.runners@.len(),
    {
        self.runners.len()
    }

    /// The store of a device.
    pub fn runner(&self, device: usize) -> (res: &SegmentRunner)
        requires
            device < self.runners@.len(),
        ensures
            *res == self.runners@[device as int],
    {
        &self.runners[device]
    }

    /// The store of a device, to be changed in place.
    pub fn runner_mut(&mut self, device: usize) -> (res: &mut SegmentRunner)
        requires
            device < old(self).runners@.len(),
        ensures
            *res == old(self).runners@[device as int],
            final(self).runners@ == old(self).runners@.update(device as int, *final(res)),
            final(self).sequencing == old(self).sequencing,
            final(self).resolved == old(self).resolved,
    {
        &mut self.runners[device]
    }

    /// The stores of all devices, to be changed in place.
    pub fn runners_mut(&mut self) -> (res: &mut Vec<SegmentRunner>)
        ensures
            *res == old(self).runners,
            final(self).runners == *final(res),
            final(self).sequencing == old(self).sequencing,
            final(self).resolved == old(self).resolved,
    {
        &mut self.runners
    }

    /// Whether steps go by the resolved schedules.
    pub fn is_resolved(&self) -> (res: bool)
        ensures
            res == (self.resolved@.len() > 0),
    {
        self.resolved.len() > 0
    }

    /// What is done at step `i` of the schedule by name. A segment's device must exist;
    /// routing has no place on this path.
    pub fn plan_host_step(&self, i: usize) -> (res: Result<TopologyAction, RankExecError>)
        requires
            i < self.sequencing@.len(),
        ensures
            match self.sequencing@[i as int] {
                SequenceStep::ExecuteSegment { device_idx, segment_idx } => {
                    if (device_idx as usize) < self.runners@.len() {
                        res == Ok::<_, RankExecError>(
                            TopologyAction::RunSegment {
                                device: device_idx as usize,
                                segment_idx,
                            },
                        )
                    } else {
                        res is Err && segment_error(
                            res->Err_0,
                            segment_idx,
                            "device "@ + decimal(device_idx as nat) + " out of range"@,
                        )
                    }
                },
                SequenceStep::Collective { .. } => res == Ok::<_, RankExecError>(
                    TopologyAction::Collective,
                ),
                SequenceStep::MoeRoute { .. } => res == Ok::<_, RankExecError>(
                    TopologyAction::Nothing,
                ),
            },
    {
        match &self.sequencing[i] {
            SequenceStep::ExecuteSegment { device_idx, segment_idx } => {
                let device: usize = *device_idx as usize;
                if device >= self.runners.len() {
                    let mut detail = "device ".to_owned();
                    push_decimal(&mut detail, device as u64);
                    detail.append(" out of range");
                    return Err(RankExecError::Segment { segment_idx: *segment_idx, detail });
                }
                Ok(TopologyAction::RunSegment { device, segment_idx: *segment_idx })
            },
            SequenceStep::Collective { .. } => Ok(TopologyAction::Collective),
            SequenceStep::MoeRoute { .. } => Ok(TopologyAction::Nothing),
        }
    }

    /// What is done at step `i` of the resolved schedules, which agree on it.
    pub fn plan_resolved_step(&self, i: usize) -> (res: TopologyAction)
        requires
            self.resolved@.len() > 0,
            i < self.resolved@[0]@.len(),
        ensures
            res == match self.resolved@[0]@[i as int] {
                ResolvedSequenceStep::ExecuteSegment { device_idx, segment_idx } => {
                    TopologyAction::RunSegment { device: device_idx as usize, segment_idx }
                },
                ResolvedSequenceStep::MoeRoute { device_idx, .. } => TopologyAction::Route {
                    device: device_idx as usize,
                },
                ResolvedSequenceStep::Collective { .. } => TopologyAction::Collective,
            },
    {
        match &self.resolved[0][i] {
            ResolvedSequenceStep::ExecuteSegment { device_idx, segment_idx } => {
                TopologyAction::RunSegment {
                    device: *device_idx as usize,
                    segment_idx: *segment_idx,
                }
            },
            ResolvedSequenceStep::MoeRoute { device_idx, .. } => TopologyAction::Route {
                device: *device_idx as usize,
            },
            ResolvedSequenceStep::Collective { .. } => TopologyAction::Collective,
        }
    }

    /// The values that the participants have of a tensor.
    pub open spec fn held(&self, participants: Seq<u32>, tensor: Seq<char>) -> Seq<Seq<Ieee32>> {
        Seq::new(
            participants.len(),
            |k: int| self.runners@[participants[k] as int].named_value(tensor)->0,
        )
    }

    /// Whether every participant has a value of a tensor.
    pub open spec fn all_hold(&self, participants: Seq<u32>, tensor: Seq<char>) -> bool {
        forall|k: int|
            0 <= k < participants.len() ==> self.runners@[(#[trigger] participants[k]) as int].named_value(
            tensor) is Some
    }

    /// Performs a collective over a named tensor: reads it from every participant, combines
    /// the values, and writes each participant's share back.
    pub fn run_collective<F: Fn(Ieee32, Ieee32) -> Ieee32>(
        &mut self,
        kind: CollectiveKind,
        participants: &Vec<u32>,
        tensor: &str,
        plus: &F,
    ) -> (res: Result<(), RankExecError>)
        requires
            old(self).wf(),
            forall|k: int|
                0 <= k < participants@.len() ==> (#[trigger] participants@[k]) < old(
                    self,
                ).runners@.len(),
            forall|a: Ieee32, b: Ieee32| call_requires(*plus, (a, b)),
        ensures
            final(self).wf(),
            final(self).runners@.len() == old(self).runners@.len(),
            final(self).sequencing == old(self).sequencing,
            final(self).resolved == old(self).resolved,
            participants@.len() == 0 ==> res is Ok && *final(self) == *old(self),
            participants@.len() > 0 && !old(self).all_hold(participants@, tensor@) ==> {
                &&& res is Err
                &&& unknown_tensor(res->Err_0, tensor@)
                &&& *final(self) == *old(self)
            },
            participants@.len() > 0 && old(self).all_hold(participants@, tensor@) && kind
                == CollectiveKind::AllToAll ==> {
                &&& res == Err::<(), _>(RankExecError::UnsupportedCollective { kind })
                &&& *final(self) == *old(self)
            },
            participants@.len() > 0 && old(self).all_hold(participants@, tensor@) && kind
                != CollectiveKind::AllToAll ==> {
                &&& res is Ok
                &&& exists|sum: Seq<Ieee32>|
                    #[trigger] sums(*plus, old(self).held(participants@, tensor@), sum) && shared(
                        *old(self),
                        *final(self),
                        kind,
                        participants@,
                        tensor@,
                        sum,
                    )
            },
    {
        if participants.len() == 0 {
            return Ok(());
        }
        let n: usize = participants.len();
        let ghost bufs_spec = self.held(participants@, tensor@);
        let mut bufs: Vec<Vec<Ieee32>> = Vec::new();
        let mut k: usize = 0;
        while k < n
            invariant
                *self == *old(self),
                self.wf(),
                k <= n,
                n == participants@.len(),
                forall|j: int|
                    0 <= j < n ==> (#[trigger] participants@[j]) < self.runners@.len(),
                bufs@.len() == k,
                forall|j: int|
                    0 <= j < k ==> self.runners@[(
                    #[trigger] participants@[j]) as int].named_value(tensor@) is Some,
                forall|j: int|
                    0 <= j < k ==> (#[trigger] bufs@[j])@ == self.runners@[participants@[j] as int].named_value(
                    tensor@)->0,
            decreases n - k,
        {
            let p: usize = participants[k] as usize;
            assert(participants@[k as int] < self.runners@.len());
            assert(self.runners@[p as int].wf());
            match self.runners[p].read(tensor) {
                Ok(v) => {
                    bufs.push(v);
                },
                Err(e) => {
                    assert(self.runners@[participants@[k as int] as int].named_value(
                        tensor@,
                    ) is None);
                    return Err(e);
                },
            }
            k += 1;
        }
        assert(tensor_views(bufs@) =~= bufs_spec);
        if let CollectiveKind::AllToAll = kind {
            return Err(RankExecError::UnsupportedCollective { kind });
        }
        let values = combine(kind, &bufs, plus);
        let ghost sum = choose|sum: Seq<Ieee32>|
            #[trigger] sums(*plus, bufs_spec, sum) && outcomes(kind, bufs_spec, sum, values@);
        let ghost ps = devices(participants@);
        let mut k: usize = 0;
        while k < n
            invariant
                self.wf(),
                k <= n,
                n == participants@.len(),
                n == values@.len(),
                self.runners@.len() == old(self).runners@.len(),
                self.sequencing == old(self).sequencing,
                self.resolved == old(self).resolved,
                forall|j: int|
                    0 <= j < n ==> (#[trigger] participants@[j]) < self.runners@.len(),
                ps == devices(participants@),
                outcomes(kind, bufs_spec, sum, values@),
                old(self).all_hold(participants@, tensor@),
                only_host_values(old(self).runners@, self.runners@),
                forall|d: int, name: Seq<char>|
                    0 <= d < self.runners@.len() ==> #[trigger] self.runners@[d].named_value(name)
                        == match given(kind, ps, bufs_spec, sum, d, k as int) {
                        Some(v) => if name == tensor@ {
                            Some(v)
                        } else {
                            old(self).runners@[d].named_value(name)
                        },
                        None => old(self).runners@[d].named_value(name),
                    },
            decreases n - k,
        {
            let p: usize = participants[k] as usize;
            assert(participants@[k as int] < self.runners@.len());
            assert(ps[k as int] == p);
            let ghost before = self.runners@;
            assert(before[p as int].wf());
            assert(old(self).runners@[participants@[k as int] as int].named_value(tensor@) is Some);
            assert(before[p as int].table() == old(self).runners@[p as int].table());
            assert(before[p as int].table().contains(tensor@));
            if let Some(v) = &values[k] {
                let data = copy_values(v);
                let r = self.runners[p].write(tensor, data);
                assert(self.runners@[p as int].table() == before[p as int].table());
                assert(self.runners@[p as int].names@.len() == self.runners@[p as int].table().len());
                assert(before[p as int].names@.len() == before[p as int].table().len());
                assert(outcome(kind, bufs_spec, sum, k as int) == Some(data@));
            }
            assert forall|d: int| 0 <= d < self.runners@.len() implies (
            #[trigger] self.runners@[d]).wf() && self.runners@[d].names@.len() < u32::MAX by {
                if d != p {
                    assert(self.runners@[d] == before[d]);
                }
            }
            assert forall|d: int| 0 <= d < self.runners@.len() implies #[trigger] self.runners@[d]
                == (SegmentRunner {
                f32_slots: self.runners@[d].f32_slots,
                ..old(self).runners@[d]
            }) by {
                assert(before[d] == (SegmentRunner {
                    f32_slots: before[d].f32_slots,
                    ..old(self).runners@[d]
                }));
                if d != p {
                    assert(self.runners@[d] == before[d]);
                }
            }
            assert forall|d: int, name: Seq<char>|
                0 <= d < self.runners@.len() implies #[trigger] self.runners@[d].named_value(name)
                == match given(kind, ps, bufs_spec, sum, d, k + 1) {
                Some(v) => if name == tensor@ {
                    Some(v)
                } else {
                    old(self).runners@[d].named_value(name)
                },
                None => old(self).runners@[d].named_value(name),
            } by {
                assert(before[d].named_value(name) == match given(
                    kind,
                    ps,
                    bufs_spec,
                    sum,
                    d,
                    k as int,
                ) {
                    Some(v) => if name == tensor@ {
                        Some(v)
                    } else {
                        old(self).runners@[d].named_value(name)
                    },
                    None => old(self).runners@[d].named_value(name),
                });
                if d != p {
                    assert(self.runners@[d] == before[d]);
                }
            }
            k += 1;
        }
        Ok(())
    }
}

/// The participants whose step `i` is a collective, in order, each with its own id of the
/// collective's tensor.
pub open spec fn targets_of(
    resolved: Seq<Vec<ResolvedSequenceStep>>,
    participants: Seq<u32>,
    i: int,
) -> Seq<(usize, HandoffId)>
    decreases participants.len(),
{
    if participants.len() == 0 {
        seq![]
    } else {
        let before = targets_of(resolved, participants.drop_last(), i);
        let p = participants.last();
        match resolved[p as int]@[i] {
            ResolvedSequenceStep::Collective { tensor, .. } => before.push((p as usize, tensor)),
            _ => before,
        }
    }
}

/// What a device's tensor is given by a collective over the first `n` targets.
pub open spec fn given_id(
    kind: CollectiveKind,
    targets: Seq<(usize, HandoffId)>,
    bufs: Seq<Seq<Ieee32>>,
    sum: Seq<Ieee32>,
    device: int,
    id: HandoffId,
    n: int,
) -> Option<Seq<Ieee32>>
    decreases n,
{
    if n <= 0 {
        None
    } else if targets[n - 1].0 == device && targets[n - 1].1 == id && outcome(
        kind,
        bufs,
        sum,
        n - 1,
    ) is Some {
        outcome(kind, bufs, sum, n - 1)
    } else {
        given_id(kind, targets, bufs, sum, device, id, n - 1)
    }
}

/// Whether a collective over some targets has left every tensor with what it was given, and
/// everything else as it was.
pub open spec fn shared_by_id(
    before: LocalTopology,
    after: LocalTopology,
    kind: CollectiveKind,
    targets: Seq<(usize, HandoffId)>,
    sum: Seq<Ieee32>,
) -> bool {
    &&& only_host_values(before.runners@, after.runners@)
    &&& forall|d: int, id: HandoffId|
        0 <= d < before.runners@.len() ==> #[trigger] after.runners@[d].host_value(id)
            == match given_id(
            kind,
            targets,
            before.held_by_id(targets),
            sum,
            d,
            id,
            targets.len() as int,
        ) {
            Some(v) => Some(v),
            None => before.runners@[d].host_value(id),
        }
}

impl LocalTopology {
    /// The values that the targets have.
    pub open spec fn held_by_id(&self, targets: Seq<(usize, HandoffId)>) -> Seq<Seq<Ieee32>> {
        Seq::new(
            targets.len(),
            |k: int| self.runners@[targets[k].0 as int].host_value(targets[k].1)->0,
        )
    }

    /// Whether target `k` has a value.
    pub open spec fn target_held(&self, targets: Seq<(usize, HandoffId)>, k: int) -> bool {
        self.runners@[targets[k].0 as int].host_value(targets[k].1) is Some
    }

    /// The participants of the collective at step `i` with their own ids of its tensor.
    pub fn resolved_targets(&self, participants: &Vec<u32>, i: usize) -> (res: Vec<
        (usize, HandoffId),
    >)
        requires
            forall|k: int|
                0 <= k < participants@.len() ==> {
                    &&& (#[trigger] participants@[k]) < self.resolved@.len()
                    &&& i < self.resolved@[participants@[k] as int]@.len()
                },
        ensures
            res@ == targets_of(self.resolved@, participants@, i as int),
    {
        let mut out: Vec<(usize, HandoffId)> = Vec::new();
        let mut k: usize = 0;
        assert(participants@.take(0) =~= seq![]);
        while k < participants.len()
            invariant
                k <= participants@.len(),
                forall|j: int|
                    0 <= j < participants@.len() ==> {
                        &&& (#[trigger] participants@[j]) < self.resolved@.len()
                        &&& i < self.resolved@[participants@[j] as int]@.len()
                    },
                out@ == targets_of(self.resolved@, participants@.take(k as int), i as int),
            decreases participants.len() - k,
        {
            let p: usize = participants[k] as usize;
            assert(participants@[k as int] < self.resolved@.len());
            assert(participants@.take(k + 1).drop_last() =~= participants@.take(k as int));
            if let ResolvedSequenceStep::Collective { tensor, .. } = &self.resolved[p][i] {
                out.push((p, *tensor));
            }
            k += 1;
        }
        assert(participants@.take(k as int) =~= participants@);
        out
    }

    /// Whether an all-reduce over the targets runs on the devices' buffers: every target
    /// has one, and a segment's runtime to reach it by.
    pub fn reduces_on_device(&self, kind: CollectiveKind, targets: &Vec<(usize, HandoffId)>) -> (res:
        bool)
        requires
            forall|k: int|
                0 <= k < targets@.len() ==> (#[trigger] targets@[k]).0 < self.runners@.len(),
        ensures
            res == (kind == CollectiveKind::RingAllReduce && forall|k: int|
                0 <= k < targets@.len() ==> self.runners@[(
                #[trigger] targets@[k]).0 as int].device_buffer(targets@[k].1) is Some
                    && self.runners@[targets@[k].0 as int].segments@.len() > 0),
    {
        if let CollectiveKind::RingAllReduce = kind {
        } else {
            return false;
        }
        let mut k: usize = 0;
        while k < targets.len()
            invariant
                k <= targets@.len(),
                kind == CollectiveKind::RingAllReduce,
                forall|j: int|
                    0 <= j < targets@.len() ==> (#[trigger] targets@[j]).0 < self.runners@.len(),
                forall|j: int|
                    0 <= j < k ==> self.runners@[(
                    #[trigger] targets@[j]).0 as int].device_buffer(targets@[j].1) is Some
                        && self.runners@[targets@[j].0 as int].segments@.len() > 0,
            decreases targets.len() - k,
        {
            let (p, id) = targets[k];
            assert(targets@[k as int].0 < self.runners@.len());
            if self.runners[p].output_device_ptr_by_id(id).is_none()
                || self.runners[p].segments.len() == 0 {
                assert(!(self.runners@[targets@[k as int].0 as int].device_buffer(
                    targets@[k as int].1,
                ) is Some && self.runners@[targets@[k as int].0 as int].segments@.len() > 0));
                return false;
            }
            k += 1;
        }
        true
    }

    /// Performs a collective over resolved targets on the host: reads every target's value,
    /// combines the values, and writes each target's share back.
    pub fn run_collective_resolved<F: Fn(Ieee32, Ieee32) -> Ieee32>(
        &mut self,
        kind: CollectiveKind,
        targets: &Vec<(usize, HandoffId)>,
        plus: &F,
    ) -> (res: Result<(), RankExecError>)
        requires
            old(self).wf(),
            forall|k: int|
                0 <= k < targets@.len() ==> (#[trigger] targets@[k]).0 < old(self).runners@.len(),
            forall|a: Ieee32, b: Ieee32| call_requires(*plus, (a, b)),
        ensures
            final(self).wf(),
            final(self).runners@.len() == old(self).runners@.len(),
            final(self).sequencing == old(self).sequencing,
            final(self).resolved == old(self).resolved,
            targets@.len() == 0 ==> res is Ok && *final(self) == *old(self),
            (exists|k: int| 0 <= k < targets@.len() && !#[trigger] old(self).target_held(targets@, k))
                ==> {
                &&& *final(self) == *old(self)
                &&& exists|k: int|
                    {
                        &&& 0 <= k < targets@.len()
                        &&& !#[trigger] old(self).target_held(targets@, k)
                        &&& forall|j: int| 0 <= j < k ==> #[trigger] old(self).target_held(targets@, j)
                        &&& res is Err
                        &&& unknown_tensor(
                            res->Err_0,
                            old(self).runners@[targets@[k].0 as int].described(targets@[k].1),
                        )
                    }
            },
            targets@.len() > 0 && (forall|k: int|
                0 <= k < targets@.len() ==> #[trigger] old(self).target_held(targets@, k)) ==> {
                if kind == CollectiveKind::AllToAll {
                    &&& res == Err::<(), _>(RankExecError::UnsupportedCollective { kind })
                    &&& *final(self) == *old(self)
                } else {
                    &&& res is Ok
                    &&& exists|sum: Seq<Ieee32>|
                        #[trigger] sums(*plus, old(self).held_by_id(targets@), sum) && shared_by_id(
                            *old(self),
                            *final(self),
                            kind,
                            targets@,
                            sum,
                        )
                }
            },
    {
        let n: usize = targets.len();
        if n == 0 {
            return Ok(());
        }
        let ghost bufs_spec = self.held_by_id(targets@);
        let mut bufs: Vec<Vec<Ieee32>> = Vec::new();
        let mut k: usize = 0;
        while k < n
            invariant
                *self == *old(self),
                self.wf(),
                k <= n,
                n == targets@.len(),
                forall|j: int| 0 <= j < n ==> (#[trigger] targets@[j]).0 < self.runners@.len(),
                bufs@.len() == k,
                forall|j: int| 0 <= j < k ==> #[trigger] self.target_held(targets@, j),
                forall|j: int|
                    0 <= j < k ==> (#[trigger] bufs@[j])@
                        == self.runners@[targets@[j].0 as int].host_value(targets@[j].1)->0,
            decreases n - k,
        {
            let (p, id) = targets[k];
            assert(targets@[k as int].0 < self.runners@.len());
            match self.runners[p].read_by_id(id) {
                Ok(v) => {
                    assert(self.target_held(targets@, k as int));
                    bufs.push(v);
                },
                Err(e) => {
                    assert(!self.target_held(targets@, k as int));
                    return Err(e);
                },
            }
            k += 1;
        }
        assert(tensor_views(bufs@) =~= bufs_spec);
        if let CollectiveKind::AllToAll = kind {
            return Err(RankExecError::UnsupportedCollective { kind });
        }
        let values = combine(kind, &bufs, plus);
        let ghost sum = choose|sum: Seq<Ieee32>|
            #[trigger] sums(*plus, bufs_spec, sum) && outcomes(kind, bufs_spec, sum, values@);
        let mut k: usize = 0;
        while k < n
            invariant
                self.wf(),
                k <= n,
                n == targets@.len(),
                n == values@.len(),
                self.runners@.len() == old(self).runners@.len(),
                self.sequencing == old(self).sequencing,
                self.resolved == old(self).resolved,
                forall|j: int| 0 <= j < n ==> (#[trigger] targets@[j]).0 < self.runners@.len(),
                forall|j: int| 0 <= j < n ==> #[trigger] old(self).target_held(targets@, j),
                outcomes(kind, bufs_spec, sum, values@),
                only_host_values(old(self).runners@, self.runners@),
                forall|d: int|
                    0 <= d < self.runners@.len() ==> (#[trigger] self.runners@[d]).f32_slots@.len()
                        == old(self).runners@[d].f32_slots@.len(),
                forall|d: int, id: HandoffId|
                    0 <= d < self.runners@.len() ==> #[trigger] self.runners@[d].host_value(id)
                        == match given_id(kind, targets@, bufs_spec, sum, d, id, k as int) {
                        Some(v) => Some(v),
                        None => old(self).runners@[d].host_value(id),
                    },
            decreases n - k,
        {
            let (p, id) = targets[k];
            assert(targets@[k as int].0 < self.runners@.len());
            assert(old(self).target_held(targets@, k as int));
            let ghost before = self.runners@;
            assert(before[p as int].wf());
            assert(before[p as int].f32_slots@.len() == old(self).runners@[p as int].f32_slots@.len());
            if let Some(v) = &values[k] {
                let data = copy_values(v);
                let r = self.runners[p].write_by_id(id, data);
                assert(outcome(kind, bufs_spec, sum, k as int) == Some(data@));
                assert(self.runners@[p as int].host_value(id) == Some(data@));
                assert forall|o: HandoffId| o != id implies #[trigger] self.runners@[p as int].host_value(
                    o,
                ) == before[p as int].host_value(o) by {
                    assert(o.0 != id.0);
                }
            }
            assert forall|d: int| 0 <= d < self.runners@.len() implies (
            #[trigger] self.runners@[d]).wf() && self.runners@[d].names@.len() < u32::MAX
                && self.runners@[d].f32_slots@.len() == old(self).runners@[d].f32_slots@.len() by {
                assert(before[d].wf());
                assert(before[d].f32_slots@.len() == old(self).runners@[d].f32_slots@.len());
                if d != p {
                    assert(self.runners@[d] == before[d]);
                }
            }
            assert forall|d: int| 0 <= d < self.runners@.len() implies #[trigger] self.runners@[d]
                == (SegmentRunner {
                f32_slots: self.runners@[d].f32_slots,
                ..old(self).runners@[d]
            }) by {
                assert(before[d] == (SegmentRunner {
                    f32_slots: before[d].f32_slots,
                    ..old(self).runners@[d]
                }));
                if d != p {
                    assert(self.runners@[d] == before[d]);
                }
            }
            assert forall|d: int, o: HandoffId|
                0 <= d < self.runners@.len() implies #[trigger] self.runners@[d].host_value(o)
                == match given_id(kind, targets@, bufs_spec, sum, d, o, k + 1) {
                Some(v) => Some(v),
                None => old(self).runners@[d].host_value(o),
            } by {
                assert(before[d].host_value(o) == match given_id(
                    kind,
                    targets@,
                    bufs_spec,
                    sum,
                    d,
                    o,
                    k as int,
                ) {
                    Some(v) => Some(v),
                    None => old(self).runners@[d].host_value(o),
                });
                if d != p {
                    assert(self.runners@[d] == before[d]);
                }
            }
            k += 1;
        }
        Ok(())
    }
}

proof fn nothing_given(
    kind: CollectiveKind,
    participants: Seq<int>,
    bufs: Seq<Seq<Ieee32>>,
    sum: Seq<Ieee32>,
    device: int,
    n: int,
)
    requires
        n <= participants.len(),
        !participants.contains(device),
    ensures
        given(kind, participants, bufs, sum, device, n) is None,
    decreases n,
{
    if n > 0 {
        assert(participants.contains(participants[n - 1]));
        nothing_given(kind, participants, bufs, sum, device, n - 1);
    }
}

/// A collective over a named tensor leaves everything as it is on a device that takes no
/// part, and every other tensor as it is on one that does.
pub proof fn collectives_touch_participants_only(
    before: LocalTopology,
    after: LocalTopology,
    kind: CollectiveKind,
    participants: Seq<u32>,
    tensor: Seq<char>,
    sum: Seq<Ieee32>,
    d: int,
    name: Seq<char>,
)
    requires
        shared(before, after, kind, participants, tensor, sum),
        0 <= d < before.runners@.len(),
        name != tensor || !devices(participants).contains(d),
    ensures
        after.runners@[d].named_value(name) == before.runners@[d].named_value(name),
{
    if !devices(participants).contains(d) {
        nothing_given(
            kind,
            devices(participants),
            before.held(participants, tensor),
            sum,
            d,
            participants.len() as int,
        );
    }
}

proof fn nothing_given_by_id(
    kind: CollectiveKind,
    targets: Seq<(usize, HandoffId)>,
    bufs: Seq<Seq<Ieee32>>,
    sum: Seq<Ieee32>,
    device: usize,
    id: HandoffId,
    n: int,
)
    requires
        n <= targets.len(),
        !targets.contains((device, id)),
    ensures
        given_id(kind, targets, bufs, sum, device as int, id, n) is None,
    decreases n,
{
    if n > 0 {
        assert(targets.contains(targets[n - 1]));
        nothing_given_by_id(kind, targets, bufs, sum, device, id, n - 1);
    }
}

/// A collective over resolved targets leaves every tensor that is not a target as it is.
pub proof fn collectives_touch_targets_only(
    before: LocalTopology,
    after: LocalTopology,
    kind: CollectiveKind,
    targets: Seq<(usize, HandoffId)>,
    sum: Seq<Ieee32>,
    d: usize,
    id: HandoffId,
)
    requires
        shared_by_id(before, after, kind, targets, sum),
        d < before.runners@.len(),
        !targets.contains((d, id)),
    ensures
        after.runners@[d as int].host_value(id) == before.runners@[d as int].host_value(id),
{
    nothing_given_by_id(
        kind,
        targets,
        before.held_by_id(targets),
        sum,
        d,
        id,
        targets.len() as int,
    );
}

proof fn given_its_own_share(
    kind: CollectiveKind,
    participants: Seq<int>,
    bufs: Seq<Seq<Ieee32>>,
    sum: Seq<Ieee32>,
    k: int,
    n: int,
)
    requires
        participants.no_duplicates(),
        0 <= k < n <= participants.len(),
    ensures
        given(kind, participants, bufs, sum, participants[k], n) == outcome(kind, bufs, sum, k),
    decreases n,
{
    if k < n - 1 {
        assert(participants[n - 1] != participants[k]);
        given_its_own_share(kind, participants, bufs, sum, k, n - 1);
    } else if outcome(kind, bufs, sum, k) is None {
        nothing_given_before(kind, participants, bufs, sum, k, k);
    }
}

proof fn nothing_given_before(
    kind: CollectiveKind,
    participants: Seq<int>,
    bufs: Seq<Seq<Ieee32>>,
    sum: Seq<Ieee32>,
    k: int,
    n: int,
)
    requires
        participants.no_duplicates(),
        0 <= k < participants.len(),
        n <= k,
    ensures
        given(kind, participants, bufs, sum, participants[k], n) is None,
    decreases n,
{
    if n > 0 {
        assert(participants[n - 1] != participants[k]);
        nothing_given_before(kind, participants, bufs, sum, k, n - 1);
    }
}

/// After a collective in one process, each participant's tensor is what the kind says of the
/// participants' tensors before, in the order of the list: their sum, all of them, the first
/// one's, or its own part of the sum; and at a handoff the second has the first one's, and
/// all others keep theirs.
pub proof fn devices_end_up_with_what_the_kind_says(
    before: LocalTopology,
    after: LocalTopology,
    kind: CollectiveKind,
    participants: Seq<u32>,
    tensor: Seq<char>,
    sum: Seq<Ieee32>,
    k: int,
)
    requires
        shared(before, after, kind, participants, tensor, sum),
        participants.no_duplicates(),
        0 <= k < participants.len(),
        forall|i: int|
            0 <= i < participants.len() ==> (#[trigger] participants[i]) < before.runners@.len(),
    ensures
        ({
            let was = Seq::new(
                participants.len(),
                |i: int| before.runners@[participants[i] as int].named_value(tensor)->0,
            );
            let now = after.runners@[participants[k] as int].named_value(tensor);
            let c = sum.len() as int / participants.len() as int;
            &&& kind == CollectiveKind::RingAllReduce ==> now == Some(sum)
            &&& kind == CollectiveKind::AllGather ==> now == Some(concatenated(was))
            &&& kind == CollectiveKind::Broadcast ==> now == Some(was[0])
            &&& kind == CollectiveKind::SendRecv && k == 1 ==> now == Some(was[0])
            &&& kind == CollectiveKind::SendRecv && k != 1 ==> now
                == before.runners@[participants[k] as int].named_value(tensor)
            &&& kind == CollectiveKind::ReduceScatter ==> now == Some(
                sum.subrange(k * c, (k + 1) * c),
            )
        }),
{
    let was = Seq::new(
        participants.len(),
        |i: int| before.runners@[participants[i] as int].named_value(tensor)->0,
    );
    assert(before.held(participants, tensor) =~= was);
    let all = devices(participants);
    assert(all.no_duplicates()) by {
        assert forall|i: int, j: int| 0 <= i < all.len() && 0 <= j < all.len() && i
            != j implies all[i] != all[j] by {
            assert(participants[i] != participants[j]);
        }
    }
    assert(all[k] == participants[k] as int);
    given_its_own_share(kind, all, was, sum, k, all.len() as int);
    assert(participants[k] < before.runners@.len());
}

proof fn given_id_its_own_share(
    kind: CollectiveKind,
    targets: Seq<(usize, HandoffId)>,
    bufs: Seq<Seq<Ieee32>>,
    sum: Seq<Ieee32>,
    k: int,
    n: int,
)
    requires
        targets.no_duplicates(),
        0 <= k < targets.len(),
        n <= targets.len(),
    ensures
        k < n ==> given_id(kind, targets, bufs, sum, targets[k].0 as int, targets[k].1, n)
            == outcome(kind, bufs, sum, k),
        n <= k ==> given_id(kind, targets, bufs, sum, targets[k].0 as int, targets[k].1, n) is None,
    decreases n,
{
    if n > 0 {
        given_id_its_own_share(kind, targets, bufs, sum, k, n - 1);
        if n - 1 != k {
            assert(targets[n - 1] != targets[k]);
        }
    }
}

/// The same of a collective over resolved targets.
pub proof fn targets_end_up_with_what_the_kind_says(
    before: LocalTopology,
    after: LocalTopology,
    kind: CollectiveKind,
    targets: Seq<(usize, HandoffId)>,
    sum: Seq<Ieee32>,
    k: int,
)
    requires
        shared_by_id(before, after, kind, targets, sum),
        targets.no_duplicates(),
        0 <= k < targets.len(),
        forall|i: int|
            0 <= i < targets.len() ==> (#[trigger] targets[i]).0 < before.runners@.len(),
    ensures
        ({
            let was = Seq::new(
                targets.len(),
                |i: int| before.runners@[targets[i].0 as int].host_value(targets[i].1)->0,
            );
            let now = after.runners@[targets[k].0 as int].host_value(targets[k].1);
            let c = sum.len() as int / targets.len() as int;
            &&& kind == CollectiveKind::RingAllReduce ==> now == Some(sum)
            &&& kind == CollectiveKind::AllGather ==> now == Some(concatenated(was))
            &&& kind == CollectiveKind::Broadcast ==> now == Some(was[0])
            &&& kind == CollectiveKind::SendRecv && k == 1 ==> now == Some(was[0])
            &&& kind == CollectiveKind::SendRecv && k != 1 ==> now
                == before.runners@[targets[k].0 as int].host_value(targets[k].1)
            &&& kind == CollectiveKind::ReduceScatter ==> now == Some(
                sum.subrange(k * c, (k + 1) * c),
            )
        }),
{
    let was = Seq::new(
        targets.len(),
        |i: int| before.runners@[targets[i].0 as int].host_value(targets[i].1)->0,
    );
    assert(before.held_by_id(targets) =~= was);
    given_id_its_own_share(kind, targets, was, sum, k, targets.len() as int);
    assert(targets[k].0 < before.runners@.len());
}

/// A segment runs on its own device, which must exist, and a collective concerns all: in one
/// process as in many.
pub proof fn local_steps_run_where_they_belong(
    t: &LocalTopology,
    i: usize,
    res: Result<TopologyAction, RankExecError>,
)
    requires
        call_ensures(LocalTopology::plan_host_step, (t, i), res),
        i < t.sequencing@.len(),
    ensures
        match t.sequencing@[i as int] {
            SequenceStep::ExecuteSegment { device_idx, segment_idx } => {
                &&& res is Ok <==> device_idx < t.runners@.len()
                &&& res is Ok ==> res->Ok_0 is RunSegment && res->Ok_0->RunSegment_device == device_idx
                    && res->Ok_0->segment_idx == segment_idx
            },
            SequenceStep::Collective { .. } => res is Ok && res->Ok_0 is Collective,
            SequenceStep::MoeRoute { .. } => res is Ok && res->Ok_0 is Nothing,
        },
{
}

/// The same of a resolved step; routing is done on the step's device.
pub proof fn resolved_steps_run_where_they_belong(t: &LocalTopology, i: usize, res: TopologyAction)
    requires
        call_ensures(LocalTopology::plan_resolved_step, (t, i), res),
        t.resolved@.len() > 0,
        i < t.resolved@[0]@.len(),
    ensures
        match t.resolved@[0]@[i as int] {
            ResolvedSequenceStep::ExecuteSegment { device_idx, segment_idx } => res is RunSegment
                && res->RunSegment_device == device_idx && res->segment_idx == segment_idx,
            ResolvedSequenceStep::MoeRoute { device_idx, .. } => res is Route && res->Route_device
                == device_idx,
            ResolvedSequenceStep::Collective { .. } => res is Collective,
        },
{
}

} // verus!
