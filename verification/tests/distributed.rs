//! Ranks, their segments and the collectives between them.

use std::collections::HashMap;

use skein::ieee::Ieee32;
use skein::ir::types::Dtype;
use skein::runtime::collective_kind::CollectiveKind;
use skein::runtime::distributed::barrier_collective::{
    check_group, gather_slots, read_result, reduce_slots,
};
use skein::runtime::distributed::handoff::{
    classify_handoff, parse_kvcache_name, HandoffKind, KvKind, RankExecError, SequenceStep,
};
use skein::runtime::distributed::launcher::{
    plan_launch, rank_environment, RankLaunchSpec, CUDA_VISIBLE_DEVICES_ENV, RENDEZVOUS_ENV,
};
use skein::runtime::distributed::local_topology::{LocalTopology, TopologyAction};
use skein::runtime::distributed::moe::{top_k, top_k_softmax};
use skein::runtime::distributed::rank_executor::{LocalSegments, RankCollective, RankExecutor};
use skein::runtime::distributed::rank_plan::{
    device_query, plan_rank_step, HandoffId, RankAction, ResolvedSequenceStep, ShmInfo,
};
use skein::runtime::distributed::segment_plan::{InputAction, KvWrite, OutputAction};
use skein::runtime::distributed::segment_runner::{SegmentRunner, SegmentSpec};
use skein::runtime::distributed::world::{CollectiveError, WorldLayout};

fn tensor(v: &[f32]) -> Vec<Ieee32> {
    v.iter().map(|x| Ieee32 { bits: x.to_bits() }).collect()
}

fn floats(v: &Vec<Ieee32>) -> Vec<f32> {
    v.iter().map(|x| f32::from_bits(x.bits)).collect()
}

fn plus(a: Ieee32, b: Ieee32) -> Ieee32 {
    Ieee32 {
        bits: (f32::from_bits(a.bits) + f32::from_bits(b.bits)).to_bits(),
    }
}

fn names(v: &[&str]) -> Vec<String> {
    v.iter().map(|s| s.to_string()).collect()
}

fn segment(inputs: &[&str], outputs: &[&str]) -> SegmentSpec {
    SegmentSpec {
        input_names: names(inputs),
        output_names: names(outputs),
        weight_names: vec![],
        kv_cache_sizes: vec![],
    }
}

/// Runs one segment on host tensors: what is uploaded goes into a map, `compute` turns it
/// into outputs, and what is read back goes into the runner.
fn run_segment<F: Fn(&HashMap<u32, Vec<f32>>, &str) -> Vec<f32>>(
    runner: &mut SegmentRunner,
    segment_idx: usize,
    compute: F,
) -> Result<Vec<KvWrite>, RankExecError> {
    runner.check_segment(segment_idx)?;
    let mut uploaded: HashMap<u32, Vec<f32>> = HashMap::new();
    for i in 0..runner.segments[segment_idx].input_names.len() {
        let mut action = runner.plan_input(segment_idx, i);
        if matches!(action, InputAction::EnsureKv { .. } | InputAction::AllocKv { .. }) {
            action = runner.kv_answer(segment_idx, i, None);
        }
        if let InputAction::UploadF32 { id } = action {
            let data = runner.read_by_id(id)?;
            uploaded.insert(id.0, floats(&data));
        }
    }
    let mut writes = vec![];
    for i in 0..runner.segments[segment_idx].output_names.len() {
        let name = runner.segments[segment_idx].output_names[i].clone();
        let _ = runner.wants_output_ptr(segment_idx, i);
        let action = runner.plan_output(segment_idx, i, None);
        assert!(matches!(action, OutputAction::ReadBack { .. }));
        let data = compute(&uploaded, &name);
        if let Some(w) = runner.take_output(segment_idx, i, tensor(&data)) {
            writes.push(w);
        }
    }
    Ok(writes)
}

#[test]
fn all_reduce_sum_across_threads() {
    let slots: Vec<Vec<Ieee32>> = (0..4).map(|r| tensor(&[r as f32 + 1.0; 3])).collect();
    let sum = reduce_slots(&slots, 0, &plus).unwrap();
    for rank in 0..4 {
        let buf = read_result(rank, 3, &sum).expect("all_reduce");
        assert_eq!(floats(&buf), vec![10.0f32; 3], "rank {rank} got {buf:?}");
    }
}

#[test]
fn all_gather_concatenates_in_rank_order() {
    let slots: Vec<Vec<Ieee32>> = (0..3).map(|r| tensor(&[r as f32])).collect();
    assert_eq!(floats(&gather_slots(&slots)), vec![0.0, 1.0, 2.0]);
}

#[test]
fn broadcast_from_root() {
    let root = tensor(&[7.0, 8.0]);
    for rank in 0..4 {
        let buf = read_result(rank, 2, &root).expect("broadcast");
        assert_eq!(floats(&buf), vec![7.0, 8.0], "rank {rank} got {buf:?}");
    }
}

#[test]
fn repeated_ops_stay_barrier_aligned() {
    let first: Vec<Vec<Ieee32>> = (0..3).map(|r| tensor(&[(r + 1) as f32; 2])).collect();
    let second: Vec<Vec<Ieee32>> = (0..3).map(|_| tensor(&[1.0; 2])).collect();
    let a = reduce_slots(&first, 0, &plus).expect("ar1");
    let b = reduce_slots(&second, 0, &plus).expect("ar2");
    assert_eq!(floats(&a), vec![6.0f32; 2]);
    assert_eq!(floats(&b), vec![3.0f32; 2]);
}

#[test]
fn unequal_contributions_are_an_error() {
    let slots = vec![tensor(&[1.0, 2.0]), tensor(&[1.0])];
    assert!(matches!(
        reduce_slots(&slots, 0, &plus),
        Err(CollectiveError::LengthMismatch { rank: 1, got: 1, expected: 2 })
    ));
    assert!(matches!(
        read_result(3, 2, &tensor(&[1.0])),
        Err(CollectiveError::LengthMismatch { rank: 3, got: 2, expected: 1 })
    ));
    assert!(matches!(
        check_group(0),
        Err(CollectiveError::BadLayout { rank: 0, world_size: 0 })
    ));
    assert!(check_group(1).is_ok());
}

#[test]
fn plan_launch_assigns_ranks_to_gpus() {
    let specs = plan_launch(&[0, 1, 2, 3], "/tmp/rdv").expect("plan");
    assert_eq!(specs.len(), 4);
    for (i, s) in specs.iter().enumerate() {
        assert_eq!(s.rank, i);
        assert_eq!(s.gpu, i);
        assert_eq!(s.world_size, 4);
        assert_eq!(s.rendezvous, "/tmp/rdv");
    }
}

#[test]
fn plan_launch_honors_a_gpu_subset() {
    let specs = plan_launch(&[2, 5], "/tmp/rdv").expect("plan");
    assert_eq!(specs[0].gpu, 2);
    assert_eq!(specs[1].gpu, 5);
    assert_eq!(specs[1].world_size, 2);
}

#[test]
fn plan_launch_rejects_empty() {
    assert!(matches!(
        plan_launch(&[], "/tmp/rdv"),
        Err(CollectiveError::BadLayout { .. })
    ));
}

#[test]
fn build_command_sets_rank_environment() {
    let spec = RankLaunchSpec {
        rank: 1,
        world_size: 2,
        gpu: 5,
        rendezvous: "/tmp/rdv".to_string(),
    };
    let envs: HashMap<&str, String> = rank_environment(&spec).into_iter().collect();
    assert_eq!(envs.len(), 4);
    assert_eq!(envs[CUDA_VISIBLE_DEVICES_ENV], "5");
    assert_eq!(envs[WorldLayout::RANK_ENV], "1");
    assert_eq!(envs[WorldLayout::WORLD_SIZE_ENV], "2");
    assert_eq!(envs[RENDEZVOUS_ENV], "/tmp/rdv");
}

#[test]
fn layouts_come_from_two_variables() {
    assert!(WorldLayout::from_vars(None, Some("2")).is_none());
    assert!(WorldLayout::from_vars(Some("0"), None).is_none());
    let l = WorldLayout::from_vars(Some("1"), Some("2")).unwrap().unwrap();
    assert_eq!((l.rank, l.world_size), (1, 2));
    assert!(!l.is_leader());
    assert!(WorldLayout::new(0, 1).unwrap().is_leader());
    assert!(matches!(
        WorldLayout::from_vars(Some("2"), Some("2")),
        Some(Err(CollectiveError::BadLayout { rank: 2, world_size: 2 }))
    ));
    assert!(matches!(
        WorldLayout::from_vars(Some("x"), Some("2")),
        Some(Err(CollectiveError::BadEnv { .. }))
    ));
    assert!(matches!(
        WorldLayout::from_vars(Some("0"), Some("99999999999999999999")),
        Some(Err(CollectiveError::BadEnv { .. }))
    ));
}

fn two_device_schedule(collective: CollectiveKind) -> Vec<SequenceStep> {
    vec![
        SequenceStep::ExecuteSegment {
            device_idx: 0,
            segment_idx: 0,
        },
        SequenceStep::ExecuteSegment {
            device_idx: 1,
            segment_idx: 0,
        },
        SequenceStep::Collective {
            collective,
            participants: vec![0, 1],
            tensor: "x".to_string(),
            shape: vec![2],
            dtype: Dtype::Bf16,
        },
    ]
}

fn run_topology(collective: CollectiveKind) -> Result<LocalTopology, RankExecError> {
    let runners = vec![
        SegmentRunner::new(vec![segment(&[], &["x"])]),
        SegmentRunner::new(vec![segment(&[], &["x"])]),
    ];
    let mut topo = LocalTopology::new(runners, two_device_schedule(collective));
    for i in 0..topo.sequencing.len() {
        match topo.plan_host_step(i)? {
            TopologyAction::RunSegment { device, segment_idx } => {
                run_segment(topo.runner_mut(device), segment_idx, |_, _| {
                    vec![device as f32 + 1.0; 2]
                })?;
            }
            TopologyAction::Collective => topo.run_collective(collective, &vec![0, 1], "x", &plus)?,
            other => panic!("unexpected action {other:?}"),
        }
    }
    Ok(topo)
}

#[test]
fn local_topology_runs_segments_and_all_reduces() {
    let topo = run_topology(CollectiveKind::RingAllReduce).expect("run_step");
    assert_eq!(floats(&topo.runner(0).read("x").unwrap()), vec![3.0, 3.0]);
    assert_eq!(floats(&topo.runner(1).read("x").unwrap()), vec![3.0, 3.0]);
}

#[test]
fn local_topology_all_gather_concatenates() {
    let topo = run_topology(CollectiveKind::AllGather).expect("run_step");
    assert_eq!(floats(&topo.runner(0).read("x").unwrap()), vec![1.0, 1.0, 2.0, 2.0]);
    assert_eq!(floats(&topo.runner(1).read("x").unwrap()), vec![1.0, 1.0, 2.0, 2.0]);
}

#[test]
fn local_topology_broadcasts_and_refuses() {
    let topo = run_topology(CollectiveKind::Broadcast).expect("run_step");
    assert_eq!(floats(&topo.runner(1).read("x").unwrap()), vec![1.0, 1.0]);
    assert!(matches!(
        run_topology(CollectiveKind::AllToAll),
        Err(RankExecError::UnsupportedCollective { kind: CollectiveKind::AllToAll })
    ));
}

const X: HandoffId = HandoffId(0);

fn collective(kind: CollectiveKind, participants: Vec<u32>) -> ResolvedSequenceStep {
    ResolvedSequenceStep::Collective {
        collective: kind,
        participants,
        tensor: X,
        elems: 2,
    }
}

/// Keeps tensors in a map; running a segment stores this rank's share of `x`.
struct MockSegments {
    rank: usize,
    store: HashMap<u32, Vec<Ieee32>>,
    routed: usize,
}

impl MockSegments {
    fn new(rank: usize) -> Self {
        MockSegments {
            rank,
            store: HashMap::new(),
            routed: 0,
        }
    }
}

impl LocalSegments for MockSegments {
    fn run_segment(&mut self, _segment_idx: usize) -> Result<(), RankExecError> {
        self.store.insert(X.0, tensor(&[self.rank as f32 + 1.0; 2]));
        Ok(())
    }
    fn read(&self, name: &str) -> Result<Vec<Ieee32>, RankExecError> {
        Err(RankExecError::UnknownTensor(name.to_string()))
    }
    fn write(&mut self, name: &str, _data: Vec<Ieee32>) -> Result<(), RankExecError> {
        Err(RankExecError::UnknownTensor(name.to_string()))
    }
    fn read_by_id(&self, id: HandoffId) -> Result<Vec<Ieee32>, RankExecError> {
        self.store
            .get(&id.0)
            .cloned()
            .ok_or_else(|| RankExecError::UnknownTensor(format!("id {}", id.0)))
    }
    fn write_by_id(&mut self, id: HandoffId, data: Vec<Ieee32>) -> Result<(), RankExecError> {
        self.store.insert(id.0, data);
        Ok(())
    }
    fn device_shm_all_reduce(
        &mut self,
        _ptr: u64,
        _shm: ShmInfo,
        _elems: usize,
    ) -> Result<(), RankExecError> {
        Err(RankExecError::UnknownTensor("no device".to_string()))
    }
    fn route_moe_resolved(&mut self, _step: &ResolvedSequenceStep) -> Result<(), RankExecError> {
        self.routed += 1;
        Ok(())
    }
}

/// A rank of a group whose other ranks contribute `[2, 2]` in total.
struct Peers {
    sent: std::cell::RefCell<Vec<(usize, Vec<f32>)>>,
}

impl RankCollective for Peers {
    fn rank(&self) -> usize {
        0
    }
    fn world_size(&self) -> usize {
        2
    }
    fn all_reduce_sum(&self, buf: &mut Vec<Ieee32>) -> Result<(), CollectiveError> {
        *buf = reduce_slots(&vec![buf.clone(), tensor(&[2.0, 2.0])], 0, &plus)?;
        Ok(())
    }
    fn all_gather(&self, buf: &Vec<Ieee32>) -> Result<Vec<Ieee32>, CollectiveError> {
        Ok(gather_slots(&vec![buf.clone(), tensor(&[2.0, 2.0])]))
    }
    fn broadcast(&self, _buf: &mut Vec<Ieee32>, _root: usize) -> Result<(), CollectiveError> {
        Err(CollectiveError::Poisoned)
    }
    fn send_f32(&self, buf: &Vec<Ieee32>, to: usize) -> Result<(), CollectiveError> {
        self.sent.borrow_mut().push((to, floats(buf)));
        Ok(())
    }
    fn recv_f32(&self, from: usize, elems: usize) -> Result<Vec<Ieee32>, CollectiveError> {
        Ok(tensor(&vec![from as f32; elems]))
    }
    fn all_reduce_sum_device_bf16(&self, _ptr: u64, _elems: usize) -> Result<(), CollectiveError> {
        Ok(())
    }
}

fn peers() -> Peers {
    Peers {
        sent: std::cell::RefCell::new(vec![]),
    }
}

#[test]
fn unsupported_collective_is_a_clear_error() {
    let schedule = vec![collective(CollectiveKind::AllToAll, vec![0])];
    let mut runner = MockSegments::new(0);
    runner.store.insert(X.0, tensor(&[1.0]));
    let mut exec = RankExecutor::new(0, runner);
    let err = exec.run(&schedule, &peers(), false).unwrap_err();
    assert!(matches!(
        err,
        RankExecError::UnsupportedCollective {
            kind: CollectiveKind::AllToAll
        }
    ));
}

#[test]
fn rank_executor_runs_local_segments_and_all_reduces() {
    let schedule = vec![
        ResolvedSequenceStep::ExecuteSegment {
            device_idx: 0,
            segment_idx: 0,
        },
        ResolvedSequenceStep::ExecuteSegment {
            device_idx: 1,
            segment_idx: 0,
        },
        collective(CollectiveKind::RingAllReduce, vec![0, 1]),
    ];
    let mut exec = RankExecutor::new(0, MockSegments::new(0));
    exec.run(&schedule, &peers(), false).expect("rank run");
    assert_eq!(exec.runner_mut().store.len(), 1);
    let x = exec.into_runner().read_by_id(X).expect("x present");
    assert_eq!(floats(&x), vec![3.0, 3.0]);
}

#[test]
fn the_walk_stops_at_the_first_failure() {
    let schedule = vec![
        collective(CollectiveKind::AllGather, vec![0]),
        ResolvedSequenceStep::ExecuteSegment {
            device_idx: 0,
            segment_idx: 0,
        },
    ];
    let mut exec = RankExecutor::new(0, MockSegments::new(0));
    assert!(matches!(
        exec.run(&schedule, &peers(), false),
        Err(RankExecError::UnknownTensor(n)) if n == "id 0"
    ));
    assert!(exec.runner().store.is_empty());
    let schedule = vec![
        schedule[1].clone(),
        collective(CollectiveKind::Broadcast, vec![0]),
    ];
    assert!(matches!(
        exec.run(&schedule, &peers(), false),
        Err(RankExecError::Collective(CollectiveError::Poisoned))
    ));
    assert_eq!(floats(&exec.runner().store[&X.0]), vec![1.0, 1.0]);
}

#[test]
fn ranks_hand_over_in_pairs() {
    let step = collective(CollectiveKind::SendRecv, vec![1, 3]);
    assert_eq!(
        plan_rank_step(1, false, &step, None, None),
        vec![RankAction::Read { tensor: X }, RankAction::Send { to: 3 }]
    );
    assert_eq!(
        plan_rank_step(3, false, &step, None, None),
        vec![RankAction::Recv { from: 1, elems: 2 }, RankAction::Write { tensor: X }]
    );
    assert!(plan_rank_step(2, false, &step, None, None).is_empty());
    let group = peers();
    let mut runner = MockSegments::new(1);
    runner.store.insert(X.0, tensor(&[5.0, 6.0]));
    RankExecutor::new(1, runner).run_step(&step, &group, false).unwrap();
    assert_eq!(*group.sent.borrow(), vec![(3, vec![5.0, 6.0])]);
    let mut exec = RankExecutor::new(3, MockSegments::new(3));
    exec.run_step(&step, &group, false).unwrap();
    assert_eq!(floats(&exec.runner().store[&X.0]), vec![1.0, 1.0]);
}

#[test]
fn reductions_stay_on_the_device_where_they_can() {
    let step = collective(CollectiveKind::RingAllReduce, vec![0, 1]);
    assert_eq!(device_query(0, &step), Some(X));
    assert_eq!(device_query(2, &step), None);
    assert_eq!(
        plan_rank_step(0, false, &step, Some((64, 4)), None),
        vec![RankAction::DeviceAllReduce { ptr: 64, elems: 4 }]
    );
    let shm = ShmInfo {
        ptr: 8,
        rank: 0,
        slot_bytes: 262144,
        max_elems: 4,
    };
    assert_eq!(
        plan_rank_step(0, true, &step, Some((64, 4)), Some(shm)),
        vec![RankAction::ShmAllReduce { ptr: 64, shm, elems: 4 }]
    );
    assert_eq!(
        plan_rank_step(0, true, &step, Some((64, 5)), Some(shm)),
        vec![RankAction::DeviceAllReduce { ptr: 64, elems: 5 }]
    );
}

/// Segments on the host; running one gives this rank's share of its outputs.
struct HostSegments {
    rank: usize,
    runner: SegmentRunner,
}

impl LocalSegments for HostSegments {
    fn run_segment(&mut self, segment_idx: usize) -> Result<(), RankExecError> {
        let share = vec![self.rank as f32 + 1.0; 2];
        run_segment(&mut self.runner, segment_idx, |_, _| share.clone())?;
        Ok(())
    }
    fn read(&self, name: &str) -> Result<Vec<Ieee32>, RankExecError> {
        self.runner.read(name)
    }
    fn write(&mut self, name: &str, data: Vec<Ieee32>) -> Result<(), RankExecError> {
        self.runner.write(name, data)
    }
    fn read_by_id(&self, id: HandoffId) -> Result<Vec<Ieee32>, RankExecError> {
        self.runner.read_by_id(id)
    }
    fn write_by_id(&mut self, id: HandoffId, data: Vec<Ieee32>) -> Result<(), RankExecError> {
        self.runner.write_by_id(id, data)
    }
    fn device_shm_all_reduce(
        &mut self,
        _ptr: u64,
        _shm: ShmInfo,
        _elems: usize,
    ) -> Result<(), RankExecError> {
        Err(RankExecError::UnknownTensor("no device".to_string()))
    }
    fn route_moe_resolved(&mut self, _step: &ResolvedSequenceStep) -> Result<(), RankExecError> {
        Ok(())
    }
}

/// A rank of a group that reduces over what the ranks contributed last.
struct SlotGroup {
    rank: usize,
    slots: std::rc::Rc<std::cell::RefCell<Vec<Vec<Ieee32>>>>,
}

impl RankCollective for SlotGroup {
    fn rank(&self) -> usize {
        self.rank
    }
    fn world_size(&self) -> usize {
        self.slots.borrow().len()
    }
    fn all_reduce_sum(&self, buf: &mut Vec<Ieee32>) -> Result<(), CollectiveError> {
        self.slots.borrow_mut()[self.rank] = buf.clone();
        let slots = self.slots.borrow().clone();
        if slots.iter().any(|s| s.is_empty()) {
            return Ok(());
        }
        let sum = reduce_slots(&slots, self.rank, &plus)?;
        *buf = read_result(self.rank, buf.len(), &sum)?;
        Ok(())
    }
    fn all_gather(&self, _buf: &Vec<Ieee32>) -> Result<Vec<Ieee32>, CollectiveError> {
        Err(CollectiveError::Poisoned)
    }
    fn broadcast(&self, _buf: &mut Vec<Ieee32>, _root: usize) -> Result<(), CollectiveError> {
        Err(CollectiveError::Poisoned)
    }
    fn send_f32(&self, _buf: &Vec<Ieee32>, _to: usize) -> Result<(), CollectiveError> {
        Err(CollectiveError::Poisoned)
    }
    fn recv_f32(&self, _from: usize, _elems: usize) -> Result<Vec<Ieee32>, CollectiveError> {
        Err(CollectiveError::Poisoned)
    }
    fn all_reduce_sum_device_bf16(&self, _ptr: u64, _elems: usize) -> Result<(), CollectiveError> {
        Err(CollectiveError::Poisoned)
    }
}

/// The ranks take turns: in the first round each leaves its contribution, in the second
/// each finds those of all.
#[test]
fn full_two_rank_pipeline_runs_on_cpu() {
    let schedule = two_device_schedule(CollectiveKind::RingAllReduce);
    let slots = std::rc::Rc::new(std::cell::RefCell::new(vec![vec![]; 2]));
    let mut ranks = vec![];
    for rank in 0..2 {
        let mut runner = SegmentRunner::new(vec![segment(&[], &["x"])]);
        let resolved = runner.resolve_schedule(&schedule, &vec![vec![]]).expect("resolve");
        let exec = RankExecutor::new(rank, HostSegments { rank, runner });
        ranks.push((exec, resolved));
    }
    for _round in 0..2 {
        for (rank, (exec, resolved)) in ranks.iter_mut().enumerate() {
            let coll = SlotGroup {
                rank,
                slots: slots.clone(),
            };
            exec.run(resolved, &coll, false).expect("rank run");
        }
    }
    for (rank, (exec, _)) in ranks.into_iter().enumerate() {
        let x = floats(&exec.into_runner().read("x").expect("x present"));
        assert_eq!(x, vec![3.0, 3.0], "rank {rank} got {x:?}");
    }
}

#[test]
fn runs_segment_feeding_inputs_and_capturing_outputs() {
    let mut runner = SegmentRunner::new(vec![segment(&["in"], &["out"])]);
    runner.write("in", tensor(&[1.0, 2.0, 3.0])).unwrap();
    let id = runner.handoff_id("in").unwrap();
    run_segment(&mut runner, 0, |inputs, _| {
        inputs[&id.0].iter().map(|v| v * 2.0).collect()
    })
    .unwrap();
    assert_eq!(floats(&runner.read("out").unwrap()), vec![2.0, 4.0, 6.0]);
}

#[test]
fn collective_result_written_back_is_visible_to_next_read() {
    let mut runner = SegmentRunner::new(vec![segment(&["in"], &["out"])]);
    runner.write("x", tensor(&[9.0])).unwrap();
    assert_eq!(floats(&runner.read("x").unwrap()), vec![9.0]);
}

#[test]
fn out_of_range_segment_is_an_error() {
    let mut runner = SegmentRunner::new(vec![]);
    assert!(matches!(
        run_segment(&mut runner, 0, |_, _| vec![]),
        Err(RankExecError::Segment { segment_idx: 0, .. })
    ));
}

#[test]
fn kv_cache_writes_into_position_slots() {
    let mut spec = segment(&["kvcache_k_0"], &["kvcache_k_0"]);
    spec.kv_cache_sizes = vec![("kvcache_k_0".to_string(), 8)];
    let mut runner = SegmentRunner::new(vec![spec]);
    let mut cache: Vec<f32> = vec![];
    for p in 0..3usize {
        runner.set_position(
            p,
            Ieee32 {
                bits: (p as f32).to_bits(),
            },
        );
        for w in run_segment(&mut runner, 0, |_, _| vec![7.0, 7.0]).unwrap() {
            assert_eq!(w.kind, KvKind::Key);
            assert_eq!(w.layer, 0);
            assert_eq!(w.slot, p);
            cache.extend(floats(&w.data));
        }
    }
    assert_eq!(cache, vec![7.0, 7.0, 7.0, 7.0, 7.0, 7.0]);
    assert!(runner.read("kvcache_k_0").is_err());
}

#[test]
fn kv_buffers_on_the_device_are_remembered_per_request() {
    let mut spec = segment(&["kvcache_v_3"], &["kvcache_v_3"]);
    spec.kv_cache_sizes = vec![("kvcache_v_3".to_string(), 8)];
    let mut runner = SegmentRunner::new(vec![spec]);
    runner.set_paged_device_kv(true);
    let id = runner.handoff_id("kvcache_v_3").unwrap();
    runner.activate_request(7, 2);
    assert!(matches!(
        runner.plan_input(0, 0),
        InputAction::AllocKv { n_bytes: 32, request: 7, .. }
    ));
    assert!(matches!(
        runner.kv_answer(0, 0, Some(4096)),
        InputAction::BindKv { ptr: 4096, n_bytes: 32, .. }
    ));
    assert!(matches!(
        runner.plan_input(0, 0),
        InputAction::BindKv { ptr: 4096, .. }
    ));
    runner.activate_request(8, 0);
    assert!(matches!(
        runner.plan_input(0, 0),
        InputAction::AllocKv { request: 8, .. }
    ));
    runner.activate_request(7, 2);
    let _ = runner.plan_input(0, 0);
    assert!(runner.wants_output_ptr(0, 0));
    assert_eq!(
        runner.plan_output(0, 0, Some((100, 8))),
        OutputAction::KvCopy {
            id,
            dest: 4096 + 2 * 8,
            n_bytes: 8
        }
    );
}

#[test]
fn device_outputs_replace_host_values() {
    let mut runner = SegmentRunner::new(vec![segment(&["in"], &["out"])]);
    runner.write("out", tensor(&[1.0])).unwrap();
    assert_eq!(runner.plan_output(0, 0, Some((512, 8))), OutputAction::Kept);
    let h = runner.output_device("out").unwrap();
    assert_eq!((h.ptr, h.n_bytes, h.elems), (512, 8, 4));
    assert_eq!(runner.output_device_ptr("out"), Some((512, 4)));
    assert!(runner.read_handoff("out").is_none());
    runner.set_host_tensors(names(&["out"]));
    assert!(runner.segment_has_host_output(0));
}

#[test]
fn handoffs_are_classified_by_name() {
    assert_eq!(parse_kvcache_name("kvcache_k_12"), Some((KvKind::Key, 12)));
    assert_eq!(parse_kvcache_name("kvcache_v_0"), Some((KvKind::Value, 0)));
    assert_eq!(parse_kvcache_name("kvcache_q_0"), None);
    assert_eq!(parse_kvcache_name("kvcache_k_"), None);
    assert_eq!(parse_kvcache_name("kvcache_k_x"), None);
    assert_eq!(
        classify_handoff("kvcache_k_12", &vec![]),
        HandoffKind::KvCache {
            kind: KvKind::Key,
            layer: 12
        }
    );
    assert_eq!(classify_handoff("logits", &names(&["logits"])), HandoffKind::HostCollective);
    assert_eq!(classify_handoff("input_tokens", &vec![]), HandoffKind::I32);
    assert_eq!(classify_handoff("hidden_3", &vec![]), HandoffKind::Device);
}

fn softmax(logits: &Vec<Ieee32>) -> Vec<Ieee32> {
    let logits = floats(logits);
    let max = logits.iter().copied().fold(f32::NEG_INFINITY, f32::max);
    let exps: Vec<f32> = logits.iter().map(|x| (x - max).exp()).collect();
    let sum: f32 = exps.iter().sum::<f32>().max(f32::MIN_POSITIVE);
    tensor(&exps.iter().map(|e| e / sum).collect::<Vec<f32>>())
}

#[test]
fn top_k_softmax_picks_descending_and_normalizes() {
    let (idx, gates) = top_k_softmax(&tensor(&[3.0, 1.0, 5.0, 2.0]), 2, &softmax);
    let gates = floats(&gates);
    assert_eq!(idx, vec![2, 0], "top-2 picked in descending-logit order");
    assert!((gates[0] - 0.880_797).abs() < 1e-5, "gate0={}", gates[0]);
    assert!((gates[1] - 0.119_203).abs() < 1e-5, "gate1={}", gates[1]);
    assert!((gates.iter().sum::<f32>() - 1.0).abs() < 1e-6, "gates sum to 1");
    let (idx, gates) = top_k_softmax(&tensor(&[1.0, 2.0]), 5, &softmax);
    assert_eq!(idx, vec![1, 0]);
    assert_eq!(gates.len(), 2);
    assert_eq!(top_k(&tensor(&[4.0, 4.0, 4.0]), 2), vec![0, 1]);
    let (idx, gates) = top_k_softmax(&tensor(&[1.0]), 0, &softmax);
    assert!(idx.is_empty() && gates.is_empty());
}

#[test]
fn route_moe_resolved_rebinds_selected_experts_into_slots() {
    let slots = [
        "moe_slot0_w1_0",
        "moe_slot0_w2_0",
        "moe_slot0_w3_0",
        "moe_slot1_w1_0",
        "moe_slot1_w2_0",
        "moe_slot1_w3_0",
    ];
    let mut runner = SegmentRunner::new(vec![segment(&slots, &[])]);
    runner
        .write("router_logits_0", tensor(&[3.0, 1.0, 5.0, 2.0]))
        .unwrap();
    let router_id = runner.handoff_id("router_logits_0").unwrap();
    let id = |n: &str| runner.handoff_id(n).unwrap();
    let slot_ids: Vec<[HandoffId; 3]> = vec![
        [id(slots[0]), id(slots[1]), id(slots[2])],
        [id(slots[3]), id(slots[4]), id(slots[5])],
    ];
    let expert_weights: Vec<[(u64, usize); 3]> = (0..4)
        .map(|e| {
            let b = (e as u64 + 1) * 1000;
            [(b + 1, 11), (b + 2, 22), (b + 3, 33)]
        })
        .collect();
    let (picked, gates) = runner
        .route_experts(router_id, 2, slot_ids.len(), &softmax)
        .unwrap();
    assert_eq!(gates.len(), 2);
    let (bindings, ended) = runner.bind_experts(0, &picked, &expert_weights, &slot_ids);
    assert!(ended.is_ok());
    let b: HashMap<HandoffId, (u64, usize)> =
        bindings.iter().map(|b| (b.id, (b.ptr, b.n_bytes))).collect();
    for w in 0..3 {
        assert_eq!(b[&slot_ids[0][w]], expert_weights[2][w], "slot0 w{w}");
        assert_eq!(b[&slot_ids[1][w]], expert_weights[0][w], "slot1 w{w}");
    }
    assert!(matches!(
        runner.route_experts(HandoffId(999), 2, 2, &softmax),
        Err(RankExecError::UnknownTensor(_))
    ));
}

fn moe_step() -> SequenceStep {
    SequenceStep::MoeRoute {
        device_idx: 0,
        block: 1,
        ffn_segment_idx: 0,
        router_tensor: "router_logits_1".to_string(),
        top_k: 1,
        expert_weight_names: vec![[
            "e0_w1".to_string(),
            "e0_w2".to_string(),
            "e0_w3".to_string(),
        ]],
        slot_weight_names: vec![[
            "moe_slot0_w1_1".to_string(),
            "moe_slot0_w2_1".to_string(),
            "moe_slot0_w3_1".to_string(),
        ]],
        slot_gate_names: vec!["moe_gate0_1".to_string()],
    }
}

#[test]
fn schedules_are_resolved_to_ids_and_buffers() {
    let mut spec = segment(&["moe_slot0_w1_1"], &[]);
    spec.weight_names = vec![
        ("e0_w1".to_string(), vec![2, 3]),
        ("e0_w2".to_string(), vec![3, 2]),
        ("e0_w3".to_string(), vec![5]),
    ];
    let resident = vec![vec![
        ("e0_w1".to_string(), 100u64),
        ("e0_w2".to_string(), 200),
        ("e0_w3".to_string(), 300),
    ]];
    let mut runner = SegmentRunner::new(vec![spec]);
    let resolved = runner.resolve_schedule(&vec![moe_step()], &resident).unwrap();
    match &resolved[0] {
        ResolvedSequenceStep::MoeRoute {
            router_id,
            block,
            expert_weights,
            slot_ids,
            gate_ids,
            ..
        } => {
            assert_eq!(*block, 1);
            assert_eq!(Some(*router_id), runner.handoff_id("router_logits_1"));
            assert_eq!(*expert_weights, vec![[(100, 12), (200, 12), (300, 10)]]);
            assert_eq!(Some(slot_ids[0][0]), runner.handoff_id("moe_slot0_w1_1"));
            assert_eq!(Some(gate_ids[0]), runner.handoff_id("moe_gate0_1"));
        }
        other => panic!("unexpected step {other:?}"),
    }
    let (bound, done) = runner.bind_gate_inputs(&resolved, 0, Some((1000, 4)));
    done.unwrap();
    assert_eq!(bound.len(), 1);
    assert_eq!(bound[0].ptr, 1000 + 2 * 4);
    assert!(matches!(
        runner.resolve_schedule(&vec![moe_step()], &vec![vec![]]),
        Err(RankExecError::Segment { segment_idx: 0, .. })
    ));
}

#[test]
fn gates_are_bound_until_one_fails() {
    let route = |device_idx: u32, ffn_segment_idx: usize, block: usize| {
        ResolvedSequenceStep::MoeRoute {
            device_idx,
            ffn_segment_idx,
            router_id: X,
            top_k: 2,
            block,
            expert_weights: vec![],
            slot_ids: vec![],
            gate_ids: vec![HandoffId(1), HandoffId(2)],
        }
    };
    let runner = SegmentRunner::new(vec![segment(&["in"], &["out"])]);
    let (bound, done) = runner.bind_gate_inputs(
        &vec![route(0, 0, 0), route(1, 5, usize::MAX), route(0, 1, 1)],
        0,
        Some((100, 2)),
    );
    let places: Vec<u64> = bound.iter().map(|b| b.ptr).collect();
    assert_eq!(places, vec![100, 102]);
    assert!(matches!(
        done,
        Err(RankExecError::Segment { segment_idx: 1, detail })
            if detail == "MoeRoute FFN segment index out of range (bind_gate_inputs)"
    ));
    let (bound, done) = runner.bind_gate_inputs(
        &vec![route(0, 0, 0), route(0, 0, 1)],
        0,
        Some((u64::MAX - 5, 2)),
    );
    assert_eq!(bound.len(), 3);
    assert_eq!(bound[2].ptr, u64::MAX - 1);
    assert!(matches!(
        done,
        Err(RankExecError::Segment { segment_idx: 0, detail })
            if detail == "gate buffer offset overflow"
    ));
    let (bound, done) = runner.bind_gate_inputs(&vec![route(0, 0, 0)], 0, None);
    assert!(bound.is_empty());
    assert!(done.is_err());
}

#[test]
fn participants_without_a_collective_are_passed_over() {
    let segments = || SegmentRunner::new(vec![segment(&[], &["x"])]);
    let run = ResolvedSequenceStep::ExecuteSegment {
        device_idx: 1,
        segment_idx: 0,
    };
    let reduce = collective(CollectiveKind::Broadcast, vec![0, 1, 2]);
    let mut topo = LocalTopology::new(vec![segments(), segments(), segments()], vec![]);
    topo.set_resolved(vec![vec![reduce.clone()], vec![run], vec![reduce]]);
    let targets = topo.resolved_targets(&vec![0, 1, 2], 0);
    assert_eq!(targets, vec![(0, X), (2, X)]);
    for d in 0..3 {
        topo.runner_mut(d).write("x", tensor(&[d as f32])).unwrap();
    }
    topo.run_collective_resolved(CollectiveKind::Broadcast, &targets, &plus).unwrap();
    let held: Vec<f32> = (0..3).map(|d| floats(&topo.runner(d).read("x").unwrap())[0]).collect();
    assert_eq!(held, vec![0.0, 1.0, 0.0]);
}

#[test]
fn segments_that_know_no_ids_have_no_tensors() {
    struct Nameless;
    impl LocalSegments for Nameless {
        fn run_segment(&mut self, _segment_idx: usize) -> Result<(), RankExecError> {
            Ok(())
        }
        fn read(&self, name: &str) -> Result<Vec<Ieee32>, RankExecError> {
            Err(RankExecError::UnknownTensor(name.to_string()))
        }
        fn write(&mut self, name: &str, _data: Vec<Ieee32>) -> Result<(), RankExecError> {
            Err(RankExecError::UnknownTensor(name.to_string()))
        }
        fn write_by_id(&mut self, _id: HandoffId, _data: Vec<Ieee32>) -> Result<(), RankExecError> {
            Ok(())
        }
        fn device_shm_all_reduce(
            &mut self,
            _ptr: u64,
            _shm: ShmInfo,
            _elems: usize,
        ) -> Result<(), RankExecError> {
            Ok(())
        }
        fn route_moe_resolved(
            &mut self,
            _step: &ResolvedSequenceStep,
        ) -> Result<(), RankExecError> {
            Ok(())
        }
    }
    assert!(matches!(
        Nameless.read_by_id(HandoffId(12)),
        Err(RankExecError::UnknownTensor(n)) if n == "id 12"
    ));
    assert_eq!(Nameless.output_device_ptr("x"), None);
    assert_eq!(Nameless.output_device_ptr_by_id(X), None);
}

#[test]
fn ranks_without_a_part_are_untouched() {
    let steps = vec![
        ResolvedSequenceStep::ExecuteSegment {
            device_idx: 1,
            segment_idx: 0,
        },
        collective(CollectiveKind::RingAllReduce, vec![0, 1]),
        collective(CollectiveKind::AllToAll, vec![0, 1]),
        collective(CollectiveKind::SendRecv, vec![0, 1]),
    ];
    let mut runner = MockSegments::new(2);
    runner.store.insert(X.0, tensor(&[4.0]));
    let mut exec = RankExecutor::new(2, runner);
    exec.run(&steps, &peers(), false).unwrap();
    assert_eq!(exec.runner().store.len(), 1);
    assert_eq!(floats(&exec.runner().store[&X.0]), vec![4.0]);
    assert_eq!(exec.runner().routed, 0);
}

#[test]
fn launched_ranks_read_their_own_layout() {
    for spec in plan_launch(&[3, 7, 1], "rdv").unwrap().iter() {
        let env: HashMap<&str, String> = rank_environment(spec).into_iter().collect();
        let layout = WorldLayout::from_vars(
            Some(&env[WorldLayout::RANK_ENV]),
            Some(&env[WorldLayout::WORLD_SIZE_ENV]),
        );
        let layout = layout.unwrap().unwrap();
        assert_eq!((layout.rank, layout.world_size), (spec.rank, 3));
    }
}

#[test]
fn tensors_are_traced_to_their_segments() {
    let runner = SegmentRunner::new(vec![
        segment(&["a"], &["b"]),
        segment(&["b"], &["c"]),
        segment(&["b"], &["c"]),
    ]);
    let id = |n: &str| runner.handoff_id(n).unwrap();
    assert_eq!(runner.consumer_of(id("b")), Some(1));
    assert_eq!(runner.producer_of(id("c")), Some(1));
    assert_eq!(runner.producer_of(id("a")), None);
    assert_eq!(runner.segment_count(), 3);
}

#[test]
fn captured_outputs_pass_through_on_the_device() {
    let mut runner = SegmentRunner::new(vec![segment(&[], &["logits"])]);
    runner.set_host_tensors(names(&["logits"]));
    assert!(!runner.wants_output_ptr(0, 0));
    runner.set_capture_passthrough_by_names(&names(&["logits", "unknown"]));
    runner.set_capturing(true);
    assert!(runner.wants_output_ptr(0, 0));
    assert_eq!(runner.plan_output(0, 0, Some((32, 4))), OutputAction::Kept);
    let id = runner.handoff_id("logits").unwrap();
    runner.set_device_handoff_by_id(id, 64, 8);
    assert_eq!(runner.output_device_ptr_by_id(id), Some((64, 4)));
}
