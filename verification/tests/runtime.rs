//! Admission and batching, collectives, drift, hot swaps and captured graphs.

use skein::ieee::{Ieee32, Ieee64};
use skein::ir::types::{BatchPolicy, Dtype};
use skein::ir::workload::{RequestRecord, Slo, Workload};
use skein::runtime::batcher::admission::{
    decide, AdmissionDecision, Predictions, RejectReason,
};
use skein::runtime::batcher::chunking::{plan_chunks, ChunkPlan};
use skein::runtime::batcher::continuous::ContinuousBatcher;
use skein::runtime::batcher::inflight::{InflightSet, Phase};
use skein::runtime::batcher::queue::AdmissionQueue;
use skein::runtime::batcher::retire::retire;
use skein::runtime::collective_kind::CollectiveKind;
use skein::runtime::collectives::{CollectiveError, MockCollective, NcclCollective};
use skein::runtime::cuda::{
    segment_hash, segment_path, shm_info, CudaGraphCache, GraphOutcome, NcclCommunicator,
    RdmaTransport,
};
use skein::runtime::dispatch::CudaGraphDispatcher;
use skein::runtime::drift_monitor::{bucket, DriftMonitor, WorkloadProfile, EDGES};
use skein::runtime::error::RuntimeError;
use skein::runtime::hotswap::{
    describe_mismatch, drain_step, verify_shape_compatibility, DrainStep, HotSwap, InputMismatch,
    IoManifest, IoTensor, IoTensorKind, SwapStep,
};
use skein::runtime::types::{IncomingRequest, RequestId, TokenSender};

fn ieee64(x: f64) -> Ieee64 {
    Ieee64 { bits: x.to_bits() }
}

fn tensor(v: &[f32]) -> Vec<Ieee32> {
    v.iter().map(|x| Ieee32 { bits: x.to_bits() }).collect()
}

fn floats(v: &Vec<Ieee32>) -> Vec<f32> {
    v.iter().map(|x| f32::from_bits(x.bits)).collect()
}

fn plus(a: Ieee32, b: Ieee32) -> Ieee32 {
    Ieee32 {
        bits: (f32::from_bits(a.bits) + f32::from_bits(b.bits)).to_bits(),
    }
}

fn slo() -> Slo {
    Slo {
        ttft_p95_ms: 500,
        tpot_p95_ms: 50,
        max_accuracy_drift: ieee64(0.01),
        recompile_drift_threshold_kl: ieee64(0.123),
    }
}

fn workload() -> Workload {
    Workload {
        slo: slo(),
        requests: vec![RequestRecord {
            prompt_tokens: 10,
            output_tokens: 64,
            arrival_ms: 0,
        }],
    }
}

fn request(id: u64, prompt: usize, max_output_tokens: u32) -> IncomingRequest {
    IncomingRequest {
        id: RequestId(id),
        prompt_tokens: (0..prompt as u32).collect(),
        max_output_tokens,
        arrival_ms: 0,
    }
}

fn stream(n: u64) -> TokenSender {
    TokenSender { stream: n }
}

#[test]
fn admission_weighs_prefill_batch_and_step_times() {
    let p = |prefill: f64, step: f64, next: f64| Predictions {
        prefill_ms: ieee64(prefill),
        step_ms: ieee64(step),
        next_step_ms: ieee64(next),
    };
    assert_eq!(decide(7, 4, 0, &slo(), &p(500.0, 3.0, 50.0)), AdmissionDecision::Admit);
    assert_eq!(
        decide(7, 4, 0, &slo(), &p(500.5, 3.0, 50.0)),
        AdmissionDecision::Reject {
            reason: RejectReason::PromptTooLong
        }
    );
    assert_eq!(
        decide(7, 4, 4, &slo(), &p(1.0, 3.9, 4.0)),
        AdmissionDecision::Delay { until_ms: 10 }
    );
    assert_eq!(
        decide(7, 4, 3, &slo(), &p(1.0, 0.4, 50.25)),
        AdmissionDecision::Delay { until_ms: 8 }
    );
}

#[test]
fn chunks_cover_the_prompt() {
    let policy = BatchPolicy::ContinuousChunked {
        max_batch: 4,
        chunk_tokens: 4,
    };
    let mut plan = plan_chunks(&request(1, 10, 1), policy);
    assert_eq!(
        plan,
        ChunkPlan {
            chunk_size: 4,
            total_chunks: 3,
            next_chunk: 0
        }
    );
    let mut ranges = vec![];
    while let Some(r) = plan.current_range(10) {
        ranges.push(r);
        plan.advance();
    }
    assert_eq!(ranges, vec![(0, 4), (4, 8), (8, 10)]);
    assert!(plan.is_done());
    plan.advance();
    assert_eq!(plan.next_chunk, 3);
    let whole = plan_chunks(&request(1, 10, 1), BatchPolicy::Static { max_batch: 1 });
    assert_eq!((whole.chunk_size, whole.total_chunks), (10, 1));
}

#[test]
fn the_queue_hands_out_those_whose_time_has_come() {
    let mut q = AdmissionQueue::new();
    q.push(request(1, 1, 1), stream(1), 5);
    q.push(request(2, 1, 1), stream(2), 3);
    assert!(q.pop_ready(4).is_none());
    assert_eq!(q.pop_ready(5).unwrap().request.id, RequestId(1));
    assert_eq!(q.len(), 1);
    assert_eq!(q.pop_ready(5).unwrap().request.id, RequestId(2));
    assert!(q.is_empty());
}

#[test]
fn inflight_requests_are_kept_by_id() {
    let mut set = InflightSet::new();
    let policy = BatchPolicy::Continuous { max_batch: 2 };
    set.insert(request(5, 3, 2), stream(50), policy, 9);
    set.insert(request(6, 3, 2), stream(60), policy, 9);
    assert_eq!(set.len(), 2);
    assert_eq!(set.get(RequestId(5)).unwrap().phase, Phase::Prefill);
    set.get_mut(RequestId(5)).unwrap().phase = Phase::Decode;
    assert_eq!(set.ids_in(Phase::Decode), vec![RequestId(5)]);
    assert!(set.get_mut(RequestId(7)).is_none());
    let mut ids: Vec<u64> = set.iter().iter().map(|r| r.request.id.0).collect();
    ids.sort();
    assert_eq!(ids, vec![5, 6]);
    assert_eq!(retire(RequestId(5), &mut set), Ok(stream(50)));
    assert_eq!(
        retire(RequestId(5), &mut set),
        Err(RuntimeError::UnknownRequest(5))
    );
    assert!(set.remove(RequestId(6)).is_some());
    assert!(set.is_empty());
}

#[test]
fn the_batcher_admits_delays_and_promotes() {
    let prefill = |_: u32| ieee64(10.0);
    let tpot = |n: u32| ieee64(20.0 * n as f64);
    let mut b = ContinuousBatcher::new(
        BatchPolicy::Continuous { max_batch: 8 },
        workload(),
        None,
    );
    assert_eq!(
        b.enroll(request(1, 2, 2), stream(1), 0, &prefill, &tpot),
        AdmissionDecision::Admit
    );
    assert_eq!(
        b.enroll(request(2, 2, 2), stream(2), 0, &prefill, &tpot),
        AdmissionDecision::Admit
    );
    let third = b.enroll(request(3, 2, 2), stream(3), 0, &prefill, &tpot);
    assert_eq!(third, AdmissionDecision::Delay { until_ms: 40 });
    assert_eq!((b.inflight_len(), b.queued_len()), (2, 1));
    assert!(b.promote_ready(39, &prefill, &tpot).is_empty());
    assert_eq!(b.queued_len(), 1);

    let pages = |n: usize| n as u32 / 4;
    let step = b.next_step_batch(7, &pages);
    assert_eq!(step.prefill_requests.len(), 2);
    assert_eq!(step.uniform_decode_size, None);
    assert_eq!(step.total_kv_pages, 7);
    let out = b.accept_token(RequestId(1), 42).unwrap();
    assert!(!out.is_final);
    assert_eq!(out.sender, stream(1));
    assert_eq!(b.next_step_batch(7, &pages).decode_requests, vec![RequestId(1)]);
    assert_eq!(b.next_step_batch(7, &pages).uniform_decode_size, Some(1));
    assert_eq!(b.current_sequence(RequestId(1)), Some(vec![0, 1, 42]));
    assert!(b.accept_token(RequestId(1), 43).unwrap().is_final);
    assert!(b.accept_token(RequestId(9), 43).is_none());
    assert!(b.retire(RequestId(1)).is_ok());
    assert!(b.promote_ready(40, &prefill, &tpot).is_empty());
    assert_eq!((b.inflight_len(), b.queued_len()), (2, 0));
    assert_eq!(b.inflight_ref().get(RequestId(3)).unwrap().admitted_at_ms, 40);
    assert_eq!(b.workload().requests.len(), 1);
}

#[test]
fn decodes_are_uniform_in_one_kv_class() {
    let fast = |_: u32| ieee64(1.0);
    let mut b = ContinuousBatcher::new(
        BatchPolicy::Continuous { max_batch: 8 },
        workload(),
        None,
    );
    b.enroll(request(1, 2, 9), stream(1), 0, &fast, &fast);
    b.enroll(request(2, 3, 9), stream(2), 0, &fast, &fast);
    b.enroll(request(3, 40, 9), stream(3), 0, &fast, &fast);
    assert_eq!(b.next_step_batch(0, &|n: usize| n as u32).uniform_decode_size, None);
    b.accept_token(RequestId(1), 7);
    b.accept_token(RequestId(2), 7);
    let step = b.next_step_batch(0, &|n: usize| n as u32 / 8);
    assert_eq!(step.decode_requests.len(), 2);
    assert_eq!(step.uniform_decode_size, Some(2));
    let step = b.next_step_batch(0, &|n: usize| n as u32);
    assert_eq!(step.decode_requests.len(), 2);
    assert_eq!(step.uniform_decode_size, None);
    b.accept_token(RequestId(1), 7);
    assert_eq!(b.next_step_batch(0, &|n: usize| n as u32).uniform_decode_size, Some(2));
    b.accept_token(RequestId(3), 7);
    assert_eq!(b.next_step_batch(0, &|n: usize| n as u32 / 8).uniform_decode_size, None);
}

#[test]
fn a_late_clock_matters_only_where_a_delay_ends() {
    let fast = |_: u32| ieee64(1.0);
    let slow = |_: u32| ieee64(1e18);
    let mut b = ContinuousBatcher::new(
        BatchPolicy::Continuous { max_batch: 8 },
        workload(),
        None,
    );
    let late = u64::MAX - 1;
    assert_eq!(
        b.enroll(request(1, 2, 2), stream(1), late, &fast, &fast),
        AdmissionDecision::Admit
    );
    assert!(matches!(
        b.decide(&request(2, 2, 2), late, &slow, &slow),
        AdmissionDecision::Reject { .. }
    ));
}

#[test]
fn the_batcher_closes_what_it_comes_to_reject() {
    let tpot = |n: u32| ieee64(30.0 * n as f64);
    let fast = |_: u32| ieee64(1.0);
    let slow = |_: u32| ieee64(501.0);
    let mut b = ContinuousBatcher::new(
        BatchPolicy::Continuous { max_batch: 8 },
        workload(),
        Some("0"),
    );
    assert_eq!(b.max_batch_override, None);
    assert_eq!(
        b.enroll(request(1, 2, 2), stream(1), 0, &fast, &tpot),
        AdmissionDecision::Admit
    );
    assert_eq!(
        b.enroll(request(2, 2, 2), stream(2), 0, &fast, &tpot),
        AdmissionDecision::Delay { until_ms: 30 }
    );
    assert_eq!(b.promote_ready(30, &slow, &tpot), vec![stream(2)]);
    assert_eq!((b.inflight_len(), b.queued_len()), (1, 0));
    assert!(matches!(
        b.decide(&request(3, 2, 2), 0, &slow, &tpot),
        AdmissionDecision::Reject { .. }
    ));
}

#[test]
fn a_forced_batch_size_overrides_the_slo() {
    let slow = |_: u32| ieee64(1e9);
    let mut b = ContinuousBatcher::new(
        BatchPolicy::Continuous { max_batch: 8 },
        workload(),
        Some("1"),
    );
    assert_eq!(
        b.enroll(request(1, 2, 2), stream(1), 0, &slow, &slow),
        AdmissionDecision::Admit
    );
    assert_eq!(
        b.enroll(request(2, 2, 2), stream(2), 0, &slow, &slow),
        AdmissionDecision::Delay { until_ms: 0 }
    );
    assert!(b.promote_ready(0, &slow, &slow).is_empty());
    assert_eq!(b.queued_len(), 1);
    assert!(b.retire(RequestId(1)).is_ok());
    assert!(b.promote_ready(0, &slow, &slow).is_empty());
    assert_eq!((b.inflight_len(), b.queued_len()), (1, 0));
}

#[test]
fn chunked_requests_decode_after_their_last_chunk() {
    let fast = |_: u32| ieee64(1.0);
    let mut b = ContinuousBatcher::new(
        BatchPolicy::ContinuousChunked {
            max_batch: 8,
            chunk_tokens: 2,
        },
        workload(),
        None,
    );
    b.enroll(request(1, 3, 5), stream(1), 0, &fast, &fast);
    b.accept_token(RequestId(1), 7);
    assert_eq!(b.inflight_ref().get(RequestId(1)).unwrap().phase, Phase::Prefill);
    let entry = b.inflight.get_mut(RequestId(1)).unwrap();
    if let Some(c) = &mut entry.chunks {
        c.advance();
        c.advance();
    }
    b.accept_token(RequestId(1), 8);
    assert_eq!(b.inflight_ref().get(RequestId(1)).unwrap().phase, Phase::Decode);
}

fn collect(kind: CollectiveKind, tensors: Vec<Vec<Ieee32>>) -> Vec<Option<Vec<f32>>> {
    MockCollective::new(2)
        .execute(kind, &tensors, &plus)
        .unwrap()
        .iter()
        .map(|t| t.as_ref().map(floats))
        .collect()
}

#[test]
fn collectives_combine_their_tensors() {
    let two = || vec![tensor(&[1.0, 2.0]), tensor(&[10.0, 20.0])];
    assert_eq!(
        collect(CollectiveKind::RingAllReduce, two()),
        vec![Some(vec![11.0, 22.0]), Some(vec![11.0, 22.0])]
    );
    assert_eq!(
        collect(CollectiveKind::AllGather, two()),
        vec![Some(vec![1.0, 2.0, 10.0, 20.0]), Some(vec![1.0, 2.0, 10.0, 20.0])]
    );
    assert_eq!(
        collect(CollectiveKind::ReduceScatter, two()),
        vec![Some(vec![11.0]), Some(vec![22.0])]
    );
    assert_eq!(
        collect(CollectiveKind::AllToAll, two()),
        vec![Some(vec![1.0, 10.0]), Some(vec![2.0, 20.0])]
    );
}

fn perform(kind: CollectiveKind, tensors: Vec<Vec<Ieee32>>) -> Vec<Vec<Ieee32>> {
    MockCollective::new(tensors.len())
        .execute(kind, &tensors, &plus)
        .unwrap()
        .into_iter()
        .map(|t| t.unwrap())
        .collect()
}

#[test]
fn exchanging_twice_gives_the_tensors_back() {
    let ts = vec![
        tensor(&[1.0, 2.0, 3.0, 4.0, 5.0, 6.0]),
        tensor(&[7.0, 8.0, 9.0, 10.0, 11.0, 12.0]),
        tensor(&[13.0, 14.0, 15.0, 16.0, 17.0, 18.0]),
    ];
    let once = perform(CollectiveKind::AllToAll, ts.clone());
    assert_eq!(floats(&once[0]), vec![1.0, 2.0, 7.0, 8.0, 13.0, 14.0]);
    assert_eq!(perform(CollectiveKind::AllToAll, once), ts);
}

#[test]
fn a_scatter_and_a_gather_are_an_all_reduce() {
    let ts = vec![tensor(&[1.0, 2.0, 3.0, 4.0]), tensor(&[10.0, 20.0, 30.0, 40.0])];
    let scattered = perform(CollectiveKind::ReduceScatter, ts.clone());
    assert_eq!(floats(&scattered[1]), vec![33.0, 44.0]);
    let gathered = perform(CollectiveKind::AllGather, scattered);
    assert_eq!(gathered, perform(CollectiveKind::RingAllReduce, ts));
    assert_eq!(floats(&gathered[0]), vec![11.0, 22.0, 33.0, 44.0]);
}

#[test]
fn collectives_refuse_what_does_not_fit() {
    let mock = MockCollective::new(2);
    assert!(matches!(
        mock.execute(
            CollectiveKind::RingAllReduce,
            &vec![tensor(&[1.0, 2.0]), tensor(&[1.0])],
            &plus
        ),
        Err(CollectiveError::ShapeMismatch { expected: 2, got: 1 })
    ));
    assert!(matches!(
        mock.execute(
            CollectiveKind::ReduceScatter,
            &vec![tensor(&[1.0; 3]), tensor(&[1.0; 3])],
            &plus
        ),
        Err(CollectiveError::UnevenSplit { len: 3, parts: 2 })
    ));
    assert!(matches!(
        mock.execute(
            CollectiveKind::AllToAll,
            &vec![tensor(&[]), tensor(&[1.0])],
            &plus
        ),
        Err(CollectiveError::ShapeMismatch { expected: 0, got: 1 })
    ));
    assert!(matches!(
        mock.check_participants(&vec![], 2),
        Err(CollectiveError::EmptyParticipants)
    ));
    assert!(matches!(
        mock.check_participants(&vec![0, 2], 5),
        Err(CollectiveError::InvalidParticipant { participant: 2, .. })
    ));
    assert!(mock.check_participants(&vec![0, 1], 2).is_ok());
    assert_eq!(NcclCollective::new(3).world_size, 3);
}

fn divergence(p: &WorkloadProfile, q: &WorkloadProfile) -> Ieee64 {
    let total = |w: &WorkloadProfile| w.counts.iter().sum::<u64>() as f64;
    let (tp, tq) = (total(p), total(q));
    let kl: f64 = p
        .counts
        .iter()
        .zip(q.counts.iter())
        .map(|(a, b)| {
            let (x, y) = (*a as f64 / tp, *b as f64 / tq);
            if x > 0.0 {
                x * (x / y).ln()
            } else {
                0.0
            }
        })
        .sum();
    ieee64(kl)
}

fn rep(value: u32, n: usize) -> Vec<u32> {
    vec![value; n]
}

#[test]
fn identical_distribution_has_zero_kl_and_no_drift() {
    let base = WorkloadProfile::from_lengths(&rep(128, 200));
    let monitor = DriftMonitor::new(base, ieee64(0.05));
    let a = monitor.assess(&rep(128, 200), &divergence);
    let kl = f64::from_bits(a.kl.bits);
    assert!(kl < 1e-9, "kl={kl}");
    assert!(!a.drifted);
}

#[test]
fn large_length_shift_flags_drift() {
    let base = WorkloadProfile::from_lengths(&rep(64, 500));
    let monitor = DriftMonitor::new(base, ieee64(0.05));
    let a = monitor.assess(&rep(4096, 200), &divergence);
    let kl = f64::from_bits(a.kl.bits);
    assert!(kl > 0.05, "kl={kl}");
    assert!(a.drifted);
}

#[test]
fn too_few_samples_never_drifts() {
    let base = WorkloadProfile::from_lengths(&rep(64, 500));
    let monitor = DriftMonitor::new(base, ieee64(0.05));
    let a = monitor.assess(&rep(4096, 4), &divergence);
    assert!(!a.drifted, "must not act on {} samples", a.samples);
    assert!(!monitor.judge(ieee64(9.0), 31).drifted);
    assert!(monitor.judge(ieee64(9.0), 32).drifted);
    assert!(!monitor.judge(ieee64(0.05), 32).drifted);
}

#[test]
fn from_workload_uses_slo_threshold() {
    let monitor = DriftMonitor::from_workload(&workload());
    assert_eq!(f64::from_bits(monitor.threshold().bits), 0.123);
}

#[test]
fn bucketing_edges() {
    assert_eq!(bucket(1), 0);
    assert_eq!(bucket(16), 0);
    assert_eq!(bucket(17), 1);
    assert_eq!(bucket(5000), EDGES.len());
}

#[test]
fn profiles_are_smoothed_counts() {
    let p = WorkloadProfile::from_lengths(&[1, 16, 17, 5000]);
    assert_eq!(p.counts, vec![3, 2, 1, 1, 1, 1, 1, 1, 1, 2]);
}

#[test]
fn profiles_compare_by_their_shares() {
    let none = WorkloadProfile::from_lengths(&[]);
    let each = WorkloadProfile::from_lengths(&[16, 32, 64, 128, 256, 512, 1024, 2048, 4096, 9000]);
    assert_eq!(none, each);
    assert_ne!(none, WorkloadProfile::from_lengths(&[16]));
    assert_ne!(WorkloadProfile::from_lengths(&[32]), WorkloadProfile::from_lengths(&[16]));
}

#[test]
fn the_order_of_lengths_does_not_matter() {
    let monitor = DriftMonitor::new(WorkloadProfile::from_lengths(&rep(64, 50)), ieee64(0.05));
    let mut lengths: Vec<u32> = (0..40).map(|i| i * 37 % 600).collect();
    let a = monitor.assess(&lengths, &divergence);
    lengths.reverse();
    assert_eq!(monitor.assess(&lengths, &divergence), a);
    lengths.sort();
    assert_eq!(monitor.assess(&lengths, &divergence), a);
}

fn io(name: &str, shape: &[usize], dtype: Dtype, kind: IoTensorKind) -> IoTensor {
    IoTensor {
        name: name.to_string(),
        shape: shape.to_vec(),
        dtype,
        kind,
    }
}

#[test]
fn swaps_need_the_same_inputs() {
    let old = IoManifest {
        tensors: vec![
            io("tokens", &[1, 8], Dtype::Bf16, IoTensorKind::Input),
            io("w", &[4], Dtype::Bf16, IoTensorKind::Weight),
        ],
    };
    let new = |tensors: Vec<IoTensor>| IoManifest { tensors };
    assert!(describe_mismatch(&old, &old).is_none());
    let more_weights = new(vec![
        io("w2", &[9], Dtype::Int8, IoTensorKind::Weight),
        io("tokens", &[1, 8], Dtype::Bf16, IoTensorKind::Input),
    ]);
    assert!(verify_shape_compatibility(&old, &more_weights).is_ok());
    assert!(matches!(
        describe_mismatch(&old, &new(vec![])),
        Some(InputMismatch::Count { old_count: 1, new_count: 0 })
    ));
    let renamed = new(vec![io("ids", &[1, 8], Dtype::Bf16, IoTensorKind::Input)]);
    assert!(matches!(
        describe_mismatch(&old, &renamed),
        Some(InputMismatch::Missing { name }) if name == "tokens"
    ));
    let reshaped = new(vec![io("tokens", &[1, 9], Dtype::Bf16, IoTensorKind::Input)]);
    assert!(matches!(
        verify_shape_compatibility(&old, &reshaped),
        Err(RuntimeError::IncompatibleArtifact { reason: InputMismatch::Shape { name, .. } })
            if name == "tokens"
    ));
    let retyped = new(vec![io("tokens", &[1, 8], Dtype::Fp16, IoTensorKind::Input)]);
    assert!(matches!(
        describe_mismatch(&old, &retyped),
        Some(InputMismatch::Type { new_dtype: Dtype::Fp16, .. })
    ));
}

#[test]
fn draining_ends_when_nobody_is_left_or_time_is_up() {
    assert_eq!(drain_step(0, true, 30), DrainStep::Done);
    assert_eq!(drain_step(2, false, 30), DrainStep::Wait);
    assert_eq!(
        drain_step(2, true, 30),
        DrainStep::TimedOut(RuntimeError::DrainTimeout {
            remaining: 2,
            timeout_seconds: 30
        })
    );
}

#[test]
fn the_link_is_changed_last() {
    let swap = HotSwap::new("artifacts".to_string(), 30);
    let mut steps = vec![SwapStep::Verify];
    while !matches!(steps.last(), Some(SwapStep::Done) | Some(SwapStep::Aborted)) {
        steps.push(swap.next_step(steps[steps.len() - 1], true));
    }
    assert_eq!(
        steps,
        vec![SwapStep::Verify, SwapStep::Drain, SwapStep::Relink, SwapStep::Done]
    );
    assert_eq!(swap.next_step(SwapStep::Drain, false), SwapStep::Aborted);
}

#[test]
fn cuda_graph_capture_replay_roundtrip() {
    let mut cache = CudaGraphCache::new();
    let key = (1u32, 0u32);
    let mut ran = 0;
    for expected in [GraphOutcome::Captured, GraphOutcome::Replayed] {
        let outcome = cache.plan(key);
        assert_eq!(outcome, expected);
        ran += 1;
        match outcome {
            GraphOutcome::Captured => cache.note_capture(key),
            GraphOutcome::Replayed => cache.note_replay(),
            GraphOutcome::Eager => panic!("no eager step expected"),
        }
    }
    assert_eq!(ran, 2);
    assert_eq!(cache.captures(), 1);
    assert_eq!(cache.replays(), 1);
    assert_eq!(cache.plan((2, 0)), GraphOutcome::Captured);
}

#[test]
fn shared_segments_are_named_by_their_id() {
    assert_eq!(segment_hash(&[]), 0xcbf29ce484222325);
    assert_eq!(segment_hash(b"a"), 0xaf63dc4c8601ec8c);
    assert_eq!(segment_path(b"a"), "/dev/shm/skein_ar_af63dc4c8601ec8c");
    let long: Vec<u8> = (0..40).collect();
    assert_eq!(segment_hash(&long), segment_hash(&long[..32]));
    assert_eq!(shm_info(9, 1).max_elems, 131072);
}

#[test]
fn what_is_not_implemented_says_so() {
    assert!(matches!(
        NcclCommunicator::new(2, 0),
        Err(RuntimeError::NotImplemented { .. })
    ));
    assert!(matches!(RdmaTransport::new(), Err(RuntimeError::NotImplemented { .. })));
    assert_eq!(CudaGraphDispatcher::new().captured_len(), 0);
}
