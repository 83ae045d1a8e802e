//! Decode loops: what is captured, what is fed, what is sampled, and who gets which token.

use skein::ieee::Ieee32;
use skein::runtime::collective_kind::CollectiveKind;
use skein::runtime::distributed::batch_driver::{
    argmax_within, BatchDriver, LockstepDecode, StepCounters, StepOutcome,
};
use skein::runtime::distributed::capture::{
    capture_active, capture_split, capture_window, compute_steps, find_carry, fixed_falls_back,
    grouped_falls_back, host_tensors, plan_step, prefill_seq, queue_falls_back, schedule_top_k,
    stage_place, token_rule, CaptureFlags, CaptureWindow, Region, ServeFlags, TokenRule,
};
use skein::runtime::distributed::continuous::{
    in_prompt_order, pad_group, prefill_len, prefill_tokens, ContinuousQueue,
};
use skein::runtime::distributed::generation::{
    byte_prompt, length_order, local_vocab, plan_batches, start_position, BatchedDecode, GreedyDecode, UniformStream,
};
use skein::runtime::distributed::handoff::{parse_kvcache_name, KvKind, SequenceStep};
use skein::runtime::distributed::pipeline::{
    advance, first_exchange, last_exchange, record, wave_steps, Exchange, Lane, Wave,
};
use skein::runtime::distributed::prefill::{kvcache_tensor, prefill_writes};
use skein::runtime::distributed::rank_plan::{HandoffId, ResolvedSequenceStep};
use skein::runtime::distributed::sampling::{argmax, batch_argmax, stage_argmax};
use skein::runtime::distributed::segment_runner::{SegmentRunner, SegmentSpec};
use skein::runtime::error::RuntimeError;
use skein::runtime::types::RequestId;
use skein::ir::types::Dtype;

fn tensor(v: &[f32]) -> Vec<Ieee32> {
    v.iter().map(|x| Ieee32 { bits: x.to_bits() }).collect()
}

fn segment_step(device_idx: u32, segment_idx: usize) -> ResolvedSequenceStep {
    ResolvedSequenceStep::ExecuteSegment {
        device_idx,
        segment_idx,
    }
}

fn collective(kind: CollectiveKind, participants: Vec<u32>, elems: usize) -> ResolvedSequenceStep {
    ResolvedSequenceStep::Collective {
        collective: kind,
        participants,
        tensor: HandoffId(3),
        elems,
    }
}

fn pipeline_schedule() -> Vec<ResolvedSequenceStep> {
    vec![
        segment_step(0, 0),
        collective(CollectiveKind::SendRecv, vec![0, 1], 16),
        segment_step(1, 0),
        collective(CollectiveKind::AllGather, vec![1], 32),
    ]
}

fn runner() -> SegmentRunner {
    SegmentRunner::new(vec![SegmentSpec {
        input_names: vec!["hidden_0".to_string()],
        output_names: vec!["hidden_1".to_string()],
        weight_names: vec![],
        kv_cache_sizes: vec![],
    }])
}

#[test]
fn the_captured_part_ends_at_the_last_reduction() {
    let schedule = vec![
        segment_step(0, 0),
        collective(CollectiveKind::RingAllReduce, vec![0, 1], 4),
        segment_step(0, 0),
        collective(CollectiveKind::AllGather, vec![0, 1], 4),
    ];
    assert_eq!(capture_split(&schedule), 2);
    assert_eq!(capture_split(&pipeline_schedule()), 4);
    let flags = ServeFlags {
        device_logits: false,
        device_sendrecv: false,
    };
    let window = capture_window(&runner(), &schedule, 0, 1, flags);
    assert_eq!((window.lo, window.hi), (0, 2));
    let first = capture_window(&runner(), &pipeline_schedule(), 0, 2, flags);
    assert_eq!((first.lo, first.hi), (0, 1));
    let last = capture_window(&runner(), &pipeline_schedule(), 1, 2, flags);
    assert_eq!(last.lo, 2);
}

#[test]
fn stages_and_their_token_rules() {
    let place = stage_place(3, 2, 2, 1);
    assert_eq!(place.stage, 1);
    assert!(place.is_last_stage);
    assert_eq!(place.last_stage_root, 2);
    assert_eq!(token_rule(2, place), TokenRule::Choose { root: 2 });
    let first = stage_place(1, 2, 2, 1);
    assert_eq!(token_rule(2, first), TokenRule::Follow { root: 2 });
    assert_eq!(token_rule(1, stage_place(0, 2, 1, 1)), TokenRule::Local);
}

#[test]
fn decode_steps_capture_once_and_replay() {
    let window = CaptureWindow { lo: 1, hi: 3 };
    let flags = CaptureFlags {
        capture: true,
        no_split: false,
        hi_override: None,
        capture_at: 2,
    };
    assert!(capture_active(window, 5, 2, flags));
    let eager = plan_step(window, 5, 2, flags, false, 1);
    let capturing = plan_step(window, 5, 2, flags, false, 2);
    let replaying = plan_step(window, 5, 2, flags, true, 3);
    assert!(!eager.iter().any(|r| !matches!(r, Region::Run { .. })));
    assert!(capturing.contains(&Region::Capture { from: 1, to: 3 }));
    assert!(replaying.contains(&Region::Replay { from: 1, to: 3 }));
    let off = CaptureFlags {
        capture: false,
        ..flags
    };
    assert_eq!(plan_step(window, 5, 2, off, false, 2), vec![Region::Run { from: 0, to: 5 }]);
}

#[test]
fn schedules_are_scanned_for_their_handoff() {
    let schedule = pipeline_schedule();
    let carry = find_carry(&schedule).unwrap();
    assert_eq!((carry.tensor, carry.elems), (HandoffId(3), 16));
    assert_eq!((carry.sender, carry.receiver), (0, 1));
    assert_eq!(compute_steps(&schedule), vec![0, 2, 3]);
    assert_eq!(schedule_top_k(&schedule), None);
    let some = find_carry(&schedule);
    let none = find_carry(&vec![segment_step(0, 0)]);
    assert!(none.is_none());
    assert!(!fixed_falls_back(2, 2, &some));
    assert!(fixed_falls_back(2, 1, &some));
    assert!(fixed_falls_back(2, 2, &none));
    assert!(queue_falls_back(2, 4, 1, &some));
    assert!(!queue_falls_back(2, 4, 2, &some));
    assert!(grouped_falls_back(3, 4, 2, &some));
    assert!(!grouped_falls_back(2, 4, 1, &some));
    assert_eq!(prefill_seq(Some("128")), 128);
    assert_eq!(prefill_seq(Some("1")), 0);
    assert_eq!(prefill_seq(Some("x")), 0);
    assert_eq!(prefill_seq(None), 0);
}

#[test]
fn gathered_tensors_stay_on_the_host() {
    let schedule = vec![SequenceStep::Collective {
        collective: CollectiveKind::AllGather,
        participants: vec![0, 1],
        tensor: "logits".to_string(),
        shape: vec![4],
        dtype: Dtype::Bf16,
    }];
    let host = host_tensors(
        &schedule,
        ServeFlags {
            device_logits: false,
            device_sendrecv: false,
        },
    );
    assert!(host.contains(&"logits".to_string()));
}

fn lane(idx: usize, key: u64, pos: usize, first: u32) -> Lane {
    Lane {
        idxs: vec![idx],
        key,
        pos,
        last: vec![first],
        generated: vec![vec![first]],
    }
}

#[test]
fn a_wave_interleaves_its_lanes() {
    let mut active = vec![lane(0, 10, 4, 100), lane(1, 11, 2, 200)];
    let mut mirror = vec![lane(0, 10, 4, 100), lane(1, 11, 2, 200)];
    let steps = wave_steps(&active, 1, 3);
    assert_eq!(steps, 2);
    let mut wave = Wave::new(1);
    let mut fed = vec![];
    for i in 0..steps * active.len() {
        let job = wave.job(&active, i);
        fed.push((job.lane, job.key, job.pos, job.input[0]));
        wave.reply(vec![1000 + i as u32]);
        record(&mut mirror, 1, i, &vec![1000 + i as u32]);
    }
    assert_eq!(
        fed,
        vec![(0, 10, 4, 100), (1, 11, 2, 200), (0, 10, 5, 1000), (1, 11, 3, 1001)]
    );
    wave.apply(&mut active, steps);
    advance(&mut mirror, steps);
    assert_eq!(active, mirror);
    assert_eq!(active[0].pos, 6);
    assert_eq!(active[0].generated, vec![vec![100, 1000, 1002]]);
    assert_eq!(active[1].generated, vec![vec![200, 1001, 1003]]);
    assert_eq!(active[1].last, vec![1003]);
}

#[test]
fn stages_exchange_in_matching_order() {
    let n = 4;
    let mut carries = 0;
    let mut tokens = 0;
    for i in 0..=n {
        match (first_exchange(i, n), last_exchange(i, n)) {
            (Exchange::SendCarry, Exchange::RecvCarry) => carries += 1,
            (Exchange::SendCarryRecvTokens, Exchange::RecvCarrySendTokens) => {
                carries += 1;
                tokens += 1;
            }
            (Exchange::RecvTokens, Exchange::SendTokens) => tokens += 1,
            other => panic!("unmatched exchange {other:?}"),
        }
    }
    assert_eq!((carries, tokens), (n, n));
}

#[test]
fn a_queue_of_prompts_is_served_in_groups() {
    let prompts: Vec<Vec<u32>> = vec![vec![1], vec![], vec![2, 3], vec![4]];
    let mut queue = ContinuousQueue::new(2, 1, 2);
    let mut key = 0;
    loop {
        while let Some(group) = queue.next_group(&prompts) {
            let padded = pad_group(&group, 2);
            assert_eq!(padded.len(), 2);
            let len = prefill_len(&prompts, &padded);
            for pos in 0..len {
                assert_eq!(prefill_tokens(&prompts, &padded, pos).len(), 2);
            }
            let first = padded.iter().map(|p| 10 * *p as u32).collect();
            queue.put_in_flight(group, key, len, first);
            key += 1;
        }
        if queue.active.is_empty() {
            break;
        }
        let steps = wave_steps(&queue.active, 2, 2);
        let mut wave = Wave::new(2);
        for i in 0..steps * queue.active.len() {
            wave.reply(vec![500 + i as u32, 600 + i as u32]);
        }
        wave.apply(&mut queue.active, steps);
        assert_eq!(queue.retire().len(), 1);
    }
    let done = queue.finish();
    assert_eq!(
        done,
        vec![(0, vec![0, 500]), (2, vec![20, 600]), (3, vec![30, 500])]
    );
}

#[test]
fn short_prompts_are_fed_zeros() {
    let prompts: Vec<Vec<u32>> = vec![vec![7], vec![8, 9]];
    assert_eq!(prefill_tokens(&prompts, &vec![0, 1], 1), vec![0, 9]);
    assert_eq!(prefill_len(&prompts, &vec![0, 1]), 2);
    assert_eq!(pad_group(&vec![1], 3), vec![1, 1, 1]);
}

#[test]
fn the_greatest_logit_wins() {
    assert_eq!(argmax(&tensor(&[1.0, 3.0, 3.0, 2.0])), 2);
    assert_eq!(argmax(&[]), 0);
    assert_eq!(argmax_within(&tensor(&[1.0, 2.0, 9.0]), 2), 1);
    assert_eq!(stage_argmax(&tensor(&[1.0, 2.0, 5.0, 4.0]), 2, 3), vec![1, 0, 0]);
    // Two ranks, two rows, a vocabulary of two each.
    let gathered = tensor(&[0.0, 1.0, 9.0, 0.0, 2.0, 0.0, 3.0, 4.0]);
    assert_eq!(batch_argmax(&gathered, 2, 2, 2, false), vec![2, 0]);
}

#[test]
fn greedy_decoding_feeds_prompt_and_tokens_in_order() {
    let mut d = GreedyDecode::begin(vec![5, 6, 7], 1, 2, None).unwrap();
    let mut fed = vec![];
    for j in 0..d.prefill_steps() {
        fed.push(d.prefill_feed(j));
    }
    let mut next = 100;
    while d.wants_token() {
        if let Some(f) = d.accept(next) {
            fed.push(f);
        }
        next += 1;
    }
    assert_eq!(fed, vec![(6, 1), (7, 2), (100, 3)]);
    assert_eq!(d.generated, vec![100, 101]);
    assert!(GreedyDecode::begin(vec![], 0, 2, None).is_none());
    let batched = GreedyDecode::begin(vec![5, 6, 7], 0, 2, Some(3)).unwrap();
    assert!(batched.batched);
    assert_eq!(batched.prefill_steps(), 1);
    assert_eq!(start_position(3, 3), 2);
    assert_eq!(start_position(9, 3), 2);
    assert_eq!(start_position(1, 3), 1);
}

#[test]
fn batched_rows_start_when_their_prompt_ends() {
    let mut b = BatchedDecode::begin(vec![vec![1], vec![2, 3]], 2);
    assert_eq!(b.total_steps(), 3);
    assert_eq!(b.cur, vec![1, 2]);
    assert_eq!(b.step(&vec![10, 20]), 1);
    assert_eq!(b.cur, vec![10, 3]);
    assert_eq!(b.step(&vec![11, 21]), 2);
    assert_eq!(b.step(&vec![12, 22]), 1);
    assert_eq!(b.generated, vec![vec![10, 11], vec![21, 22]]);
}

#[test]
fn prompts_are_batched_by_length() {
    let prompts: Vec<Vec<u32>> = vec![vec![1, 1, 1], vec![], vec![2], vec![3, 3]];
    let order = length_order(&prompts);
    assert_eq!(order, vec![2, 3, 0]);
    let plans = plan_batches(&order, 2);
    assert_eq!(plans.len(), 2);
    assert_eq!((plans[0].unique, plans[0].rows.clone()), (2, vec![2, 3]));
    assert_eq!((plans[1].unique, plans[1].rows.clone()), (1, vec![0, 0]));
}

#[test]
fn the_sampling_stream_is_the_same_on_every_rank() {
    let mut a = UniformStream::seeded();
    let mut b = UniformStream::seeded();
    for _ in 0..100 {
        let x = a.draw();
        assert_eq!(x, b.draw());
        assert!(x < 1 << 24);
    }
    let state = 0x2545_F491_4F6C_DD1Du64
        .wrapping_mul(6364136223846793005)
        .wrapping_add(1442695040888963407);
    assert_eq!(UniformStream::seeded().draw(), (state >> 40) as u32);
}

#[test]
fn the_driver_finishes_requests_in_any_order() {
    let mut d = BatchDriver::new();
    d.submit(RequestId(7), vec![1, 2], 2, 0);
    d.submit(RequestId(8), vec![3], 1, 5);
    let step = d.request_step(RequestId(7)).unwrap();
    assert_eq!((step.position, step.input, step.is_decode), (0, 1, false));
    assert_eq!(d.complete_step(RequestId(7), 50), Ok(StepOutcome::Prefilling));
    assert_eq!(d.complete_step(RequestId(8), 60), Ok(StepOutcome::Finished));
    assert_eq!(d.complete_step(RequestId(8), 60), Err(RuntimeError::UnknownRequest(8)));
    assert!(d.request_step(RequestId(8)).is_err());
    assert_eq!(d.complete_step(RequestId(7), 51), Ok(StepOutcome::Emitted));
    let step = d.request_step(RequestId(7)).unwrap();
    assert_eq!((step.position, step.input, step.is_decode), (2, 51, true));
    assert_eq!(d.complete_step(RequestId(7), 52), Ok(StepOutcome::Finished));
    let out = d.finish();
    assert_eq!(out[0].tokens, vec![51, 52]);
    assert_eq!(out[0].prefill_steps, 2);
    assert_eq!(out[1].tokens, vec![60]);
    assert_eq!((out[1].order, out[1].prompt_len), (1, 1));
}

#[test]
fn lockstep_rows_share_the_shortest_prompt() {
    let mut l = LockstepDecode::begin(vec![vec![1, 2, 3], vec![4, 5]], 2);
    assert_eq!(l.common, 2);
    assert_eq!(l.total_steps(), 3);
    for i in 0..3u32 {
        l.step(&vec![10 + i, 20 + i]);
    }
    assert_eq!(l.generated, vec![vec![11, 12], vec![21, 22]]);
}

#[test]
fn prompts_without_a_tokenizer_are_bytes() {
    assert_eq!(byte_prompt("ab", 90), vec![7, 8]);
    assert!(byte_prompt("", 90).is_empty());
    assert_eq!(local_vocab(32_000, 2), 16_000);
    assert_eq!(local_vocab(1, 2), 1);
    assert_eq!(local_vocab(5, 0), 5);
}

#[test]
fn results_come_back_in_prompt_order() {
    let rows = vec![(2, vec![20]), (0, vec![1, 2]), (1, vec![])];
    assert_eq!(
        in_prompt_order(rows),
        vec![(0, vec![1, 2]), (1, vec![]), (2, vec![20])]
    );
}

#[test]
fn prefilled_rows_go_into_their_slots() {
    let kv = tensor(&[1.0, 2.0, 3.0, 4.0, 5.0, 6.0]);
    let writes = prefill_writes(KvKind::Value, 9, &kv, 3);
    assert_eq!(writes.len(), 3);
    assert_eq!(writes[1].slot, 1);
    assert_eq!(writes[1].layer, 9);
    assert_eq!(writes[1].data, tensor(&[3.0, 4.0]));
    assert!(prefill_writes(KvKind::Value, 9, &kv, 4).is_empty());
    assert!(prefill_writes(KvKind::Value, 9, &kv, 0).is_empty());
    let name = kvcache_tensor(KvKind::Value, 31);
    assert_eq!(name, "kvcache_v_31");
    assert_eq!(parse_kvcache_name(&name), Some((KvKind::Value, 31)));
}

#[test]
fn the_parts_of_a_step_tile_the_schedule() {
    for (lo, hi) in [(0, 0), (0, 3), (1, 3), (2, 5), (3, 2)] {
        for pp in [1, 2] {
            for captured in [false, true] {
                for decode_step in 0..4 {
                    let flags = CaptureFlags {
                        capture: true,
                        no_split: false,
                        hi_override: None,
                        capture_at: 2,
                    };
                    let window = CaptureWindow { lo, hi };
                    let mut at = 0;
                    for r in plan_step(window, 5, pp, flags, captured, decode_step) {
                        let (from, to) = match r {
                            Region::Run { from, to }
                            | Region::Capture { from, to }
                            | Region::Replay { from, to } => (from, to),
                        };
                        assert_eq!(from, at);
                        assert!(from <= to);
                        at = to;
                    }
                    assert_eq!(at, 5);
                }
            }
        }
    }
}

#[test]
fn steps_are_counted_by_kind() {
    let mut c = StepCounters::new();
    c.note_batch(2, 1);
    c.note_batch(0, 2);
    c.note_forward(true);
    c.note_forward(false);
    c.note_forward(false);
    assert_eq!((c.batch_steps, c.mixed_batch_steps), (2, 1));
    assert_eq!(c.max_concurrent_inflight, 3);
    assert_eq!(
        (c.forward_steps, c.decode_forward_steps, c.prefill_forward_steps),
        (3, 1, 2)
    );
}
