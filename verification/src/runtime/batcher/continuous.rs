//! The continuous batcher: who is in flight, who waits, and what the next step runs.
//!
//! Latency predictions are the caller's: the batcher asks for them by prompt length and by
//! the number of concurrent decodes.

use vstd::prelude::*;

use crate::ieee::Ieee64;
use crate::ir::types::BatchPolicy;
use crate::ir::workload::Workload;
use crate::runtime::batcher::admission::{
    decide, decision, retry_at, AdmissionDecision, Predictions,
};
use crate::runtime::batcher::inflight::{fresh_entry, InflightRequest, InflightSet, Phase};
use crate::runtime::batcher::queue::{AdmissionQueue, QueueEntry};
use crate::runtime::batcher::retire::retire;
use crate::runtime::error::RuntimeError;
use crate::runtime::types::{IncomingRequest, RequestId, TokenSender};
use crate::text::{parse_usize, parsed};

verus! {

/// The requests of the next step.
#[derive(Debug)]
pub struct StepBatch {
    pub prefill_requests: Vec<RequestId>,
    pub decode_requests: Vec<RequestId>,
    pub total_kv_pages: u32,
    /// Set only when every decode of the step has the same batch size and KV class: the
    /// number of decodes, by which a captured graph is picked.
    pub uniform_decode_size: Option<u32>,
}

/// What came of a token.
#[derive(Debug, Clone, Copy, PartialEq, Eq, Structural)]
pub struct AcceptOutcome {
    /// The stream that the token is sent on.
    pub sender: TokenSender,
    /// Whether the request has all its tokens.
    pub is_final: bool,
}

#[derive(Debug)]
pub struct ContinuousBatcher {
    pub policy: BatchPolicy,
    pub queue: AdmissionQueue,
    pub inflight: InflightSet,
    pub workload: Workload,
    /// Lets this many requests in flight, whatever the plan and the SLO say.
    pub max_batch_override: Option<u32>,
}

/// The number of requests in flight, as admission counts them.
pub open spec fn count_of(inflight: Map<u64, InflightRequest>) -> u32 {
    (inflight.len() as usize) as u32
}

/// Whether the predictions are what the estimator says of a request.
pub open spec fn predicted<P: Fn(u32) -> Ieee64, T: Fn(u32) -> Ieee64>(
    prefill: P,
    tpot: T,
    prompt_len: u32,
    inflight: u32,
    max_batch: u32,
    p: Predictions,
) -> bool {
    &&& call_ensures(prefill, (prompt_len,), p.prefill_ms)
    &&& call_ensures(tpot, (inflight,), p.step_ms)
    &&& inflight < max_batch ==> call_ensures(tpot, ((inflight + 1) as u32,), p.next_step_ms)
}

/// Whether a delay of this request, decided on with `inflight` requests in flight, ends
/// within the clock's range.
pub open spec fn delay_fits<P: Fn(u32) -> Ieee64, T: Fn(u32) -> Ieee64>(
    b: ContinuousBatcher,
    request: IncomingRequest,
    inflight: u32,
    now_ms: u64,
    prefill: P,
    tpot: T,
) -> bool {
    let max_batch = b.policy.batch_limit();
    b.max_batch_override is None ==> forall|p: Predictions|
        #[trigger] predicted(
            prefill,
            tpot,
            request.prompt_tokens.len() as u32,
            inflight,
            max_batch,
            p,
        ) && decision(now_ms, max_batch, inflight, b.workload.slo, p) is Delay ==> retry_at(
            now_ms as int,
            p.step_ms,
        ) <= u64::MAX
}

/// The number of requests in flight as admission counts them, where there are `n`.
pub open spec fn counted(n: nat) -> u32 {
    (n as usize) as u32
}

/// Whether [`delay_fits`] holds of every waiting request, whichever of those before it
/// have been put in flight.
pub open spec fn delays_fit<P: Fn(u32) -> Ieee64, T: Fn(u32) -> Ieee64>(
    b: ContinuousBatcher,
    now_ms: u64,
    prefill: P,
    tpot: T,
) -> bool {
    forall|i: int, n: nat|
        0 <= i < b.queue@.len() && b.inflight@.len() <= n <= b.inflight@.len() + i
            ==> #[trigger] delay_fits(
            b,
            b.queue@[i].request,
            counted(n),
            now_ms,
            prefill,
            tpot,
        )
}

/// The tokens of a request so far: its prompt and what was generated.
pub open spec fn sequence_len(r: InflightRequest) -> nat {
    r.request.prompt_tokens@.len() + r.generated_tokens@.len()
}

/// Whether a request is in flight and decodes.
pub open spec fn decoding(inflight: Map<u64, InflightRequest>, id: u64) -> bool {
    inflight.contains_key(id) && inflight[id].phase == Phase::Decode
}

/// Whether a request decodes in this KV class.
pub open spec fn classed<F: Fn(usize) -> u32>(
    inflight: Map<u64, InflightRequest>,
    kv_class: F,
    id: u64,
    class: u32,
) -> bool {
    &&& decoding(inflight, id)
    &&& call_ensures(kv_class, (sequence_len(inflight[id]) as usize,), class)
}

/// Whether every decode is in this KV class.
pub open spec fn all_classed<F: Fn(usize) -> u32>(
    inflight: Map<u64, InflightRequest>,
    kv_class: F,
    class: u32,
) -> bool {
    forall|id: u64| #[trigger]
        decoding(inflight, id) ==> classed(inflight, kv_class, id, class)
}

/// Whether two decodes are in different KV classes.
pub open spec fn classes_differ<F: Fn(usize) -> u32>(
    inflight: Map<u64, InflightRequest>,
    kv_class: F,
) -> bool {
    exists|a: u64, b: u64, x: u32, y: u32|
        x != y && #[trigger] classed(inflight, kv_class, a, x) && #[trigger] classed(
            inflight,
            kv_class,
            b,
            y,
        )
}

/// Whether `size` is the uniform size of a step with this many decodes: their number,
/// where there are any and all are in one KV class.
pub open spec fn uniform_size<F: Fn(usize) -> u32>(
    inflight: Map<u64, InflightRequest>,
    kv_class: F,
    decodes: nat,
    size: Option<u32>,
) -> bool {
    match size {
        Some(n) => {
            &&& decodes > 0
            &&& n == (decodes as usize) as u32
            &&& exists|class: u32| #[trigger] all_classed(inflight, kv_class, class)
        },
        None => decodes == 0 || classes_differ(inflight, kv_class),
    }
}

/// Where the KV class is a function of the length, the uniform size is set exactly when
/// there is a decode and any two decodes have the same class.
pub proof fn uniform_means_one_class<F: Fn(usize) -> u32>(
    inflight: Map<u64, InflightRequest>,
    kv_class: F,
    class: spec_fn(usize) -> u32,
    decodes: nat,
    size: Option<u32>,
)
    requires
        uniform_size(inflight, kv_class, decodes, size),
        forall|n: usize, c: u32| #[trigger] call_ensures(kv_class, (n,), c) ==> c == class(n),
    ensures
        size is Some <==> decodes > 0 && forall|a: u64, b: u64| #[trigger]
            decoding(inflight, a) && #[trigger] decoding(inflight, b) ==> class(
                sequence_len(inflight[a]) as usize,
            ) == class(sequence_len(inflight[b]) as usize),
{
    if size is Some {
        let c = choose|c: u32| #[trigger] all_classed(inflight, kv_class, c);
        assert forall|a: u64, b: u64| #[trigger]
            decoding(inflight, a) && #[trigger] decoding(inflight, b) implies class(
            sequence_len(inflight[a]) as usize,
        ) == class(sequence_len(inflight[b]) as usize) by {
            assert(classed(inflight, kv_class, a, c));
            assert(classed(inflight, kv_class, b, c));
        }
    } else if decodes > 0 {
        let (a, b, x, y) = choose|a: u64, b: u64, x: u32, y: u32|
            x != y && #[trigger] classed(inflight, kv_class, a, x) && #[trigger] classed(
                inflight,
                kv_class,
                b,
                y,
            );
        assert(decoding(inflight, a) && decoding(inflight, b));
    }
}

/// Whether `d` is a decision on a request, given who is in flight.
pub open spec fn decides<P: Fn(u32) -> Ieee64, T: Fn(u32) -> Ieee64>(
    b: ContinuousBatcher,
    request: IncomingRequest,
    now_ms: u64,
    prefill: P,
    tpot: T,
    d: AdmissionDecision,
) -> bool {
    let n = count_of(b.inflight@);
    match b.max_batch_override {
        Some(m) => d == if n < m {
            AdmissionDecision::Admit
        } else {
            AdmissionDecision::Delay { until_ms: 0 }
        },
        None => exists|p: Predictions|
            {
                &&& #[trigger] predicted(
                    prefill,
                    tpot,
                    request.prompt_tokens.len() as u32,
                    n,
                    b.policy.batch_limit(),
                    p,
                )
                &&& d == decision(now_ms, b.policy.batch_limit(), n, b.workload.slo, p)
            },
    }
}

/// Whether `after` is the batcher once a decision on a request has been carried out: in
/// flight, at the end of the queue, or dropped.
pub open spec fn carried_out(
    before: ContinuousBatcher,
    request: IncomingRequest,
    sender: TokenSender,
    now_ms: u64,
    d: AdmissionDecision,
    after: ContinuousBatcher,
) -> bool {
    &&& after == (ContinuousBatcher { queue: after.queue, inflight: after.inflight, ..before })
    &&& match d {
        AdmissionDecision::Admit => {
            &&& after.queue@ == before.queue@
            &&& after.inflight@.dom() == before.inflight@.dom().insert(request.id.0)
            &&& fresh_entry(
                after.inflight@[request.id.0],
                request,
                sender,
                before.policy,
                now_ms,
            )
            &&& forall|id: u64|
                id != request.id.0 && before.inflight@.contains_key(id)
                    ==> #[trigger] after.inflight@[id] == before.inflight@[id]
        },
        AdmissionDecision::Delay { until_ms } => {
            &&& after.queue@ == before.queue@.push(
                QueueEntry { request, sender, ready_at_ms: until_ms },
            )
            &&& after.inflight@ == before.inflight@
        },
        AdmissionDecision::Reject { .. } => {
            &&& after.queue@ == before.queue@
            &&& after.inflight@ == before.inflight@
        },
    }
}

/// Whether re-deciding on up to `budget` queued requests whose time has come leads from
/// `before` to `after`, with the streams of rejected requests closed in order.
pub open spec fn promotes<P: Fn(u32) -> Ieee64, T: Fn(u32) -> Ieee64>(
    before: ContinuousBatcher,
    now_ms: u64,
    prefill: P,
    tpot: T,
    budget: nat,
    after: ContinuousBatcher,
    closed: Seq<TokenSender>,
) -> bool
    decreases budget,
{
    if budget == 0 || before.queue@.len() == 0 || before.queue@[0].ready_at_ms > now_ms {
        after == before && closed.len() == 0
    } else {
        exists|popped: ContinuousBatcher, d: AdmissionDecision, next: ContinuousBatcher|
            {
                &&& #[trigger] promotes_first(before, now_ms, prefill, tpot, popped, d, next)
                &&& shut_by(before, d).len() <= closed.len()
                &&& closed.take(shut_by(before, d).len() as int) == shut_by(before, d)
                &&& promotes(
                    next,
                    now_ms,
                    prefill,
                    tpot,
                    (budget - 1) as nat,
                    after,
                    closed.skip(shut_by(before, d).len() as int),
                )
            }
    }
}

/// Whether a promotion leads from `before` to `after`: those that wait are looked at once each.
pub open spec fn promoted<P: Fn(u32) -> Ieee64, T: Fn(u32) -> Ieee64>(
    before: ContinuousBatcher,
    now_ms: u64,
    prefill: P,
    tpot: T,
    after: ContinuousBatcher,
    closed: Seq<TokenSender>,
) -> bool {
    promotes(before, now_ms, prefill, tpot, before.queue@.len(), after, closed)
}

/// The streams to close once a decision on the first queued request is carried out.
pub open spec fn shut_by(before: ContinuousBatcher, d: AdmissionDecision) -> Seq<TokenSender> {
    if d is Reject {
        seq![before.queue@[0].sender]
    } else {
        seq![]
    }
}

/// Whether re-deciding on the first queued request, taken out of the queue, leads from
/// `before` to `next`.
pub open spec fn promotes_first<P: Fn(u32) -> Ieee64, T: Fn(u32) -> Ieee64>(
    before: ContinuousBatcher,
    now_ms: u64,
    prefill: P,
    tpot: T,
    popped: ContinuousBatcher,
    d: AdmissionDecision,
    next: ContinuousBatcher,
) -> bool {
    let e = before.queue@[0];
    &&& popped.queue@ == before.queue@.drop_first()
    &&& popped == (ContinuousBatcher { queue: popped.queue, ..before })
    &&& decides(popped, e.request, now_ms, prefill, tpot, d)
    &&& carried_out(popped, e.request, e.sender, now_ms, d, next)
}

/// Whether recording a token of a request leads from `before` to `after`, with this outcome.
pub open spec fn accepted(
    before: ContinuousBatcher,
    id: RequestId,
    token: u32,
    after: ContinuousBatcher,
    res: Option<AcceptOutcome>,
) -> bool {
    &&& after == (ContinuousBatcher { inflight: after.inflight, ..before })
    &&& res is Some <==> before.inflight@.contains_key(id.0)
    &&& res is None ==> after.inflight@ == before.inflight@
    &&& res matches Some(o) ==> {
        let was = before.inflight@[id.0];
        let now = after.inflight@[id.0];
        let mid_chunk = was.chunks is Some && was.chunks->0.next_chunk
            < was.chunks->0.total_chunks;
        &&& after.inflight@ == before.inflight@.insert(id.0, now)
        &&& now.generated_tokens@ == was.generated_tokens@.push(token)
        &&& now == (InflightRequest {
            generated_tokens: now.generated_tokens,
            output_tokens_emitted: (was.output_tokens_emitted + 1) as u32,
            phase: if mid_chunk {
                was.phase
            } else {
                Phase::Decode
            },
            ..was
        })
        &&& o == (AcceptOutcome {
            sender: was.sender,
            is_final: was.output_tokens_emitted + 1 >= was.request.max_output_tokens,
        })
    }
}

impl ContinuousBatcher {
    /// A batcher with nobody in flight and nobody waiting. `override_var` is the benchmark
    /// variable that sets the number of requests in flight, if it is a number above zero.
    pub fn new(policy: BatchPolicy, workload: Workload, override_var: Option<&str>) -> (res: Self)
        ensures
            res.policy == policy,
            res.workload == workload,
            res.queue@.len() == 0,
            res.inflight@ == Map::<u64, InflightRequest>::empty(),
            res.max_batch_override == match override_var {
                Some(s) => match parsed(s@) {
                    Some(n) => if 1 <= n <= u32::MAX {
                        Some(n as u32)
                    } else {
                        None
                    },
                    None => None,
                },
                None => None,
            },
    {
        let max_batch_override = match override_var {
            Some(s) => match parse_usize(s) {
                Some(n) => if n >= 1 && n as u64 <= u32::MAX as u64 {
                    Some(n as u32)
                } else {
                    None
                },
                None => None,
            },
            None => None,
        };
        ContinuousBatcher {
            policy,
            queue: AdmissionQueue::new(),
            inflight: InflightSet::new(),
            workload,
            max_batch_override,
        }
    }

    /// Decides on a request without acting on it.
    pub fn decide<P: Fn(u32) -> Ieee64, T: Fn(u32) -> Ieee64>(
        &self,
        request: &IncomingRequest,
        now_ms: u64,
        prefill: &P,
        tpot: &T,
    ) -> (res: AdmissionDecision)
        requires
            forall|n: u32| call_requires(*prefill, (n,)),
            forall|n: u32| call_requires(*tpot, (n,)),
            delay_fits(*self, *request, count_of(self.inflight@), now_ms, *prefill, *tpot),
        ensures
            decides(*self, *request, now_ms, *prefill, *tpot, res),
    {
        let n: u32 = #[verifier::truncate]
        (self.inflight.len() as u32);
        assert(n == count_of(self.inflight@));
        if let Some(m) = self.max_batch_override {
            return if n < m {
                AdmissionDecision::Admit
            } else {
                AdmissionDecision::Delay { until_ms: 0 }
            };
        }
        let len: u32 = #[verifier::truncate]
        (request.prompt_tokens.len() as u32);
        let max_batch: u32 = self.policy.max_batch();
        let prefill_ms = (*prefill)(len);
        let step_ms = (*tpot)(n);
        let next_step_ms = if n < max_batch {
            (*tpot)(n + 1)
        } else {
            step_ms
        };
        let p = Predictions { prefill_ms, step_ms, next_step_ms };
        assert(predicted(*prefill, *tpot, request.prompt_tokens.len() as u32, n, max_batch, p));
        decide(now_ms, max_batch, n, &self.workload.slo, &p)
    }

    /// Decides on a request and acts on the decision.
    pub fn enroll<P: Fn(u32) -> Ieee64, T: Fn(u32) -> Ieee64>(
        &mut self,
        request: IncomingRequest,
        sender: TokenSender,
        now_ms: u64,
        prefill: &P,
        tpot: &T,
    ) -> (res: AdmissionDecision)
        requires
            forall|n: u32| call_requires(*prefill, (n,)),
            forall|n: u32| call_requires(*tpot, (n,)),
            delay_fits(
                *old(self),
                request,
                count_of(old(self).inflight@),
                now_ms,
                *prefill,
                *tpot,
            ),
        ensures
            decides(*old(self), request, now_ms, *prefill, *tpot, res),
            carried_out(*old(self), request, sender, now_ms, res, *final(self)),
    {
        let d = self.decide(&request, now_ms, prefill, tpot);
        match d {
            AdmissionDecision::Admit => {
                self.inflight.insert(request, sender, self.policy, now_ms);
            },
            AdmissionDecision::Delay { until_ms } => {
                self.queue.push(request, sender, until_ms);
            },
            AdmissionDecision::Reject { .. } => {},
        }
        d
    }

    /// The requests of the next step: every request in flight, by phase, in no particular
    /// order. `kv_class` gives the KV class of a sequence of so many tokens.
    pub fn next_step_batch<F: Fn(usize) -> u32>(&self, total_kv_pages: u32, kv_class: &F) -> (res:
        StepBatch)
        requires
            forall|n: usize| call_requires(*kv_class, (n,)),
            forall|id: u64| #[trigger]
                decoding(self.inflight@, id) ==> sequence_len(self.inflight@[id]) <= usize::MAX,
        ensures
            res.prefill_requests@.no_duplicates(),
            res.decode_requests@.no_duplicates(),
            forall|id: RequestId|
                #[trigger] res.prefill_requests@.contains(id) <==> self.inflight@.contains_key(id.0)
                    && self.inflight@[id.0].phase == Phase::Prefill,
            forall|id: RequestId|
                #[trigger] res.decode_requests@.contains(id) <==> self.inflight@.contains_key(id.0)
                    && self.inflight@[id.0].phase == Phase::Decode,
            res.total_kv_pages == total_kv_pages,
            uniform_size(
                self.inflight@,
                *kv_class,
                res.decode_requests@.len(),
                res.uniform_decode_size,
            ),
    {
        let prefill_requests = self.inflight.ids_in(Phase::Prefill);
        let decode_requests = self.inflight.ids_in(Phase::Decode);
        let uniform_decode_size = if decode_requests.len() > 0 && self.one_kv_class(
            &decode_requests,
            kv_class,
        ) {
            Some(
                #[verifier::truncate]
                (decode_requests.len() as u32),
            )
        } else {
            None
        };
        StepBatch { prefill_requests, decode_requests, total_kv_pages, uniform_decode_size }
    }

    /// The KV class of a request that decodes.
    fn class_of<F: Fn(usize) -> u32>(&self, id: RequestId, kv_class: &F) -> (res: u32)
        requires
            forall|n: usize| call_requires(*kv_class, (n,)),
            decoding(self.inflight@, id.0),
            sequence_len(self.inflight@[id.0]) <= usize::MAX,
        ensures
            classed(self.inflight@, *kv_class, id.0, res),
    {
        match self.inflight.get(id) {
            Some(r) => (*kv_class)(r.request.prompt_tokens.len() + r.generated_tokens.len()),
            None => 0,
        }
    }

    /// Whether all these requests, which are those that decode, are in one KV class.
    fn one_kv_class<F: Fn(usize) -> u32>(&self, decodes: &Vec<RequestId>, kv_class: &F) -> (res:
        bool)
        requires
            forall|n: usize| call_requires(*kv_class, (n,)),
            forall|id: u64| #[trigger]
                decoding(self.inflight@, id) ==> sequence_len(self.inflight@[id]) <= usize::MAX,
            decodes@.len() > 0,
            forall|id: RequestId| #[trigger]
                decodes@.contains(id) <==> decoding(self.inflight@, id.0),
        ensures
            if res {
                exists|class: u32| #[trigger] all_classed(self.inflight@, *kv_class, class)
            } else {
                classes_differ(self.inflight@, *kv_class)
            },
    {
        assert(decodes@.contains(decodes@[0]));
        let first: u32 = self.class_of(decodes[0], kv_class);
        let mut i: usize = 1;
        while i < decodes.len()
            invariant
                1 <= i <= decodes@.len(),
                forall|n: usize| call_requires(*kv_class, (n,)),
                forall|id: u64| #[trigger]
                    decoding(self.inflight@, id) ==> sequence_len(self.inflight@[id]) <= usize::MAX,
                forall|id: RequestId| #[trigger]
                    decodes@.contains(id) <==> decoding(self.inflight@, id.0),
                forall|j: int|
                    0 <= j < i ==> classed(
                        self.inflight@,
                        *kv_class,
                        (#[trigger] decodes@[j]).0,
                        first,
                    ),
            decreases decodes.len() - i,
        {
            assert(decodes@.contains(decodes@[i as int]));
            let class: u32 = self.class_of(decodes[i], kv_class);
            if class != first {
                assert(classed(self.inflight@, *kv_class, decodes@[0].0, first));
                return false;
            }
            i += 1;
        }
        assert(all_classed(self.inflight@, *kv_class, first)) by {
            assert forall|id: u64| #[trigger] decoding(self.inflight@, id) implies classed(
                self.inflight@,
                *kv_class,
                id,
                first,
            ) by {
                assert(decodes@.contains(RequestId(id)));
            }
        }
        true
    }

    /// The tokens of a request so far: its prompt, then what was generated.
    pub fn current_sequence(&self, id: RequestId) -> (res: Option<Vec<u32>>)
        ensures
            res is Some <==> self.inflight@.contains_key(id.0),
            res matches Some(seq) ==> seq@ == self.inflight@[id.0].request.prompt_tokens@
                + self.inflight@[id.0].generated_tokens@,
    {
        let r = match self.inflight.get(id) {
            Some(r) => r,
            None => {
                return None;
            },
        };
        let mut out = crate::runtime::distributed::pipeline::copy_tokens(&r.request.prompt_tokens);
        let mut i: usize = 0;
        assert(r.generated_tokens@.take(0) =~= seq![]);
        assert(out@ + r.generated_tokens@.take(0) =~= out@);
        while i < r.generated_tokens.len()
            invariant
                i <= r.generated_tokens@.len(),
                out@ == r.request.prompt_tokens@ + r.generated_tokens@.take(i as int),
            decreases r.generated_tokens.len() - i,
        {
            out.push(r.generated_tokens[i]);
            i += 1;
            assert(out@ =~= r.request.prompt_tokens@ + r.generated_tokens@.take(i as int));
        }
        assert(r.generated_tokens@.take(i as int) =~= r.generated_tokens@);
        Some(out)
    }

    /// Records a token of a request. The first token moves a request from prefill to
    /// decode, unless it is in the middle of its chunks. `None` if the request is not in
    /// flight.
    pub fn accept_token(&mut self, id: RequestId, token: u32) -> (res: Option<AcceptOutcome>)
        requires
            old(self).inflight@.contains_key(id.0) ==> old(
                self,
            ).inflight@[id.0].output_tokens_emitted < u32::MAX,
        ensures
            accepted(*old(self), id, token, *final(self), res),
    {
        broadcast use vstd::std_specs::hash::group_hash_axioms;

        let mut r = match self.inflight.remove(id) {
            Some(r) => r,
            None => {
                assert(self.inflight@ =~= old(self).inflight@);
                return None;
            },
        };
        r.generated_tokens.push(token);
        r.output_tokens_emitted = r.output_tokens_emitted + 1;
        let mid_chunk = match &r.chunks {
            Some(c) => !c.is_done(),
            None => false,
        };
        if !mid_chunk {
            r.phase = Phase::Decode;
        }
        let out = AcceptOutcome {
            sender: r.sender,
            is_final: r.output_tokens_emitted >= r.request.max_output_tokens,
        };
        self.inflight.by_id.insert(id.0, r);
        assert(self.inflight@ =~= old(self).inflight@.insert(id.0, r));
        Some(out)
    }

    /// Decides anew on the waiting requests whose time has come, each at most once. Gives
    /// the streams of those that were rejected, which are to be closed.
    pub fn promote_ready<P: Fn(u32) -> Ieee64, T: Fn(u32) -> Ieee64>(
        &mut self,
        now_ms: u64,
        prefill: &P,
        tpot: &T,
    ) -> (res: Vec<TokenSender>)
        requires
            forall|n: u32| call_requires(*prefill, (n,)),
            forall|n: u32| call_requires(*tpot, (n,)),
            delays_fit(*old(self), now_ms, *prefill, *tpot),
        ensures
            promoted(*old(self), now_ms, *prefill, *tpot, *final(self), res@),
    {
        let n: usize = self.queue.len();
        let mut budget: usize = n;
        let mut closed: Vec<TokenSender> = Vec::new();
        let ghost start = *old(self);
        proof {
            assert forall|t: ContinuousBatcher, c: Seq<TokenSender>|
                #[trigger] promotes(*self, now_ms, *prefill, *tpot, budget as nat, t, c) implies promotes(
                start,
                now_ms,
                *prefill,
                *tpot,
                n as nat,
                t,
                closed@ + c,
            ) by {
                assert(closed@ + c =~= c);
            }
        }
        let mut more = true;
        let ghost mut done: int = 0;
        while budget > 0 && more
            invariant
                budget <= n,
                start == *old(self),
                forall|n: u32| call_requires(*prefill, (n,)),
                forall|n: u32| call_requires(*tpot, (n,)),
                self.policy == start.policy,
                self.workload == start.workload,
                self.max_batch_override == start.max_batch_override,
                delays_fit(start, now_ms, *prefill, *tpot),
                done == n - budget,
                start.queue@.len() == n,
                budget <= self.queue@.len(),
                forall|j: int|
                    0 <= j < budget ==> #[trigger] self.queue@[j] == start.queue@[done + j],
                start.inflight@.len() <= self.inflight@.len() <= start.inflight@.len() + done,
                self.inflight@.dom().finite(),
                forall|t: ContinuousBatcher, c: Seq<TokenSender>|
                    #[trigger] promotes(*self, now_ms, *prefill, *tpot, budget as nat, t, c)
                        ==> promotes(
                        start,
                        now_ms,
                        *prefill,
                        *tpot,
                        n as nat,
                        t,
                        closed@ + c,
                    ),
                !more ==> self.queue@.len() == 0 || self.queue@[0].ready_at_ms > now_ms,
            decreases budget + if more {
                1int
            } else {
                0int
            },
        {
            let ghost before = *self;
            let ghost shut_before = closed@;
            match self.queue.pop_ready(now_ms) {
                None => {
                    assert(*self == before);
                    more = false;
                },
                Some(entry) => {
                    let ghost popped = *self;
                    assert(before.queue@[0] == start.queue@[done + 0]);
                    assert(delay_fits(
                        start,
                        start.queue@[done].request,
                        counted(before.inflight@.len()),
                        now_ms,
                        *prefill,
                        *tpot,
                    ));
                    let d = self.enroll(entry.request, entry.sender, now_ms, prefill, tpot);
                    if let AdmissionDecision::Reject { .. } = d {
                        closed.push(entry.sender);
                    }
                    let ghost next = *self;
                    proof {
                        let shut = shut_by(before, d);
                        assert(closed@ =~= shut_before + shut);
                        assert forall|t: ContinuousBatcher, c: Seq<TokenSender>|
                            #[trigger] promotes(
                                next,
                                now_ms,
                                *prefill,
                                *tpot,
                                (budget - 1) as nat,
                                t,
                                c,
                            ) implies promotes(
                            start,
                            now_ms,
                            *prefill,
                            *tpot,
                            n as nat,
                            t,
                            closed@ + c,
                        ) by {
                            let all = shut + c;
                            assert(all.take(shut.len() as int) =~= shut);
                            assert(all.skip(shut.len() as int) =~= c);
                            assert(promotes_first(
                                before,
                                now_ms,
                                *prefill,
                                *tpot,
                                popped,
                                d,
                                next,
                            ));
                            assert(promotes(
                                before,
                                now_ms,
                                *prefill,
                                *tpot,
                                budget as nat,
                                t,
                                all,
                            ));
                            assert(shut_before + all =~= closed@ + c);
                        }
                    }
                    proof {
                        done = done + 1;
                        assert forall|j: int| 0 <= j < budget - 1 implies #[trigger] self.queue@[j]
                            == start.queue@[done + j] by {
                            assert(before.queue@[j + 1] == start.queue@[done - 1 + (j + 1)]);
                        }
                    }
                    budget -= 1;
                },
            }
        }
        proof {
            assert(promotes(
                *self,
                now_ms,
                *prefill,
                *tpot,
                budget as nat,
                *self,
                Seq::<TokenSender>::empty(),
            ));
            assert(closed@ + Seq::<TokenSender>::empty() =~= closed@);
        }
        closed
    }

    /// Takes a request out of flight; its stream is to be closed and its pages released.
    pub fn retire(&mut self, request_id: RequestId) -> (res: Result<TokenSender, RuntimeError>)
        ensures
            *final(self) == (ContinuousBatcher { inflight: final(self).inflight, ..*old(self) }),
            final(self).inflight@ == old(self).inflight@.remove(request_id.0),
            res == if old(self).inflight@.contains_key(request_id.0) {
                Ok::<_, RuntimeError>(old(self).inflight@[request_id.0].sender)
            } else {
                Err(RuntimeError::UnknownRequest(request_id.0))
            },
    {
        retire(request_id, &mut self.inflight)
    }

    pub fn inflight_len(&self) -> (res: usize)
        ensures
            res == self.inflight@.len(),
    {
        self.inflight.len()
    }

    pub fn queued_len(&self) -> (res: usize)
        ensures
            res == self.queue@.len(),
    {
        self.queue.len()
    }

    pub fn workload(&self) -> (res: &Workload)
        ensures
            *res == self.workload,
    {
        &self.workload
    }

    /// The requests in flight, for inspection while draining.
    pub fn inflight_ref(&self) -> (res: &InflightSet)
        ensures
            *res == self.inflight,
    {
        &self.inflight
    }
}

/// The number of requests that may be in flight at once.
pub open spec fn limit_of(b: ContinuousBatcher) -> u32 {
    match b.max_batch_override {
        Some(m) => m,
        None => b.policy.batch_limit(),
    }
}

/// Admission never takes the number of requests in flight past the limit.
pub proof fn admission_respects_the_limit<P: Fn(u32) -> Ieee64, T: Fn(u32) -> Ieee64>(
    before: ContinuousBatcher,
    request: IncomingRequest,
    sender: TokenSender,
    now_ms: u64,
    prefill: P,
    tpot: T,
    d: AdmissionDecision,
    after: ContinuousBatcher,
)
    requires
        decides(before, request, now_ms, prefill, tpot, d),
        carried_out(before, request, sender, now_ms, d, after),
        before.inflight@.len() <= u32::MAX,
    ensures
        d == AdmissionDecision::Admit ==> after.inflight@.len() <= limit_of(before),
        d != AdmissionDecision::Admit ==> after.inflight@.len() == before.inflight@.len(),
{
    assert(count_of(before.inflight@) == before.inflight@.len());
    if d == AdmissionDecision::Admit {
        assert(after.inflight@.dom().len() <= before.inflight@.dom().len() + 1);
    }
}

/// Whether a request that waited is still known: in flight, waiting, or its stream is
/// among those to be closed.
pub open spec fn still_known(e: QueueEntry, after: ContinuousBatcher, closed: Seq<TokenSender>) -> bool {
    ||| after.inflight@.contains_key(e.request.id.0)
    ||| closed.contains(e.sender)
    ||| exists|i: int|
        0 <= i < after.queue@.len() && (#[trigger] after.queue@[i]).request == e.request
            && after.queue@[i].sender == e.sender
}

/// Promotion takes nobody out of flight.
pub proof fn promotion_keeps_those_in_flight<P: Fn(u32) -> Ieee64, T: Fn(u32) -> Ieee64>(
    before: ContinuousBatcher,
    now_ms: u64,
    prefill: P,
    tpot: T,
    budget: nat,
    after: ContinuousBatcher,
    closed: Seq<TokenSender>,
    id: u64,
)
    requires
        promotes(before, now_ms, prefill, tpot, budget, after, closed),
        before.inflight@.contains_key(id),
    ensures
        after.inflight@.contains_key(id),
    decreases budget,
{
    if !(budget == 0 || before.queue@.len() == 0 || before.queue@[0].ready_at_ms > now_ms) {
        let (popped, d, next) = choose|
            popped: ContinuousBatcher,
            d: AdmissionDecision,
            next: ContinuousBatcher,
        |
            {
                &&& #[trigger] promotes_first(before, now_ms, prefill, tpot, popped, d, next)
                &&& shut_by(before, d).len() <= closed.len()
                &&& closed.take(shut_by(before, d).len() as int) == shut_by(before, d)
                &&& promotes(
                    next,
                    now_ms,
                    prefill,
                    tpot,
                    (budget - 1) as nat,
                    after,
                    closed.skip(shut_by(before, d).len() as int),
                )
            };
        assert(next.inflight@.dom().contains(id));
        promotion_keeps_those_in_flight(
            next,
            now_ms,
            prefill,
            tpot,
            (budget - 1) as nat,
            after,
            closed.skip(shut_by(before, d).len() as int),
            id,
        );
    }
}

/// Promotion loses nobody: every request that waited is in flight, waits again, or has its
/// stream closed.
pub proof fn promotion_loses_nobody<P: Fn(u32) -> Ieee64, T: Fn(u32) -> Ieee64>(
    before: ContinuousBatcher,
    now_ms: u64,
    prefill: P,
    tpot: T,
    budget: nat,
    after: ContinuousBatcher,
    closed: Seq<TokenSender>,
    k: int,
)
    requires
        promotes(before, now_ms, prefill, tpot, budget, after, closed),
        0 <= k < before.queue@.len(),
    ensures
        still_known(before.queue@[k], after, closed),
    decreases budget,
{
    let e = before.queue@[k];
    if budget == 0 || before.queue@.len() == 0 || before.queue@[0].ready_at_ms > now_ms {
        assert(after.queue@[k].request == e.request);
    } else {
        let (popped, d, next) = choose|
            popped: ContinuousBatcher,
            d: AdmissionDecision,
            next: ContinuousBatcher,
        |
            {
                &&& #[trigger] promotes_first(before, now_ms, prefill, tpot, popped, d, next)
                &&& shut_by(before, d).len() <= closed.len()
                &&& closed.take(shut_by(before, d).len() as int) == shut_by(before, d)
                &&& promotes(
                    next,
                    now_ms,
                    prefill,
                    tpot,
                    (budget - 1) as nat,
                    after,
                    closed.skip(shut_by(before, d).len() as int),
                )
            };
        let shut = shut_by(before, d);
        let rest = closed.skip(shut.len() as int);
        if k == 0 && d is Reject {
            assert(closed.take(1)[0] == e.sender);
            assert(closed[0] == e.sender);
        } else if k == 0 && d is Admit {
            assert(next.inflight@.dom().contains(e.request.id.0));
            promotion_keeps_those_in_flight(
                next,
                now_ms,
                prefill,
                tpot,
                (budget - 1) as nat,
                after,
                rest,
                e.request.id.0,
            );
        } else {
            let at = if k == 0 {
                next.queue@.len() - 1
            } else {
                k - 1
            };
            assert(popped.queue@ == before.queue@.drop_first());
            assert(next.queue@[at].request == e.request && next.queue@[at].sender == e.sender);
            promotion_loses_nobody(
                next,
                now_ms,
                prefill,
                tpot,
                (budget - 1) as nat,
                after,
                rest,
                at,
            );
            if rest.contains(e.sender) {
                let q = rest.index_of(e.sender);
                assert(closed[q + shut.len()] == e.sender);
            }
        }
    }
}

/// Without an override, a batcher decides by its policy, its SLO and what the estimator says:
/// it rejects exactly those whose own prompt takes too long to prefill, admits nobody past
/// the policy's batch or where one decode step with one request more would take too long,
/// and delays the rest by a decode step of those in flight. This is stated of an estimator
/// that gives one number for one length.
pub proof fn batchers_decide_by_the_slo<P: Fn(u32) -> Ieee64, T: Fn(u32) -> Ieee64>(
    b: ContinuousBatcher,
    request: IncomingRequest,
    now_ms: u64,
    prefill: P,
    tpot: T,
    prefill_ms: spec_fn(u32) -> Ieee64,
    step_ms: spec_fn(u32) -> Ieee64,
    d: AdmissionDecision,
)
    requires
        decides(b, request, now_ms, prefill, tpot, d),
        b.max_batch_override is None,
        b.inflight@.len() < u32::MAX,
        request.prompt_tokens@.len() <= u32::MAX,
        forall|n: u32, t: Ieee64| #[trigger] call_ensures(prefill, (n,), t) ==> t == prefill_ms(n),
        forall|n: u32, t: Ieee64| #[trigger] call_ensures(tpot, (n,), t) ==> t == step_ms(n),
    ensures
        ({
            let n = b.inflight@.len();
            let most = b.policy.batch_limit();
            let too_long = prefill_ms(request.prompt_tokens@.len() as u32).above(
                Ieee64::of(b.workload.slo.ttft_p95_ms),
            );
            let too_slow = step_ms((n + 1) as u32).above(Ieee64::of(b.workload.slo.tpot_p95_ms));
            &&& d is Reject <==> too_long
            &&& d is Admit <==> !too_long && n < most && !too_slow
            &&& d is Delay <==> !too_long && (n >= most || too_slow)
            &&& d is Delay && retry_at(now_ms as int, step_ms(n as u32)) <= u64::MAX ==> d->until_ms
                == retry_at(now_ms as int, step_ms(n as u32))
        }),
{
    let n = count_of(b.inflight@);
    assert(n == b.inflight@.len());
    assert(request.prompt_tokens.len() == request.prompt_tokens@.len());
    let p = choose|p: Predictions|
        {
            &&& #[trigger] predicted(
                prefill,
                tpot,
                request.prompt_tokens.len() as u32,
                n,
                b.policy.batch_limit(),
                p,
            )
            &&& d == decision(now_ms, b.policy.batch_limit(), n, b.workload.slo, p)
        };
    assert(p.prefill_ms == prefill_ms(request.prompt_tokens@.len() as u32));
    assert(p.step_ms == step_ms(n));
}

/// With an override the number in flight alone decides: below it everybody is let in, at it
/// everybody waits, and nobody is rejected.
pub proof fn an_override_only_counts<P: Fn(u32) -> Ieee64, T: Fn(u32) -> Ieee64>(
    b: ContinuousBatcher,
    request: IncomingRequest,
    now_ms: u64,
    prefill: P,
    tpot: T,
    d: AdmissionDecision,
)
    requires
        decides(b, request, now_ms, prefill, tpot, d),
        b.max_batch_override is Some,
        b.inflight@.len() <= u32::MAX,
    ensures
        d is Admit <==> b.inflight@.len() < b.max_batch_override->0,
        !(d is Admit) ==> d == (AdmissionDecision::Delay { until_ms: 0 }),
{
    assert(count_of(b.inflight@) == b.inflight@.len());
}

/// A decision puts the request in one place. Admitted, it is in flight, in prefill, with
/// nothing generated, its stream and its prompt its own, and the queue as before; delayed, it
/// is last in the queue, to be looked at again when the delay ends; rejected, it is nowhere.
/// Nobody else is touched.
pub proof fn decisions_put_the_request_in_its_place(
    before: ContinuousBatcher,
    request: IncomingRequest,
    sender: TokenSender,
    now_ms: u64,
    d: AdmissionDecision,
    after: ContinuousBatcher,
    id: u64,
    k: int,
)
    requires
        carried_out(before, request, sender, now_ms, d, after),
    ensures
        after.policy == before.policy,
        after.workload == before.workload,
        after.max_batch_override == before.max_batch_override,
        id != request.id.0 || !(d is Admit) ==> (after.inflight@.contains_key(id)
            <==> before.inflight@.contains_key(id)) && (before.inflight@.contains_key(id)
            ==> after.inflight@[id] == before.inflight@[id]),
        0 <= k < before.queue@.len() ==> after.queue@[k] == before.queue@[k],
        after.queue@.len() == before.queue@.len() + if d is Delay {
            1int
        } else {
            0int
        },
        d is Admit ==> {
            let r = after.inflight@[request.id.0];
            &&& after.inflight@.contains_key(request.id.0)
            &&& r.request == request
            &&& r.sender == sender
            &&& r.admitted_at_ms == now_ms
            &&& r.phase == Phase::Prefill
            &&& r.generated_tokens@.len() == 0
            &&& r.output_tokens_emitted == 0
            &&& r.chunks is Some <==> before.policy is ContinuousChunked
            &&& r.chunks matches Some(c) ==> c.next_chunk == 0 && c.total_chunks > 0
        },
        d matches AdmissionDecision::Delay { until_ms } ==> {
            let e = after.queue@.last();
            &&& e.request == request
            &&& e.sender == sender
            &&& e.ready_at_ms == until_ms
        },
{
    if d is Admit {
        assert(after.inflight@.dom().contains(request.id.0));
        assert(after.inflight@.dom().contains(id) <==> before.inflight@.dom().insert(
            request.id.0,
        ).contains(id));
        let r = after.inflight@[request.id.0];
        if r.chunks is Some {
            let n = request.prompt_tokens.len() as u32;
            let c = crate::runtime::batcher::chunking::chunk_size_of(n, before.policy);
            if n > 0 {
                let q = n + c - 1;
                assert(1 <= q / (c as int) <= n) by (nonlinear_arith)
                    requires
                        q == n + c - 1,
                        c >= 1,
                        n >= 1,
                ;
            }
        }
    }
}

/// The queue is served from the front: while its first request must wait, nobody is looked
/// at, and nothing changes.
pub proof fn the_queue_is_served_in_order<P: Fn(u32) -> Ieee64, T: Fn(u32) -> Ieee64>(
    before: ContinuousBatcher,
    now_ms: u64,
    prefill: P,
    tpot: T,
    budget: nat,
    after: ContinuousBatcher,
    closed: Seq<TokenSender>,
)
    requires
        promotes(before, now_ms, prefill, tpot, budget, after, closed),
    ensures
        before.queue@.len() > 0 && before.queue@[0].ready_at_ms > now_ms ==> after == before
            && closed.len() == 0,
        before.queue@.len() == 0 ==> after == before && closed.len() == 0,
        budget > 0 && before.queue@.len() > 0 && before.queue@[0].ready_at_ms <= now_ms ==> exists|
            popped: ContinuousBatcher,
            d: AdmissionDecision,
            next: ContinuousBatcher,
        |
            {
                &&& popped.queue@ == before.queue@.drop_first()
                &&& popped.inflight == before.inflight
                &&& #[trigger] decides(
                    popped,
                    before.queue@[0].request,
                    now_ms,
                    prefill,
                    tpot,
                    d,
                )
                &&& #[trigger] carried_out(
                    popped,
                    before.queue@[0].request,
                    before.queue@[0].sender,
                    now_ms,
                    d,
                    next,
                )
                &&& d is Reject ==> closed.len() > 0 && closed[0] == before.queue@[0].sender
            },
{
    if budget > 0 && before.queue@.len() > 0 && before.queue@[0].ready_at_ms <= now_ms {
        let (popped, d, next) = choose|
            popped: ContinuousBatcher,
            d: AdmissionDecision,
            next: ContinuousBatcher,
        |
            {
                &&& #[trigger] promotes_first(before, now_ms, prefill, tpot, popped, d, next)
                &&& shut_by(before, d).len() <= closed.len()
                &&& closed.take(shut_by(before, d).len() as int) == shut_by(before, d)
                &&& promotes(
                    next,
                    now_ms,
                    prefill,
                    tpot,
                    (budget - 1) as nat,
                    after,
                    closed.skip(shut_by(before, d).len() as int),
                )
            };
        assert(decides(popped, before.queue@[0].request, now_ms, prefill, tpot, d));
        assert(carried_out(
            popped,
            before.queue@[0].request,
            before.queue@[0].sender,
            now_ms,
            d,
            next,
        ));
        if d is Reject {
            assert(closed.take(1)[0] == closed[0]);
        }
    }
}

/// A token is added to its own request, behind those generated before, and to nobody else's.
/// It goes to the request's stream. The request is done exactly when it has as many tokens as
/// it asked for; once its prompt is prefilled, it decodes.
pub proof fn tokens_go_to_their_request(
    before: ContinuousBatcher,
    id: RequestId,
    token: u32,
    after: ContinuousBatcher,
    res: Option<AcceptOutcome>,
    other: u64,
)
    requires
        accepted(before, id, token, after, res),
        before.inflight@.contains_key(id.0),
        before.inflight@[id.0].output_tokens_emitted
            == before.inflight@[id.0].generated_tokens@.len(),
        before.inflight@[id.0].output_tokens_emitted < u32::MAX,
    ensures
        ({
            let was = before.inflight@[id.0];
            let now = after.inflight@[id.0];
            &&& res is Some
            &&& after.inflight@.dom() == before.inflight@.dom()
            &&& other != id.0 && before.inflight@.contains_key(other) ==> after.inflight@[other]
                == before.inflight@[other]
            &&& after.queue == before.queue
            &&& now.request == was.request
            &&& now.sender == was.sender
            &&& now.chunks == was.chunks
            &&& now.generated_tokens@ == was.generated_tokens@ + seq![token]
            &&& now.output_tokens_emitted == now.generated_tokens@.len()
            &&& sequence_len(now) == sequence_len(was) + 1
            &&& res->0.sender == was.sender
            &&& res->0.is_final <==> now.generated_tokens@.len() >= was.request.max_output_tokens
            &&& was.chunks is None || was.chunks->0.next_chunk >= was.chunks->0.total_chunks
                ==> now.phase == Phase::Decode
            &&& was.chunks is Some && was.chunks->0.next_chunk < was.chunks->0.total_chunks
                ==> now.phase == was.phase
        }),
{
    let was = before.inflight@[id.0];
    let now = after.inflight@[id.0];
    assert(after.inflight@.dom() =~= before.inflight@.dom());
    assert(now.generated_tokens@ =~= was.generated_tokens@ + seq![token]);
}

/// A request's sequence is its prompt and then what was generated, in order.
pub proof fn sequences_are_prompt_then_generated(
    b: &ContinuousBatcher,
    id: RequestId,
    res: Option<Vec<u32>>,
    i: int,
)
    requires
        call_ensures(ContinuousBatcher::current_sequence, (b, id), res),
        b.inflight@.contains_key(id.0),
        0 <= i < sequence_len(b.inflight@[id.0]),
    ensures
        ({
            let r = b.inflight@[id.0];
            let n = r.request.prompt_tokens@.len();
            &&& res is Some
            &&& res->0@.len() == n + r.generated_tokens@.len()
            &&& i < n ==> res->0@[i] == r.request.prompt_tokens@[i]
            &&& i >= n ==> res->0@[i] == r.generated_tokens@[i - n]
        }),
{
}

/// A batcher starts empty, with the policy and workload it was given; the variable overrides
/// the number in flight only where it is a number of at least one that fits.
pub proof fn batchers_start_empty(
    policy: BatchPolicy,
    workload: Workload,
    var: Option<&str>,
    b: ContinuousBatcher,
)
    requires
        call_ensures(ContinuousBatcher::new, (policy, workload, var), b),
    ensures
        b.policy == policy,
        b.workload == workload,
        b.queue@.len() == 0,
        b.inflight@.len() == 0,
        var is None ==> b.max_batch_override is None,
        b.max_batch_override matches Some(m) ==> m >= 1 && parsed(var->0@) == Some(m as usize),
        var is Some && parsed(var->0@) is Some && 1 <= parsed(var->0@)->0 <= u32::MAX
            ==> b.max_batch_override == Some(parsed(var->0@)->0 as u32),
{
}

proof fn all_let_in<P: Fn(u32) -> Ieee64, T: Fn(u32) -> Ieee64>(
    before: ContinuousBatcher,
    now_ms: u64,
    prefill: P,
    tpot: T,
    budget: nat,
    after: ContinuousBatcher,
    closed: Seq<TokenSender>,
    k: int,
)
    requires
        promotes(before, now_ms, prefill, tpot, budget, after, closed),
        budget == before.queue@.len(),
        before.max_batch_override is Some,
        before.inflight@.len() + before.queue@.len() <= before.max_batch_override->0,
        forall|i: int|
            0 <= i < before.queue@.len() ==> (#[trigger] before.queue@[i]).ready_at_ms <= now_ms,
    ensures
        after.queue@.len() == 0,
        closed.len() == 0,
        0 <= k < before.queue@.len() ==> after.inflight@.contains_key(before.queue@[k].request.id.0),
    decreases budget,
{
    if budget > 0 {
        assert(before.queue@[0].ready_at_ms <= now_ms);
        let (popped, d, next) = choose|
            popped: ContinuousBatcher,
            d: AdmissionDecision,
            next: ContinuousBatcher,
        |
            {
                &&& #[trigger] promotes_first(before, now_ms, prefill, tpot, popped, d, next)
                &&& shut_by(before, d).len() <= closed.len()
                &&& closed.take(shut_by(before, d).len() as int) == shut_by(before, d)
                &&& promotes(
                    next,
                    now_ms,
                    prefill,
                    tpot,
                    (budget - 1) as nat,
                    after,
                    closed.skip(shut_by(before, d).len() as int),
                )
            };
        assert(popped.inflight@ == before.inflight@);
        assert(count_of(popped.inflight@) == before.inflight@.len());
        assert(d is Admit);
        assert(next.queue@ == before.queue@.drop_first());
        let rest = closed.skip(0);
        assert(rest =~= closed);
        assert(next.inflight@.dom().len() <= before.inflight@.dom().len() + 1);
        assert forall|i: int| 0 <= i < next.queue@.len() implies (
        #[trigger] next.queue@[i]).ready_at_ms <= now_ms by {
            assert(next.queue@[i] == before.queue@[i + 1]);
        }
        all_let_in(next, now_ms, prefill, tpot, (budget - 1) as nat, after, closed, k - 1);
        if k == 0 {
            assert(next.inflight@.dom().contains(before.queue@[0].request.id.0));
            promotion_keeps_those_in_flight(
                next,
                now_ms,
                prefill,
                tpot,
                (budget - 1) as nat,
                after,
                closed,
                before.queue@[0].request.id.0,
            );
        } else if 0 < k < before.queue@.len() {
            assert(next.queue@[k - 1] == before.queue@[k]);
        }
    }
}

/// Everybody whose time has come is looked at: where all that wait may be reconsidered and an
/// override leaves room for all of them, all are in flight afterwards and nobody waits.
pub proof fn everybody_ready_is_looked_at<P: Fn(u32) -> Ieee64, T: Fn(u32) -> Ieee64>(
    before: ContinuousBatcher,
    now_ms: u64,
    prefill: P,
    tpot: T,
    after: ContinuousBatcher,
    closed: Seq<TokenSender>,
    k: int,
)
    requires
        promoted(before, now_ms, prefill, tpot, after, closed),
        before.max_batch_override is Some,
        before.inflight@.len() + before.queue@.len() <= before.max_batch_override->0,
        forall|i: int|
            0 <= i < before.queue@.len() ==> (#[trigger] before.queue@[i]).ready_at_ms <= now_ms,
    ensures
        after.queue@.len() == 0,
        closed.len() == 0,
        0 <= k < before.queue@.len() ==> after.inflight@.contains_key(before.queue@[k].request.id.0),
{
    all_let_in(before, now_ms, prefill, tpot, before.queue@.len(), after, closed, k);
}

} // verus!
