//! SLO-aware admission.

use vstd::prelude::*;

use crate::ieee::Ieee64;
use crate::ir::workload::Slo;

verus! {

#[derive(Debug, Clone, Copy, PartialEq, Eq, Structural)]
pub enum RejectReason {
    /// Even alone, the prompt would exceed the TTFT SLO.
    PromptTooLong,
}

#[derive(Debug, Clone, Copy, PartialEq, Eq, Structural)]
pub enum AdmissionDecision {
    Admit,
    /// Reconsider at or after `until_ms`.
    Delay { until_ms: u64 },
    Reject { reason: RejectReason },
}

/// What the latency estimator predicts for a decision, in milliseconds.
#[derive(Debug, Clone, Copy, PartialEq)]
pub struct Predictions {
    /// Prefill of the request's prompt.
    pub prefill_ms: Ieee64,
    /// One decode step with the requests in flight.
    pub step_ms: Ieee64,
    /// One decode step with one request more.
    pub next_step_ms: Ieee64,
}

/// When a delayed request is reconsidered: after one decode step, at least a millisecond.
pub open spec fn retry_at(now_ms: int, step_ms: Ieee64) -> int {
    let step = step_ms.truncated();
    now_ms + if step == 0 {
        1
    } else {
        step as int
    }
}

/// The decision on a request: rejected if its prefill alone breaks the TTFT SLO; delayed
/// if the batch is full, or if one more request would break the TPOT SLO.
pub open spec fn decision(
    now_ms: u64,
    max_batch: u32,
    inflight: u32,
    slo: Slo,
    p: Predictions,
) -> AdmissionDecision {
    if p.prefill_ms.above(Ieee64::of(slo.ttft_p95_ms)) {
        AdmissionDecision::Reject { reason: RejectReason::PromptTooLong }
    } else if inflight >= max_batch || p.next_step_ms.above(Ieee64::of(slo.tpot_p95_ms)) {
        AdmissionDecision::Delay { until_ms: retry_at(now_ms as int, p.step_ms) as u64 }
    } else {
        AdmissionDecision::Admit
    }
}

/// Decides on a request.
pub fn decide(now_ms: u64, max_batch: u32, inflight: u32, slo: &Slo, p: &Predictions) -> (res:
    AdmissionDecision)
    requires
        decision(now_ms, max_batch, inflight, *slo, *p) is Delay ==> retry_at(
            now_ms as int,
            p.step_ms,
        ) <= u64::MAX,
    ensures
        res == decision(now_ms, max_batch, inflight, *slo, *p),
        res is Reject <==> p.prefill_ms.above(Ieee64::of(slo.ttft_p95_ms)),
        res is Admit ==> inflight < max_batch && !p.next_step_ms.above(
            Ieee64::of(slo.tpot_p95_ms),
        ),
        res is Delay ==> inflight >= max_batch || p.next_step_ms.above(
            Ieee64::of(slo.tpot_p95_ms),
        ),
        res matches AdmissionDecision::Delay { until_ms } ==> until_ms > now_ms && (until_ms
            == now_ms + 1 || until_ms == now_ms + p.step_ms.truncated()),
{
    if p.prefill_ms.gt(Ieee64::from_u32(slo.ttft_p95_ms)) {
        return AdmissionDecision::Reject { reason: RejectReason::PromptTooLong };
    }
    if inflight >= max_batch || p.next_step_ms.gt(Ieee64::from_u32(slo.tpot_p95_ms)) {
        let step: u64 = p.step_ms.to_u64();
        let wait: u64 = if step == 0 {
            1
        } else {
            step
        };
        return AdmissionDecision::Delay { until_ms: now_ms + wait };
    }
    AdmissionDecision::Admit
}

/// A delayed request always waits: it is never reconsidered at the same time.
pub proof fn delays_move_time_on(now_ms: u64, step_ms: Ieee64)
    ensures
        retry_at(now_ms as int, step_ms) > now_ms,
{
}

/// A request is rejected exactly when its prefill alone takes longer than the TTFT SLO
/// allows. Nothing else counts: not the clock, not the batch, not the decode steps.
pub proof fn rejected_exactly_for_slow_prefill(
    now_ms: u64,
    max_batch: u32,
    inflight: u32,
    slo: Slo,
    p: Predictions,
)
    ensures
        decision(now_ms, max_batch, inflight, slo, p) is Reject <==> p.prefill_ms.above(
            Ieee64::of(slo.ttft_p95_ms),
        ),
        forall|now: u64, most: u32, n: u32, tpot: u32, step: Ieee64, next: Ieee64| #[trigger]
            decision(
                now,
                most,
                n,
                (Slo { tpot_p95_ms: tpot, ..slo }),
                (Predictions { step_ms: step, next_step_ms: next, ..p }),
            ) is Reject <==> decision(now_ms, max_batch, inflight, slo, p) is Reject,
{
}

/// Nobody is admitted beyond the batch or beyond an SLO: an admitted request finds a place,
/// its prefill does not exceed the TTFT SLO, and the next decode step with it does not
/// exceed the TPOT SLO. Where the predictions are numbers, every such request is admitted.
pub proof fn admitted_only_within_the_slo(
    now_ms: u64,
    max_batch: u32,
    inflight: u32,
    slo: Slo,
    p: Predictions,
)
    ensures
        decision(now_ms, max_batch, inflight, slo, p) is Admit ==> {
            &&& inflight < max_batch
            &&& p.prefill_ms.nan() || p.prefill_ms.at_most(Ieee64::of(slo.ttft_p95_ms))
            &&& p.next_step_ms.nan() || p.next_step_ms.at_most(Ieee64::of(slo.tpot_p95_ms))
        },
        inflight < max_batch && p.prefill_ms.at_most(Ieee64::of(slo.ttft_p95_ms))
            && p.next_step_ms.at_most(Ieee64::of(slo.tpot_p95_ms)) ==> decision(
            now_ms,
            max_batch,
            inflight,
            slo,
            p,
        ) is Admit,
{
    crate::ieee::whole_numbers_are_numbers(slo.ttft_p95_ms);
    crate::ieee::whole_numbers_are_numbers(slo.tpot_p95_ms);
}

/// A request waits for one decode step of those in flight, and at least a millisecond: a
/// whole step later for a step of whole milliseconds.
pub proof fn delays_last_one_step(
    now_ms: u64,
    max_batch: u32,
    inflight: u32,
    slo: Slo,
    p: Predictions,
    step: u32,
)
    requires
        decision(now_ms, max_batch, inflight, slo, p) is Delay,
        p.step_ms == Ieee64::of(step),
        now_ms + step < u64::MAX,
    ensures
        decision(now_ms, max_batch, inflight, slo, p)->until_ms == now_ms + if step == 0 {
            1int
        } else {
            step as int
        },
{
    crate::ieee::whole_numbers_come_back(step);
}

/// Room for one request more never makes things worse: whoever is admitted or rejected with
/// some requests in flight is so with fewer, at the same predictions.
pub proof fn fewer_in_flight_never_hurt(
    now_ms: u64,
    max_batch: u32,
    more: u32,
    fewer: u32,
    slo: Slo,
    p: Predictions,
)
    requires
        fewer <= more,
    ensures
        !(decision(now_ms, max_batch, more, slo, p) is Delay) ==> decision(
            now_ms,
            max_batch,
            fewer,
            slo,
            p,
        ) == decision(now_ms, max_batch, more, slo, p),
{
}

} // verus!
