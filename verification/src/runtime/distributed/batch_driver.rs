//! Driving several requests through one process, one token per request and step.

use std::collections::HashMap;

use vstd::prelude::*;

use crate::ieee::Ieee32;
use crate::runtime::distributed::generation::{prefill_start, start_position};
use crate::runtime::distributed::pipeline::rows;
use crate::runtime::distributed::sampling::{argmax, argmax_index};
use crate::runtime::error::RuntimeError;
use crate::runtime::types::RequestId;

verus! {

/// A request with its decode state.
#[derive(Debug)]
pub struct ReqState {
    pub order: usize,
    pub prompt: Vec<u32>,
    pub max_new: usize,
    /// The position of the token that is fed next.
    pub position: usize,
    /// The token that is fed next.
    pub next_input: u32,
    pub matched_prefix: usize,
    pub prefill_steps: usize,
    pub generated: Vec<u32>,
}

/// The result of a finished request.
#[derive(Debug)]
pub struct BatchOutput {
    pub order: usize,
    pub request_id: u64,
    pub tokens: Vec<u32>,
    pub prefix_hit_tokens: usize,
    pub prefill_steps: usize,
    pub prompt_len: usize,
}

/// What one step of a request feeds.
#[derive(Debug, Clone, Copy, PartialEq, Eq, Structural)]
pub struct RequestStep {
    pub position: usize,
    pub input: u32,
    /// Whether the position lies past the prompt, so that its page must be grown first.
    pub is_decode: bool,
}

/// What a step of a request came to.
#[derive(Debug, Clone, Copy, PartialEq, Eq, Structural)]
pub enum StepOutcome {
    /// The prompt is not consumed yet; nothing was emitted.
    Prefilling,
    /// A token was emitted, and more are wanted.
    Emitted,
    /// The last token wanted was emitted; the request is finished.
    Finished,
}

/// Whether taking a sampled token leads a request from one state to another, with this
/// outcome: within the prompt the token is dropped, after that it is kept.
pub open spec fn stepped_to(
    before: ReqState,
    next: u32,
    after: ReqState,
    out: StepOutcome,
) -> bool {
    &&& after.position == before.position + 1
    &&& after == (ReqState {
        position: after.position,
        next_input: after.next_input,
        generated: after.generated,
        ..before
    })
    &&& if before.position + 1 < before.prompt@.len() {
        &&& out == StepOutcome::Prefilling
        &&& after.generated@ == before.generated@
    } else {
        &&& after.generated@ == before.generated@.push(next)
        &&& out == if after.generated@.len() >= before.max_new {
            StepOutcome::Finished
        } else {
            StepOutcome::Emitted
        }
    }
}

/// Whether completing a step of a request leads from `before` to `after`, with this outcome: a
/// finished request leaves and its result comes last, any other goes on.
pub open spec fn completed(
    before: BatchDriver,
    id: RequestId,
    next: u32,
    after: BatchDriver,
    res: Result<StepOutcome, RuntimeError>,
) -> bool {
    &&& after.next_order == before.next_order
    &&& !before.state@.contains_key(id.0) ==> {
        &&& res == Err::<StepOutcome, _>(RuntimeError::UnknownRequest(id.0))
        &&& after.state@ == before.state@
        &&& after.outputs@ == before.outputs@
    }
    &&& before.state@.contains_key(id.0) ==> {
        let st = before.state@[id.0];
        let prefilling = st.position + 1 < st.prompt@.len();
        let tokens = st.generated@.push(next);
        &&& res is Ok
        &&& res->Ok_0 == if prefilling {
            StepOutcome::Prefilling
        } else if tokens.len() >= st.max_new {
            StepOutcome::Finished
        } else {
            StepOutcome::Emitted
        }
        &&& if res->Ok_0 == StepOutcome::Finished {
            &&& after.state@ == before.state@.remove(id.0)
            &&& after.outputs@.len() == before.outputs@.len() + 1
            &&& after.outputs@.drop_last() == before.outputs@
            &&& after.outputs@.last().tokens@ == tokens
            &&& after.outputs@.last().order == st.order
            &&& after.outputs@.last().request_id == id.0
            &&& after.outputs@.last().prefix_hit_tokens == st.matched_prefix
            &&& after.outputs@.last().prefill_steps == st.prefill_steps
            &&& after.outputs@.last().prompt_len == st.prompt@.len()
        } else {
            let now = after.state@[id.0];
            &&& after.outputs@ == before.outputs@
            &&& after.state@ == before.state@.insert(id.0, now)
            &&& now.position == st.position + 1
            &&& now.generated@ == if prefilling {
                st.generated@
            } else {
                tokens
            }
            &&& now == (ReqState {
                position: now.position,
                next_input: now.next_input,
                generated: now.generated,
                ..st
            })
        }
    }
}

impl ReqState {
    /// The token fed next is the one that stands at the position in the prompt and the
    /// generated tokens; generation starts when the prompt is consumed. An empty prompt
    /// is fed as a single zero token.
    pub open spec fn wf(&self) -> bool {
        let p = self.prompt@;
        let g = self.generated@;
        if p.len() > 0 {
            &&& self.position < p.len() + g.len()
            &&& g.len() > 0 ==> self.position == p.len() + g.len() - 1
            &&& self.next_input == (p + g)[self.position as int]
        } else {
            &&& self.position == g.len()
            &&& self.next_input == if g.len() == 0 {
                0
            } else {
                g.last()
            }
        }
    }

    /// A request whose first `matched` prompt tokens are cached.
    pub fn begin(order: usize, prompt: Vec<u32>, max_new: usize, matched: usize) -> (res: Self)
        ensures
            res.wf(),
            res.order == order,
            res.prompt@ == prompt@,
            res.max_new == max_new,
            res.position == prefill_start(matched as nat, prompt@.len()),
            res.matched_prefix == matched,
            res.prefill_steps == prompt@.len() - prefill_start(matched as nat, prompt@.len()),
            res.generated@.len() == 0,
    {
        let n: usize = prompt.len();
        let start: usize = start_position(matched, n);
        let next_input: u32 = if start < n {
            prompt[start]
        } else {
            0
        };
        let generated: Vec<u32> = Vec::new();
        assert(prompt@ + generated@ =~= prompt@);
        ReqState {
            order,
            prompt,
            max_new,
            position: start,
            next_input,
            matched_prefix: matched,
            prefill_steps: n - start,
            generated,
        }
    }

    /// What the request's next step feeds.
    pub fn next_step(&self) -> (res: RequestStep)
        ensures
            res == (RequestStep {
                position: self.position,
                input: self.next_input,
                is_decode: self.position >= self.prompt@.len(),
            }),
    {
        RequestStep {
            position: self.position,
            input: self.next_input,
            is_decode: self.position >= self.prompt.len(),
        }
    }

    /// Takes the token sampled after the step. While the prompt is being consumed it is
    /// dropped, and the next prompt token is fed.
    pub fn advance(&mut self, next: u32) -> (res: StepOutcome)
        requires
            old(self).wf(),
            old(self).position < usize::MAX,
        ensures
            final(self).wf(),
            stepped_to(*old(self), next, *final(self), res),
    {
        let in_prefill = self.position + 1 < self.prompt.len();
        self.position = self.position + 1;
        if in_prefill {
            self.next_input = self.prompt[self.position];
            return StepOutcome::Prefilling;
        }
        self.generated.push(next);
        self.next_input = next;
        if self.generated.len() >= self.max_new {
            StepOutcome::Finished
        } else {
            StepOutcome::Emitted
        }
    }
}

/// A request emits one token at a time and is finished at the first step that brings it to
/// the number wanted: it gets exactly that many, or one where none was wanted.
pub proof fn finished_requests_have_their_tokens(
    before: ReqState,
    next: u32,
    after: ReqState,
    out: StepOutcome,
)
    requires
        before.generated@.len() < before.max_new || before.generated@.len() == 0,
        after.generated@ == before.generated@.push(next),
        out == if after.generated@.len() >= before.max_new {
            StepOutcome::Finished
        } else {
            StepOutcome::Emitted
        },
    ensures
        out == StepOutcome::Finished ==> after.generated@.len() == if before.max_new == 0 {
            1
        } else {
            before.max_new as nat
        },
        out == StepOutcome::Emitted ==> after.generated@.len() < before.max_new,
{
}

/// The requests of a driver and the results so far.
#[derive(Debug)]
pub struct BatchDriver {
    pub state: HashMap<u64, ReqState>,
    pub next_order: usize,
    pub outputs: Vec<BatchOutput>,
}

impl BatchDriver {
    pub open spec fn wf(&self) -> bool {
        forall|id: u64|
            #[trigger] self.state@.contains_key(id) ==> self.state@[id].wf()
    }

    pub fn new() -> (res: Self)
        ensures
            res.wf(),
            res.state@ == Map::<u64, ReqState>::empty(),
            res.next_order == 0,
            res.outputs@.len() == 0,
    {
        BatchDriver { state: HashMap::new(), next_order: 0, outputs: Vec::new() }
    }

    /// Takes a request with `matched` of its prompt tokens cached; requests are numbered in
    /// the order of submission.
    pub fn submit(&mut self, id: RequestId, prompt: Vec<u32>, max_new: usize, matched: usize)
        requires
            old(self).wf(),
            old(self).next_order < usize::MAX,
        ensures
            final(self).wf(),
            final(self).next_order == old(self).next_order + 1,
            final(self).outputs == old(self).outputs,
            final(self).state@ == old(self).state@.insert(id.0, final(self).state@[id.0]),
            ({
                let st = final(self).state@[id.0];
                &&& st.order == old(self).next_order
                &&& st.prompt@ == prompt@
                &&& st.max_new == max_new
                &&& st.position == prefill_start(matched as nat, prompt@.len())
                &&& st.matched_prefix == matched
                &&& st.prefill_steps == prompt@.len() - st.position
                &&& st.generated@.len() == 0
            }),
    {
        broadcast use vstd::std_specs::hash::group_hash_axioms;

        let st = ReqState::begin(self.next_order, prompt, max_new, matched);
        self.state.insert(id.0, st);
        self.next_order = self.next_order + 1;
        assert(self.state@ =~= old(self).state@.insert(id.0, st));
    }

    /// What the next step of a request feeds.
    pub fn request_step(&self, id: RequestId) -> (res: Result<RequestStep, RuntimeError>)
        ensures
            res == if self.state@.contains_key(id.0) {
                let st = self.state@[id.0];
                Ok::<_, RuntimeError>(
                    RequestStep {
                        position: st.position,
                        input: st.next_input,
                        is_decode: st.position >= st.prompt@.len(),
                    },
                )
            } else {
                Err(RuntimeError::UnknownRequest(id.0))
            },
    {
        broadcast use vstd::std_specs::hash::group_hash_axioms;

        match self.state.get(&id.0) {
            Some(st) => Ok(st.next_step()),
            None => Err(RuntimeError::UnknownRequest(id.0)),
        }
    }

    /// Takes the token sampled after a request's step. A finished request leaves, and its
    /// result is kept.
    pub fn complete_step(&mut self, id: RequestId, next: u32) -> (res: Result<
        StepOutcome,
        RuntimeError,
    >)
        requires
            old(self).wf(),
            old(self).state@.contains_key(id.0) ==> old(self).state@[id.0].position < usize::MAX,
        ensures
            final(self).wf(),
            completed(*old(self), id, next, *final(self), res),
    {
        broadcast use vstd::std_specs::hash::group_hash_axioms;

        let mut st = match self.state.remove(&id.0) {
            Some(st) => st,
            None => {
                assert(self.state@ =~= old(self).state@);
                return Err(RuntimeError::UnknownRequest(id.0));
            },
        };
        let out = st.advance(next);
        match out {
            StepOutcome::Finished => {
                let prompt_len: usize = st.prompt.len();
                self.outputs.push(
                    BatchOutput {
                        order: st.order,
                        request_id: id.0,
                        tokens: st.generated,
                        prefix_hit_tokens: st.matched_prefix,
                        prefill_steps: st.prefill_steps,
                        prompt_len,
                    },
                );
                assert(self.outputs@.drop_last() =~= old(self).outputs@);
                assert(self.state@ =~= old(self).state@.remove(id.0));
            },
            _ => {
                self.state.insert(id.0, st);
                assert(self.state@ =~= old(self).state@.insert(id.0, st));
            },
        }
        Ok(out)
    }

    /// The results in the order of submission.
    pub fn finish(self) -> (res: Vec<BatchOutput>)
        ensures
            res@.to_multiset() == self.outputs@.to_multiset(),
            forall|i: int, j: int| 0 <= i < j < res@.len() ==> res@[i].order <= res@[j].order,
    {
        let mut left = self.outputs;
        let ghost all = left@;
        let mut out: Vec<BatchOutput> = Vec::new();
        proof {
            broadcast use vstd::seq_lib::group_to_multiset_ensures;

            assert(out@ =~= seq![]);
            assert(all + out@ =~= all);
            vstd::seq_lib::lemma_multiset_commutative(all, out@);
        }
        while left.len() > 0
            invariant
                all.to_multiset() == left@.to_multiset().add(out@.to_multiset()),
                forall|i: int, j: int| 0 <= i < j < out@.len() ==> out@[i].order <= out@[j].order,
            decreases left.len(),
        {
            let ghost before = left@;
            let item = match left.pop() {
                Some(item) => item,
                None => {
                    return out;
                },
            };
            let mut at: usize = out.len();
            while at > 0 && out[at - 1].order > item.order
                invariant
                    at <= out@.len(),
                    forall|j: int| at <= j < out@.len() ==> item.order < (#[trigger] out@[j]).order,
                decreases at,
            {
                at -= 1;
            }
            let ghost placed = out@;
            out.insert(at, item);
            proof {
                broadcast use vstd::seq_lib::group_to_multiset_ensures;

                assert(before =~= left@.push(item));
                assert(out@ =~= placed.insert(at as int, item));
                assert(all.to_multiset() =~= left@.to_multiset().add(out@.to_multiset()));
            }
        }
        proof {
            assert(left@ =~= seq![]);
            assert(left@ + out@ =~= out@);
            vstd::seq_lib::lemma_multiset_commutative(left@, out@);
        }
        out
    }
}

/// Lockstep decode of several prompts cut to their common length.
#[derive(Debug)]
pub struct LockstepDecode {
    pub prompts: Vec<Vec<u32>>,
    /// The length that every prompt is cut to: that of the shortest, at least one.
    pub common: usize,
    pub max_new: usize,
    /// Steps taken so far, which is the position of the next feed.
    pub pos: usize,
    pub cur: Vec<u32>,
    pub generated: Vec<Vec<u32>>,
}

/// Whether `n` is the common length of some prompts.
pub open spec fn common_length(prompts: Seq<Seq<u32>>, n: int) -> bool {
    &&& n >= 1
    &&& forall|r: int| 0 <= r < prompts.len() ==> n <= (#[trigger] prompts[r]).len()
    &&& prompts.len() > 0 ==> exists|r: int|
        0 <= r < prompts.len() && (#[trigger] prompts[r]).len() == n
    &&& prompts.len() == 0 ==> n == 1
}

impl LockstepDecode {
    /// Every row has emitted one token per step since the end of the common length, and is
    /// about to be fed the token that stands at the position in its cut prompt and the
    /// generated tokens.
    pub open spec fn wf(&self) -> bool {
        &&& common_length(rows(self.prompts@), self.common as int)
        &&& self.cur@.len() == self.prompts@.len()
        &&& self.generated@.len() == self.prompts@.len()
        &&& forall|r: int| 0 <= r < self.prompts@.len() ==> #[trigger] self.row_ok(r)
    }

    pub open spec fn row_ok(&self, r: int) -> bool {
        let p = self.prompts@[r]@.take(self.common as int);
        let g = self.generated@[r]@;
        &&& g.len() == if self.pos < self.common {
            0
        } else {
            self.pos - self.common + 1
        }
        &&& self.cur@[r] == (p + g)[self.pos as int]
    }

    pub fn begin(prompts: Vec<Vec<u32>>, max_new: usize) -> (res: Self)
        requires
            forall|r: int| 0 <= r < prompts@.len() ==> (#[trigger] prompts@[r])@.len() > 0,
        ensures
            res.wf(),
            res.prompts == prompts,
            res.max_new == max_new,
            res.pos == 0,
    {
        let ghost views = rows(prompts@);
        let mut common: usize = 1;
        if prompts.len() > 0 {
            common = prompts[0].len();
            assert(views[0] == prompts@[0]@);
        }
        let mut cur: Vec<u32> = Vec::new();
        let mut generated: Vec<Vec<u32>> = Vec::new();
        let mut r: usize = 0;
        while r < prompts.len()
            invariant
                r <= prompts@.len(),
                views == rows(prompts@),
                forall|i: int| 0 <= i < prompts@.len() ==> (#[trigger] prompts@[i])@.len() > 0,
                common >= 1,
                forall|i: int| 0 <= i < r ==> common <= (#[trigger] views[i]).len(),
                prompts@.len() > 0 ==> exists|i: int|
                    0 <= i < views.len() && (#[trigger] views[i]).len() == common,
                prompts@.len() == 0 ==> common == 1,
                cur@.len() == r,
                generated@.len() == r,
                forall|i: int| 0 <= i < r ==> #[trigger] cur@[i] == prompts@[i]@[0],
                forall|i: int| 0 <= i < r ==> (#[trigger] generated@[i])@.len() == 0,
            decreases prompts.len() - r,
        {
            assert(views[r as int] == prompts@[r as int]@);
            let n: usize = prompts[r].len();
            if n < common {
                common = n;
                assert(views[r as int].len() == common);
            }
            cur.push(prompts[r][0]);
            generated.push(Vec::new());
            r += 1;
        }
        assert(views.len() == prompts@.len());
        let d = LockstepDecode { prompts, common, max_new, pos: 0, cur, generated };
        assert forall|i: int| 0 <= i < prompts@.len() implies #[trigger] d.row_ok(i) by {
            assert(views[i] == prompts@[i]@);
            assert(d.cur@[i] == prompts@[i]@[0]);
        }
        d
    }

    /// The number of steps until every row has its tokens.
    pub fn total_steps(&self) -> (res: usize)
        requires
            self.wf(),
            self.common + self.max_new <= usize::MAX,
        ensures
            res == self.common - 1 + self.max_new,
    {
        self.common - 1 + self.max_new
    }

    /// Takes the tokens sampled for all rows at this step.
    pub fn step(&mut self, next: &Vec<u32>)
        requires
            old(self).wf(),
            next@.len() == old(self).prompts@.len(),
            old(self).pos < usize::MAX,
        ensures
            final(self).wf(),
            final(self).prompts == old(self).prompts,
            final(self).common == old(self).common,
            final(self).max_new == old(self).max_new,
            final(self).pos == old(self).pos + 1,
            forall|r: int|
                0 <= r < next@.len() ==> (#[trigger] final(self).generated@[r])@ == if old(self).pos
                    + 1 < old(self).common {
                    old(self).generated@[r]@
                } else {
                    old(self).generated@[r]@.push(next@[r])
                },
    {
        let ghost start = *old(self);
        let n: usize = next.len();
        let mut r: usize = 0;
        while r < n
            invariant
                n == next@.len(),
                n == start.prompts@.len(),
                start.wf(),
                start.pos < usize::MAX,
                r <= n,
                self.prompts == start.prompts,
                self.common == start.common,
                self.max_new == start.max_new,
                self.pos == start.pos,
                self.cur@.len() == n,
                self.generated@.len() == n,
                forall|i: int|
                    0 <= i < r ==> #[trigger] self.cur@[i] == if start.pos + 1 < start.common {
                        start.prompts@[i]@[start.pos + 1]
                    } else {
                        next@[i]
                    },
                forall|i: int|
                    0 <= i < r ==> (#[trigger] self.generated@[i])@ == if start.pos + 1
                        < start.common {
                        start.generated@[i]@
                    } else {
                        start.generated@[i]@.push(next@[i])
                    },
                forall|i: int|
                    r <= i < n ==> #[trigger] self.generated@[i] == start.generated@[i],
            decreases n - r,
        {
            assert(rows(start.prompts@)[r as int] == start.prompts@[r as int]@);
            assert(start.common <= rows(start.prompts@)[r as int].len());
            assert(self.generated@[r as int] == start.generated@[r as int]);
            if self.pos < self.common - 1 {
                let t: u32 = self.prompts[r][self.pos + 1];
                self.cur.set(r, t);
            } else {
                self.generated[r].push(next[r]);
                self.cur.set(r, next[r]);
            }
            r += 1;
        }
        self.pos = self.pos + 1;
        assert forall|i: int| 0 <= i < n implies #[trigger] self.row_ok(i) by {
            assert(start.row_ok(i));
            assert(rows(start.prompts@)[i] == start.prompts@[i]@);
            assert(start.common <= rows(start.prompts@)[i].len());
            assert(start.prompts@[i]@.take(start.common as int).len() == start.common);
            assert(self.generated@[i]@ == if start.pos + 1 < start.common {
                start.generated@[i]@
            } else {
                start.generated@[i]@.push(next@[i])
            });
            assert(self.cur@[i] == if start.pos + 1 < start.common {
                start.prompts@[i]@[start.pos + 1]
            } else {
                next@[i]
            });
        }
    }
}

/// After the total number of steps every row has exactly the tokens wanted.
pub proof fn lockstep_rows_get_their_tokens(d: LockstepDecode, r: int)
    requires
        d.wf(),
        0 <= r < d.prompts@.len(),
        d.pos == d.common - 1 + d.max_new,
    ensures
        d.generated@[r]@.len() == d.max_new,
{
    assert(d.row_ok(r));
}

/// The greatest of the first `vocab` logits, the last one where several are equal.
pub fn argmax_within(values: &[Ieee32], vocab: usize) -> (res: u32)
    ensures
        ({
            let bound = if vocab == 0 {
                1
            } else {
                vocab as int
            };
            let n = if values@.len() < bound {
                values@.len() as int
            } else {
                bound
            };
            res == (argmax_index(values@.take(n)) as usize) as u32
        }),
{
    let bound: usize = if vocab == 0 {
        1
    } else {
        vocab
    };
    if values.len() <= bound {
        assert(values@.take(values@.len() as int) =~= values@);
        argmax(values)
    } else {
        let head = vstd::slice::slice_subrange(values, 0, bound);
        assert(head@ =~= values@.take(bound as int));
        argmax(head)
    }
}

/// What a driver did so far.
#[derive(Debug, Clone, Copy, PartialEq, Eq, Structural)]
pub struct StepCounters {
    pub batch_steps: u64,
    pub forward_steps: u64,
    pub prefill_forward_steps: u64,
    pub decode_forward_steps: u64,
    pub max_concurrent_inflight: usize,
    /// Steps with both prefilling and decoding requests.
    pub mixed_batch_steps: u64,
}

impl StepCounters {
    pub fn new() -> (res: Self)
        ensures
            res == (StepCounters {
                batch_steps: 0,
                forward_steps: 0,
                prefill_forward_steps: 0,
                decode_forward_steps: 0,
                max_concurrent_inflight: 0,
                mixed_batch_steps: 0,
            }),
    {
        StepCounters {
            batch_steps: 0,
            forward_steps: 0,
            prefill_forward_steps: 0,
            decode_forward_steps: 0,
            max_concurrent_inflight: 0,
            mixed_batch_steps: 0,
        }
    }

    /// Counts a step of this many prefilling and decoding requests.
    pub fn note_batch(&mut self, prefilling: usize, decoding: usize)
        requires
            prefilling + decoding <= usize::MAX,
            old(self).batch_steps < u64::MAX,
            old(self).mixed_batch_steps < u64::MAX,
        ensures
            *final(self) == (StepCounters {
                batch_steps: (old(self).batch_steps + 1) as u64,
                max_concurrent_inflight: if prefilling + decoding > old(
                    self,
                ).max_concurrent_inflight {
                    (prefilling + decoding) as usize
                } else {
                    old(self).max_concurrent_inflight
                },
                mixed_batch_steps: if prefilling > 0 && decoding > 0 {
                    (old(self).mixed_batch_steps + 1) as u64
                } else {
                    old(self).mixed_batch_steps
                },
                ..*old(self)
            }),
    {
        if prefilling + decoding > self.max_concurrent_inflight {
            self.max_concurrent_inflight = prefilling + decoding;
        }
        self.batch_steps += 1;
        if prefilling > 0 && decoding > 0 {
            self.mixed_batch_steps += 1;
        }
    }

    /// Counts a forward of one request.
    pub fn note_forward(&mut self, is_decode: bool)
        requires
            old(self).forward_steps < u64::MAX,
            old(self).prefill_forward_steps < u64::MAX,
            old(self).decode_forward_steps < u64::MAX,
        ensures
            *final(self) == (StepCounters {
                forward_steps: (old(self).forward_steps + 1) as u64,
                prefill_forward_steps: if is_decode {
                    old(self).prefill_forward_steps
                } else {
                    (old(self).prefill_forward_steps + 1) as u64
                },
                decode_forward_steps: if is_decode {
                    (old(self).decode_forward_steps + 1) as u64
                } else {
                    old(self).decode_forward_steps
                },
                ..*old(self)
            }),
    {
        self.forward_steps += 1;
        if is_decode {
            self.decode_forward_steps += 1;
        } else {
            self.prefill_forward_steps += 1;
        }
    }
}

/// Greedy choice within the vocabulary: the token is an entry of it, and no logit of an entry
/// is greater than the token's.
pub proof fn choices_stay_in_the_vocabulary(values: &[Ieee32], vocab: usize, token: u32, j: int)
    requires
        call_ensures(argmax_within, (values, vocab), token),
        0 < vocab <= u32::MAX,
        0 <= j < values@.len(),
        j < vocab,
        forall|i: int| 0 <= i < values@.len() ==> !(#[trigger] values@[i]).nan(),
    ensures
        token < vocab,
        token < values@.len(),
        !values@[j].above(values@[token as int]),
{
    let n = if values@.len() < vocab {
        values@.len() as int
    } else {
        vocab as int
    };
    let part = values@.take(n);
    assert forall|i: int| 0 <= i < part.len() implies !(#[trigger] part[i]).nan() by {
        assert(part[i] == values@[i]);
    }
    crate::runtime::distributed::sampling::argmax_is_the_last_maximum(part, j);
}

/// A request is fed its own sequence: a prompt token while the prompt lasts, the newest
/// generated token after that.
pub proof fn requests_are_fed_their_own_sequence(st: ReqState)
    requires
        st.wf(),
        st.prompt@.len() > 0,
    ensures
        st.position < st.prompt@.len() ==> st.generated@.len() == 0 && st.next_input
            == st.prompt@[st.position as int],
        st.position >= st.prompt@.len() ==> st.generated@.len() == st.position - st.prompt@.len()
            + 1 && st.next_input == st.generated@.last(),
{
}

/// A request's result is what it generated. It is done at the step that gives it the last token
/// it asked for, and not before; its result holds every token, its own place in the order of
/// submission and its own id; until then it stays, one position further. Nobody else is
/// touched, and no earlier result.
pub proof fn results_hold_every_token(
    before: BatchDriver,
    id: RequestId,
    next: u32,
    after: BatchDriver,
    res: Result<StepOutcome, RuntimeError>,
    other: u64,
    k: int,
)
    requires
        completed(before, id, next, after, res),
        before.state@.contains_key(id.0),
    ensures
        ({
            let st = before.state@[id.0];
            let in_prompt = st.position + 1 < st.prompt@.len();
            let done = !in_prompt && st.generated@.len() + 1 >= st.max_new;
            &&& res is Ok
            &&& after.state@.contains_key(id.0) <==> !done
            &&& after.outputs@.len() == before.outputs@.len() + if done {
                1int
            } else {
                0int
            }
            &&& 0 <= k < before.outputs@.len() ==> after.outputs@[k] == before.outputs@[k]
            &&& other != id.0 ==> (after.state@.contains_key(other)
                <==> before.state@.contains_key(other)) && (before.state@.contains_key(other)
                ==> after.state@[other] == before.state@[other])
            &&& done ==> {
                let o = after.outputs@[before.outputs@.len() as int];
                &&& o.tokens@ == st.generated@ + seq![next]
                &&& o.order == st.order
                &&& o.request_id == id.0
                &&& o.prompt_len == st.prompt@.len()
            }
            &&& !done ==> {
                let now = after.state@[id.0];
                &&& now.position == st.position + 1
                &&& now.prompt == st.prompt
                &&& now.order == st.order
                &&& now.max_new == st.max_new
                &&& in_prompt ==> now.generated@ == st.generated@
                &&& !in_prompt ==> now.generated@ == st.generated@ + seq![next]
            }
        }),
{
    let st = before.state@[id.0];
    assert(st.generated@.push(next) =~= st.generated@ + seq![next]);
    if res->Ok_0 == StepOutcome::Finished {
        assert(after.outputs@.last() == after.outputs@[before.outputs@.len() as int]);
        if 0 <= k < before.outputs@.len() {
            assert(after.outputs@.drop_last()[k] == after.outputs@[k]);
        }
    }
}

/// A sampled token is dropped while the prompt is being consumed, and appended after that; the
/// request is finished at the first step that gives it as many tokens as it asked for, or
/// one where it asked for none.
pub proof fn sampled_tokens_are_dropped_or_kept(
    before: ReqState,
    next: u32,
    after: ReqState,
    out: StepOutcome,
)
    requires
        before.generated@.len() < before.max_new || before.generated@.len() == 0,
        stepped_to(before, next, after, out),
    ensures
        after.prompt == before.prompt,
        after.position == before.position + 1,
        out == StepOutcome::Prefilling <==> before.position + 1 < before.prompt@.len(),
        out == StepOutcome::Prefilling ==> after.generated@ == before.generated@,
        out != StepOutcome::Prefilling ==> after.generated@ == before.generated@ + seq![next],
        out == StepOutcome::Finished ==> after.generated@.len() == if before.max_new == 0 {
            1
        } else {
            before.max_new as nat
        },
        out == StepOutcome::Emitted ==> after.generated@.len() < before.max_new,
{
    assert(before.generated@.push(next) =~= before.generated@ + seq![next]);
}

/// A lockstep batch takes just as many steps as it says: then every row has its tokens, and one
/// step earlier, where tokens are wanted at all, one less.
pub proof fn lockstep_batches_take_as_many_steps_as_they_say(d: LockstepDecode, n: usize, r: int)
    requires
        d.wf(),
        call_ensures(LockstepDecode::total_steps, (&d,), n),
        0 <= r < d.prompts@.len(),
    ensures
        d.pos == n ==> d.generated@[r]@.len() == d.max_new,
        d.pos == n - 1 && d.max_new > 0 ==> d.generated@[r]@.len() == d.max_new - 1,
{
    assert(d.row_ok(r));
}

} // verus!
