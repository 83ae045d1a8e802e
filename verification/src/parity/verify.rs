//! Whether a compiled artifact computes what its reference does.

use vstd::prelude::*;
use vstd::utf8::encode_utf8;

use crate::ieee::{Ieee32, Ieee64};
use crate::ir::canonical::{plan_json, writes_as};
use crate::ir::graph::Graph;
use crate::ir::hash::{blake3_digest, hex_text};
use crate::ir::plan::Plan;
use crate::ir::workload::Workload;
use crate::parity::comparison::{compared, kl_divergence, mse};
use crate::parity::error::ParityError;
use crate::parity::reference::ReferenceOutput;
use crate::parity::report::{ParityReport, PerPromptReport};
use crate::parity::tolerance::ToleranceTable;
use crate::parity::verdict::{
    final_kls, judge, no_less_bad, same_measurements, same_measurements_same_verdict, verdict,
};
use crate::runtime::distributed::generation::{byte_prompt, bytes_modulo};
use crate::runtime::distributed::pipeline::rows;

verus! {

/// Output of one forward pass of a compiled artifact.
#[derive(Debug, Clone, PartialEq)]
pub struct SkeinOutput {
    pub per_layer_activations: Vec<Vec<Ieee32>>,
    pub final_logits: Vec<Ieee32>,
}

/// The reference. What it answers is its own business.
pub trait HFReference {
    fn forward_with_hooks(&self, tokens: &Vec<u32>) -> Result<ReferenceOutput, ParityError>;

    /// Runs a batch of prompts: one by one, up to the first that is refused, unless the
    /// reference has a better way.
    fn forward_batch_with_hooks(&self, prompts: &Vec<Vec<u32>>) -> (res: Result<
        Vec<ReferenceOutput>,
        ParityError,
    >)
        default_ensures
            match res {
                Ok(outputs) => {
                    &&& outputs@.len() == prompts@.len()
                    &&& forall|i: int|
                        0 <= i < outputs@.len() ==> call_ensures(
                            Self::forward_with_hooks,
                            (self, &prompts@[i]),
                            Ok(#[trigger] outputs@[i]),
                        )
                },
                Err(e) => exists|given: Seq<ReferenceOutput>|
                    {
                        &&& given.len() < prompts@.len()
                        &&& forall|i: int|
                            0 <= i < given.len() ==> call_ensures(
                                Self::forward_with_hooks,
                                (self, &prompts@[i]),
                                Ok(#[trigger] given[i]),
                            )
                        &&& #[trigger] call_ensures(
                            Self::forward_with_hooks,
                            (self, &prompts@[given.len() as int]),
                            Err(e),
                        )
                    },
            },
    {
        let mut outputs: Vec<ReferenceOutput> = Vec::new();
        let mut i: usize = 0;
        while i < prompts.len()
            invariant
                i <= prompts@.len(),
                outputs@.len() == i,
                forall|k: int|
                    0 <= k < i ==> call_ensures(
                        Self::forward_with_hooks,
                        (self, &prompts@[k]),
                        Ok(#[trigger] outputs@[k]),
                    ),
            decreases prompts.len() - i,
        {
            match self.forward_with_hooks(&prompts[i]) {
                Ok(output) => {
                    outputs.push(output);
                },
                Err(e) => {
                    assert(call_ensures(
                        Self::forward_with_hooks,
                        (self, &prompts@[outputs@.len() as int]),
                        Err(e),
                    ));
                    return Err(e);
                },
            }
            i += 1;
        }
        Ok(outputs)
    }

    fn tokenize(&self, prompt: &str) -> Result<Vec<u32>, ParityError>;
}

/// A compiled artifact that can be run.
pub trait SkeinForward: Sized {
    /// Whether the artifact may answer some tokens so, going from one state to another. An
    /// artifact that says nothing else may answer anything.
    open spec fn answers(
        before: Self,
        tokens: Seq<u32>,
        after: Self,
        res: Result<SkeinOutput, ParityError>,
    ) -> bool {
        true
    }

    fn forward_with_hooks(&mut self, tokens: &Vec<u32>) -> (res: Result<SkeinOutput, ParityError>)
        ensures
            Self::answers(*old(self), tokens@, *final(self), res),
    ;
}

/// The arithmetic that a comparison needs.
pub struct ParityMath<M, K, A, T> {
    /// The mean squared error of two tensors of the same length.
    pub mean_square: M,
    /// The divergence of two distributions over the same tokens.
    pub divergence: K,
    /// The mean of some numbers.
    pub mean: A,
    /// How a number is written in JSON.
    pub write: T,
}

/// Tokenizes a text by its bytes, modulo the vocabulary; an empty text is one zero token.
pub fn tokenize_prompt_bytes(prompt: &str, vocab: u32) -> (res: Vec<u32>)
    ensures
        res@ == if encode_utf8(prompt@).len() == 0 {
            seq![0u32]
        } else {
            bytes_modulo(encode_utf8(prompt@), vocab)
        },
{
    let mut out = byte_prompt(prompt, vocab);
    if out.len() == 0 {
        out.push(0);
        assert(out@ =~= seq![0u32]);
    }
    out
}

/// Whether two outputs can be compared block by block: one activation per block on both
/// sides, of the same lengths, and as many logits.
pub open spec fn comparable(r: ReferenceOutput, s: SkeinOutput, num_blocks: int) -> bool {
    &&& r.per_layer_activations@.len() == num_blocks
    &&& s.per_layer_activations@.len() == num_blocks
    &&& forall|l: int|
        0 <= l < num_blocks ==> (#[trigger] r.per_layer_activations@[l])@.len()
            == s.per_layer_activations@[l]@.len()
    &&& r.final_logits@.len() == s.final_logits@.len()
}

/// Whether the error is the one owed to outputs that cannot be compared: the reference's
/// block count, the artifact's, the first block that differs in length, the logits.
pub open spec fn comparison_error(
    r: ReferenceOutput,
    s: SkeinOutput,
    num_blocks: int,
    e: ParityError,
) -> bool {
    if r.per_layer_activations@.len() != num_blocks {
        e == ParityError::ShapeMismatch {
            expected: num_blocks as usize,
            got: r.per_layer_activations.len(),
        }
    } else if s.per_layer_activations@.len() != num_blocks {
        e == ParityError::ShapeMismatch {
            expected: num_blocks as usize,
            got: s.per_layer_activations.len(),
        }
    } else {
        ||| exists|l: int|
            {
                &&& 0 <= l < num_blocks
                &&& (#[trigger] r.per_layer_activations@[l])@.len()
                    != s.per_layer_activations@[l]@.len()
                &&& forall|k: int|
                    0 <= k < l ==> (#[trigger] r.per_layer_activations@[k])@.len()
                        == s.per_layer_activations@[k]@.len()
                &&& e == ParityError::ShapeMismatch {
                    expected: r.per_layer_activations@[l].len(),
                    got: s.per_layer_activations@[l].len(),
                }
            }
        ||| {
            &&& forall|k: int|
                0 <= k < num_blocks ==> (#[trigger] r.per_layer_activations@[k])@.len()
                    == s.per_layer_activations@[k]@.len()
            &&& e == ParityError::ShapeMismatch {
                expected: r.final_logits.len(),
                got: s.final_logits.len(),
            }
        }
    }
}

/// Whether a report holds the measurements of two outputs.
pub open spec fn measures<
    M: Fn(&Vec<Ieee32>, &Vec<Ieee32>) -> Ieee64,
    K: Fn(&Vec<Ieee32>, &Vec<Ieee32>) -> Ieee64,
>(
    mean_square: M,
    divergence: K,
    r: ReferenceOutput,
    s: SkeinOutput,
    num_blocks: int,
    p: PerPromptReport,
) -> bool {
    &&& comparable(r, s, num_blocks)
    &&& p.per_layer_mse@.len() == num_blocks
    &&& forall|l: int|
        0 <= l < num_blocks ==> compared(
            mean_square,
            r.per_layer_activations@[l],
            s.per_layer_activations@[l],
            Ok(#[trigger] p.per_layer_mse@[l]),
        )
    &&& compared(divergence, r.final_logits, s.final_logits, Ok(p.final_kl))
}

/// Measures how far an artifact's output is from the reference's.
pub fn compare_outputs<
    M: Fn(&Vec<Ieee32>, &Vec<Ieee32>) -> Ieee64,
    K: Fn(&Vec<Ieee32>, &Vec<Ieee32>) -> Ieee64,
>(
    prompt_idx: usize,
    reference: &ReferenceOutput,
    skein: &SkeinOutput,
    num_blocks: usize,
    mean_square: &M,
    divergence: &K,
) -> (res: Result<PerPromptReport, ParityError>)
    requires
        forall|x: &Vec<Ieee32>, y: &Vec<Ieee32>| call_requires(*mean_square, (x, y)),
        forall|x: &Vec<Ieee32>, y: &Vec<Ieee32>| call_requires(*divergence, (x, y)),
    ensures
        res is Ok <==> comparable(*reference, *skein, num_blocks as int),
        res is Ok ==> res->Ok_0.prompt_idx == prompt_idx && measures(
            *mean_square,
            *divergence,
            *reference,
            *skein,
            num_blocks as int,
            res->Ok_0,
        ),
        res is Err ==> comparison_error(*reference, *skein, num_blocks as int, res->Err_0),
{
    if reference.per_layer_activations.len() != num_blocks {
        return Err(
            ParityError::ShapeMismatch {
                expected: num_blocks,
                got: reference.per_layer_activations.len(),
            },
        );
    }
    if skein.per_layer_activations.len() != num_blocks {
        return Err(
            ParityError::ShapeMismatch {
                expected: num_blocks,
                got: skein.per_layer_activations.len(),
            },
        );
    }
    let mut per_layer_mse: Vec<Ieee64> = Vec::new();
    let mut l: usize = 0;
    while l < num_blocks
        invariant
            l <= num_blocks,
            reference.per_layer_activations@.len() == num_blocks,
            skein.per_layer_activations@.len() == num_blocks,
            forall|x: &Vec<Ieee32>, y: &Vec<Ieee32>| call_requires(*mean_square, (x, y)),
            per_layer_mse@.len() == l,
            forall|k: int|
                0 <= k < l ==> (#[trigger] reference.per_layer_activations@[k])@.len()
                    == skein.per_layer_activations@[k]@.len(),
            forall|k: int|
                0 <= k < l ==> compared(
                    *mean_square,
                    reference.per_layer_activations@[k],
                    skein.per_layer_activations@[k],
                    Ok(#[trigger] per_layer_mse@[k]),
                ),
        decreases num_blocks - l,
    {
        match mse(
            &reference.per_layer_activations[l],
            &skein.per_layer_activations[l],
            mean_square,
        ) {
            Ok(m) => {
                per_layer_mse.push(m);
            },
            Err(e) => {
                assert(reference.per_layer_activations@[l as int]@.len()
                    != skein.per_layer_activations@[l as int]@.len());
                return Err(e);
            },
        }
        l += 1;
    }
    match kl_divergence(&reference.final_logits, &skein.final_logits, divergence) {
        Ok(final_kl) => Ok(PerPromptReport { prompt_idx, per_layer_mse, final_kl }),
        Err(e) => Err(e),
    }
}

/// Whether the mean of a report's divergences is what the arithmetic gave.
pub open spec fn mean_of<A: Fn(&Vec<Ieee64>) -> Ieee64>(mean: A, report: ParityReport) -> bool {
    exists|kls: Vec<Ieee64>|
        kls@ == final_kls(report.per_prompt@) && #[trigger] call_ensures(
            mean,
            (&kls,),
            report.avg_final_kl,
        )
}

/// Whether a report carries the plan's content hash.
pub open spec fn hashed<T: Fn(Ieee32) -> String>(write: T, plan: Plan, report: ParityReport) -> bool {
    forall|text: spec_fn(Ieee32) -> Seq<char>| #[trigger]
        writes_as(write, text) ==> report.plan_hash@ == hex_text(
            blake3_digest(encode_utf8(plan_json(plan, text, seq![]))),
        )
}

fn conclude<A: Fn(&Vec<Ieee64>) -> Ieee64, T: Fn(Ieee32) -> String>(
    per_prompt: Vec<PerPromptReport>,
    plan: &Plan,
    workload: &Workload,
    tolerances: &ToleranceTable,
    num_blocks: usize,
    model: String,
    mean: &A,
    write: &T,
) -> (res: ParityReport)
    requires
        forall|p: int|
            0 <= p < per_prompt@.len() ==> (#[trigger] per_prompt@[p]).per_layer_mse@.len()
                == num_blocks,
        forall|v: &Vec<Ieee64>| call_requires(*mean, (v,)),
        forall|x: Ieee32| call_requires(*write, (x,)),
    ensures
        verdict(
            res,
            plan.dtype_map.per_layer@,
            *tolerances,
            num_blocks as int,
            workload.slo.max_accuracy_drift,
        ),
        res.per_prompt == per_prompt,
        res.model == model,
        mean_of(*mean, res),
        hashed(*write, *plan, res),
{
    let mut kls: Vec<Ieee64> = Vec::new();
    let mut i: usize = 0;
    while i < per_prompt.len()
        invariant
            i <= per_prompt@.len(),
            kls@ == final_kls(per_prompt@).take(i as int),
        decreases per_prompt.len() - i,
    {
        kls.push(per_prompt[i].final_kl);
        i += 1;
        assert(kls@ =~= final_kls(per_prompt@).take(i as int));
    }
    assert(kls@ =~= final_kls(per_prompt@));
    let avg = (*mean)(&kls);
    let hash = plan.content_hash(write).to_hex();
    judge(
        per_prompt,
        avg,
        workload.slo.max_accuracy_drift,
        plan,
        tolerances,
        num_blocks,
        hash,
        model,
    )
}

/// Whether the reference may tokenize a prompt so.
pub open spec fn tokenizes<R: HFReference>(
    reference: &R,
    prompt: String,
    res: Result<Vec<u32>, ParityError>,
) -> bool {
    exists|text: &str|
        text@ == prompt@ && #[trigger] call_ensures(R::tokenize, (reference, text), res)
}

/// Whether the reference may tokenize a prompt at all.
pub open spec fn was_tokenized<R: HFReference>(reference: &R, prompt: String) -> bool {
    exists|tokens: Vec<u32>| #[trigger] tokenizes(reference, prompt, Ok(tokens))
}

/// Whether the reference may tokenize the prompts so: all of them, or up to the first it
/// refuses.
pub open spec fn tokenizes_all<R: HFReference>(
    reference: &R,
    prompts: Seq<String>,
    res: Result<Vec<Vec<u32>>, ParityError>,
) -> bool {
    match res {
        Ok(tokens) => {
            &&& tokens@.len() == prompts.len()
            &&& forall|i: int|
                0 <= i < prompts.len() ==> tokenizes(
                    reference,
                    #[trigger] prompts[i],
                    Ok(tokens@[i]),
                )
        },
        Err(e) => exists|k: int|
            {
                &&& 0 <= k < prompts.len()
                &&& tokenizes(reference, #[trigger] prompts[k], Err(e))
                &&& forall|i: int|
                    0 <= i < k ==> was_tokenized(reference, #[trigger] prompts[i])
            },
    }
}

fn tokenize_all<R: HFReference>(reference: &R, prompts: &Vec<String>) -> (res: Result<
    Vec<Vec<u32>>,
    ParityError,
>)
    ensures
        tokenizes_all(reference, prompts@, res),
{
    let mut tokenized: Vec<Vec<u32>> = Vec::new();
    let mut i: usize = 0;
    while i < prompts.len()
        invariant
            i <= prompts@.len(),
            tokenized@.len() == i,
            forall|k: int|
                0 <= k < i ==> tokenizes(reference, #[trigger] prompts@[k], Ok(tokenized@[k])),
        decreases prompts.len() - i,
    {
        let answer = reference.tokenize(prompts[i].as_str());
        assert(tokenizes(reference, prompts@[i as int], answer));
        match answer {
            Ok(tokens) => {
                tokenized.push(tokens);
            },
            Err(e) => {
                return Err(e);
            },
        }
        i += 1;
    }
    Ok(tokenized)
}

/// Whether an artifact may give these outputs on the first prompts, passing through these
/// states.
pub open spec fn run_of<S: SkeinForward>(
    states: Seq<S>,
    prompts: Seq<Vec<u32>>,
    outputs: Seq<SkeinOutput>,
) -> bool {
    &&& states.len() == outputs.len() + 1
    &&& outputs.len() <= prompts.len()
    &&& forall|i: int|
        0 <= i < outputs.len() ==> S::answers(
            states[i],
            prompts[i]@,
            states[i + 1],
            Ok(#[trigger] outputs[i]),
        )
}

/// Whether the reports are the measurements of the outputs, in order.
pub open spec fn measured<
    M: Fn(&Vec<Ieee32>, &Vec<Ieee32>) -> Ieee64,
    K: Fn(&Vec<Ieee32>, &Vec<Ieee32>) -> Ieee64,
>(
    mean_square: M,
    divergence: K,
    references: Seq<ReferenceOutput>,
    outputs: Seq<SkeinOutput>,
    num_blocks: int,
    reports: Seq<PerPromptReport>,
) -> bool {
    &&& reports.len() == outputs.len()
    &&& references.len() >= outputs.len()
    &&& forall|i: int|
        0 <= i < reports.len() ==> (#[trigger] reports[i]).prompt_idx == i && measures(
            mean_square,
            divergence,
            references[i],
            outputs[i],
            num_blocks,
            reports[i],
        )
}

/// Whether the error is the one owed after the first `k` prompts went well: the reference has
/// no output for the next one, the artifact refuses it, or the two outputs cannot be
/// compared.
pub open spec fn stops<S: SkeinForward>(
    references: Seq<ReferenceOutput>,
    before: S,
    prompts: Seq<Vec<u32>>,
    after: S,
    k: int,
    num_blocks: int,
    e: ParityError,
) -> bool {
    if k >= references.len() {
        &&& e == ParityError::ShapeMismatch {
            expected: prompts.len() as usize,
            got: references.len() as usize,
        }
        &&& after == before
    } else {
        ||| S::answers(before, prompts[k]@, after, Err(e))
        ||| exists|o: SkeinOutput|
            {
                &&& #[trigger] S::answers(before, prompts[k]@, after, Ok(o))
                &&& !comparable(references[k], o, num_blocks)
                &&& comparison_error(references[k], o, num_blocks, e)
            }
    }
}

/// Whether a run gave the result: it went well on the prompts that it has outputs for, and
/// either these are all, or the next one stopped it.
pub open spec fn explains<
    S: SkeinForward,
    M: Fn(&Vec<Ieee32>, &Vec<Ieee32>) -> Ieee64,
    K: Fn(&Vec<Ieee32>, &Vec<Ieee32>) -> Ieee64,
>(
    mean_square: M,
    divergence: K,
    references: Seq<ReferenceOutput>,
    states: Seq<S>,
    outputs: Seq<SkeinOutput>,
    reports: Seq<PerPromptReport>,
    prompts: Seq<Vec<u32>>,
    before: S,
    after: S,
    num_blocks: int,
    res: Result<Seq<PerPromptReport>, ParityError>,
) -> bool {
    &&& run_of(states, prompts, outputs)
    &&& states[0] == before
    &&& measured(mean_square, divergence, references, outputs, num_blocks, reports)
    &&& match res {
        Ok(r) => r == reports && outputs.len() == prompts.len() && states.last() == after,
        Err(e) => outputs.len() < prompts.len() && stops(
            references,
            states.last(),
            prompts,
            after,
            outputs.len() as int,
            num_blocks,
            e,
        ),
    }
}

/// Whether comparing an artifact with the reference's outputs, prompt by prompt, may give the
/// result and leave the artifact in the state `after`.
pub open spec fn comparison_of<
    S: SkeinForward,
    M: Fn(&Vec<Ieee32>, &Vec<Ieee32>) -> Ieee64,
    K: Fn(&Vec<Ieee32>, &Vec<Ieee32>) -> Ieee64,
>(
    mean_square: M,
    divergence: K,
    references: Seq<ReferenceOutput>,
    prompts: Seq<Vec<u32>>,
    before: S,
    after: S,
    num_blocks: int,
    res: Result<Seq<PerPromptReport>, ParityError>,
) -> bool {
    exists|states: Seq<S>, outputs: Seq<SkeinOutput>, reports: Seq<PerPromptReport>| #[trigger]
        explains(
            mean_square,
            divergence,
            references,
            states,
            outputs,
            reports,
            prompts,
            before,
            after,
            num_blocks,
            res,
        )
}

/// A list as its contents, an error as itself.
pub open spec fn contents(res: Result<Vec<PerPromptReport>, ParityError>) -> Result<
    Seq<PerPromptReport>,
    ParityError,
> {
    match res {
        Ok(v) => Ok(v@),
        Err(e) => Err(e),
    }
}

/// Runs an artifact on the prompts and measures each output against the reference's.
pub fn compare_all<
    S: SkeinForward,
    M: Fn(&Vec<Ieee32>, &Vec<Ieee32>) -> Ieee64,
    K: Fn(&Vec<Ieee32>, &Vec<Ieee32>) -> Ieee64,
>(
    references: &Vec<ReferenceOutput>,
    skein: &mut S,
    prompts: &Vec<Vec<u32>>,
    num_blocks: usize,
    mean_square: &M,
    divergence: &K,
) -> (res: Result<Vec<PerPromptReport>, ParityError>)
    requires
        forall|x: &Vec<Ieee32>, y: &Vec<Ieee32>| call_requires(*mean_square, (x, y)),
        forall|x: &Vec<Ieee32>, y: &Vec<Ieee32>| call_requires(*divergence, (x, y)),
    ensures
        comparison_of(
            *mean_square,
            *divergence,
            references@,
            prompts@,
            *old(skein),
            *final(skein),
            num_blocks as int,
            contents(res),
        ),
{
    let ghost before = *skein;
    let ghost mut states: Seq<S> = seq![*skein];
    let ghost mut outputs: Seq<SkeinOutput> = seq![];
    let mut per_prompt: Vec<PerPromptReport> = Vec::new();
    let n: usize = references.len();
    let total: usize = prompts.len();
    let mut i: usize = 0;
    while i < total
        invariant
            i <= total,
            n == references@.len(),
            total == prompts@.len(),
            outputs.len() == i,
            states[0] == before,
            before == *old(skein),
            states.last() == *skein,
            forall|x: &Vec<Ieee32>, y: &Vec<Ieee32>| call_requires(*mean_square, (x, y)),
            forall|x: &Vec<Ieee32>, y: &Vec<Ieee32>| call_requires(*divergence, (x, y)),
            run_of(states, prompts@, outputs),
            measured(
                *mean_square,
                *divergence,
                references@,
                outputs,
                num_blocks as int,
                per_prompt@,
            ),
        decreases total - i,
    {
        if i >= n {
            let e = ParityError::ShapeMismatch { expected: total, got: n };
            assert(explains(
                *mean_square,
                *divergence,
                references@,
                states,
                outputs,
                per_prompt@,
                prompts@,
                before,
                *skein,
                num_blocks as int,
                Err(e),
            ));
            return Err(e);
        }
        let ghost was = *skein;
        let answer = skein.forward_with_hooks(&prompts[i]);
        match answer {
            Ok(output) => {
                match compare_outputs(
                    i,
                    &references[i],
                    &output,
                    num_blocks,
                    mean_square,
                    divergence,
                ) {
                    Ok(report) => {
                        per_prompt.push(report);
                        proof {
                            outputs = outputs.push(output);
                            states = states.push(*skein);
                        }
                    },
                    Err(e) => {
                        assert(explains(
                            *mean_square,
                            *divergence,
                            references@,
                            states,
                            outputs,
                            per_prompt@,
                            prompts@,
                            before,
                            *skein,
                            num_blocks as int,
                            Err(e),
                        ));
                        return Err(e);
                    },
                }
            },
            Err(e) => {
                assert(explains(
                    *mean_square,
                    *divergence,
                    references@,
                    states,
                    outputs,
                    per_prompt@,
                    prompts@,
                    before,
                    *skein,
                    num_blocks as int,
                    Err(e),
                ));
                return Err(e);
            },
        }
        i += 1;
    }
    assert(explains(
        *mean_square,
        *divergence,
        references@,
        states,
        outputs,
        per_prompt@,
        prompts@,
        before,
        *skein,
        num_blocks as int,
        Ok(per_prompt@),
    ));
    Ok(per_prompt)
}

/// Whether a report concludes a comparison: its verdict, its mean, the plan's hash and the
/// model's name.
pub open spec fn concludes<A: Fn(&Vec<Ieee64>) -> Ieee64, T: Fn(Ieee32) -> String>(
    mean: A,
    write: T,
    report: ParityReport,
    plan: Plan,
    workload: Workload,
    t: ToleranceTable,
    num_blocks: int,
    model: Seq<char>,
) -> bool {
    &&& verdict(
        report,
        plan.dtype_map.per_layer@,
        t,
        num_blocks,
        workload.slo.max_accuracy_drift,
    )
    &&& report.model@ == model
    &&& mean_of(mean, report)
    &&& hashed(write, plan, report)
}

/// Whether comparing on tokenized prompts may end so: the reference runs them as a batch,
/// then the artifact is compared with what came back.
pub open spec fn gate_of<
    R: HFReference,
    S: SkeinForward,
    M: Fn(&Vec<Ieee32>, &Vec<Ieee32>) -> Ieee64,
    K: Fn(&Vec<Ieee32>, &Vec<Ieee32>) -> Ieee64,
>(
    reference: &R,
    tokenized: Vec<Vec<u32>>,
    mean_square: M,
    divergence: K,
    before: S,
    after: S,
    num_blocks: int,
    res: Result<Seq<PerPromptReport>, ParityError>,
) -> bool {
    exists|answer: Result<Vec<ReferenceOutput>, ParityError>|
        {
            &&& #[trigger] call_ensures(
                R::forward_batch_with_hooks,
                (reference, &tokenized),
                answer,
            )
            &&& match answer {
                Ok(references) => comparison_of(
                    mean_square,
                    divergence,
                    references@,
                    tokenized@,
                    before,
                    after,
                    num_blocks,
                    res,
                ),
                Err(e) => res == Err::<Seq<PerPromptReport>, _>(e) && after == before,
            }
        }
}

/// Whether the measurements on some prompts may be these, or the error this one.
pub open spec fn measurement_of<
    R: HFReference,
    S: SkeinForward,
    M: Fn(&Vec<Ieee32>, &Vec<Ieee32>) -> Ieee64,
    K: Fn(&Vec<Ieee32>, &Vec<Ieee32>) -> Ieee64,
>(
    reference: &R,
    prompts: Seq<String>,
    mean_square: M,
    divergence: K,
    before: S,
    after: S,
    num_blocks: int,
    res: Result<Seq<PerPromptReport>, ParityError>,
) -> bool {
    exists|tokenized: Result<Vec<Vec<u32>>, ParityError>|
        {
            &&& #[trigger] tokenizes_all(reference, prompts, tokenized)
            &&& match tokenized {
                Ok(t) => gate_of(
                    reference,
                    t,
                    mean_square,
                    divergence,
                    before,
                    after,
                    num_blocks,
                    res,
                ),
                Err(e) => res == Err::<Seq<PerPromptReport>, _>(e) && after == before,
            }
        }
}

/// What a result measured: the reports of its prompts, or its error.
pub open spec fn measurements(res: Result<ParityReport, ParityError>) -> Result<
    Seq<PerPromptReport>,
    ParityError,
> {
    match res {
        Ok(report) => Ok(report.per_prompt@),
        Err(e) => Err(e),
    }
}

/// Compares an artifact with the reference on some prompts and gives the verdict.
pub fn verify_plan<
    R: HFReference,
    S: SkeinForward,
    M: Fn(&Vec<Ieee32>, &Vec<Ieee32>) -> Ieee64,
    K: Fn(&Vec<Ieee32>, &Vec<Ieee32>) -> Ieee64,
    A: Fn(&Vec<Ieee64>) -> Ieee64,
    T: Fn(Ieee32) -> String,
>(
    reference: &R,
    skein: &mut S,
    ir: &Graph,
    plan: &Plan,
    workload: &Workload,
    tolerances: &ToleranceTable,
    sample_prompts: &Vec<String>,
    math: &ParityMath<M, K, A, T>,
) -> (res: Result<ParityReport, ParityError>)
    requires
        forall|x: &Vec<Ieee32>, y: &Vec<Ieee32>| call_requires(math.mean_square, (x, y)),
        forall|x: &Vec<Ieee32>, y: &Vec<Ieee32>| call_requires(math.divergence, (x, y)),
        forall|v: &Vec<Ieee64>| call_requires(math.mean, (v,)),
        forall|x: Ieee32| call_requires(math.write, (x,)),
    ensures
        if plan.dtype_map.per_layer@.len() != ir.meta.num_layers {
            &&& res == Err::<ParityReport, _>(
                ParityError::DtypeMapIncomplete {
                    expected: ir.meta.num_layers,
                    actual: plan.dtype_map.per_layer.len(),
                },
            )
            &&& *final(skein) == *old(skein)
        } else if sample_prompts@.len() == 0 {
            &&& res == Err::<ParityReport, _>(ParityError::ShapeMismatch { expected: 1, got: 0 })
            &&& *final(skein) == *old(skein)
        } else {
            &&& measurement_of(
                reference,
                sample_prompts@,
                math.mean_square,
                math.divergence,
                *old(skein),
                *final(skein),
                ir.meta.num_layers as int,
                measurements(res),
            )
            &&& res matches Ok(report) ==> concludes(
                math.mean,
                math.write,
                report,
                *plan,
                *workload,
                *tolerances,
                ir.meta.num_layers as int,
                ir.meta.architecture@,
            )
        },
{
    let num_blocks: usize = ir.meta.num_layers;
    if plan.dtype_map.per_layer.len() != num_blocks {
        return Err(
            ParityError::DtypeMapIncomplete {
                expected: num_blocks,
                actual: plan.dtype_map.per_layer.len(),
            },
        );
    }
    if sample_prompts.len() == 0 {
        return Err(ParityError::ShapeMismatch { expected: 1, got: 0 });
    }
    let tokenized = match tokenize_all(reference, sample_prompts) {
        Ok(tokenized) => tokenized,
        Err(e) => {
            assert(tokenizes_all(reference, sample_prompts@, Err(e)));
            return Err(e);
        },
    };
    assert(tokenizes_all(reference, sample_prompts@, Ok(tokenized)));
    let answer = reference.forward_batch_with_hooks(&tokenized);
    assert(call_ensures(R::forward_batch_with_hooks, (reference, &tokenized), answer));
    let references = match answer {
        Ok(references) => references,
        Err(e) => {
            return Err(e);
        },
    };
    let per_prompt = match compare_all(
        &references,
        skein,
        &tokenized,
        num_blocks,
        &math.mean_square,
        &math.divergence,
    ) {
        Ok(per_prompt) => per_prompt,
        Err(e) => {
            return Err(e);
        },
    };
    Ok(
        conclude(
            per_prompt,
            plan,
            workload,
            tolerances,
            num_blocks,
            ir.meta.architecture.clone(),
            &math.mean,
            &math.write,
        ),
    )
}

/// An artifact's output in the place of the reference's.
pub open spec fn as_reference(o: SkeinOutput) -> ReferenceOutput {
    ReferenceOutput {
        per_layer_activations: o.per_layer_activations,
        final_logits: o.final_logits,
    }
}

/// Whether comparing two artifacts may stop at a prompt with the error: the first refuses it,
/// the second does, or their outputs cannot be compared.
pub open spec fn pair_stops<R: SkeinForward, S: SkeinForward>(
    prompt: Vec<u32>,
    r_before: R,
    r_after: R,
    s_before: S,
    s_after: S,
    num_blocks: int,
    e: ParityError,
) -> bool {
    ||| R::answers(r_before, prompt@, r_after, Err(e)) && s_after == s_before
    ||| exists|o: SkeinOutput|
        {
            &&& #[trigger] R::answers(r_before, prompt@, r_after, Ok(o))
            &&& {
                ||| S::answers(s_before, prompt@, s_after, Err(e))
                ||| exists|p: SkeinOutput|
                    {
                        &&& #[trigger] S::answers(s_before, prompt@, s_after, Ok(p))
                        &&& !comparable(as_reference(o), p, num_blocks)
                        &&& comparison_error(as_reference(o), p, num_blocks, e)
                    }
            }
        }
}

/// Whether two runs gave the result.
pub open spec fn pair_explains<
    R: SkeinForward,
    S: SkeinForward,
    M: Fn(&Vec<Ieee32>, &Vec<Ieee32>) -> Ieee64,
    K: Fn(&Vec<Ieee32>, &Vec<Ieee32>) -> Ieee64,
>(
    mean_square: M,
    divergence: K,
    r_states: Seq<R>,
    r_outputs: Seq<SkeinOutput>,
    s_states: Seq<S>,
    s_outputs: Seq<SkeinOutput>,
    reports: Seq<PerPromptReport>,
    prompts: Seq<Vec<u32>>,
    r_after: R,
    s_after: S,
    num_blocks: int,
    res: Result<Seq<PerPromptReport>, ParityError>,
) -> bool {
    &&& run_of(r_states, prompts, r_outputs)
    &&& run_of(s_states, prompts, s_outputs)
    &&& r_outputs.len() == s_outputs.len()
    &&& measured(
        mean_square,
        divergence,
        r_outputs.map_values(|o: SkeinOutput| as_reference(o)),
        s_outputs,
        num_blocks,
        reports,
    )
    &&& match res {
        Ok(r) => {
            &&& r == reports
            &&& reports.len() == prompts.len()
            &&& r_states.last() == r_after
            &&& s_states.last() == s_after
        },
        Err(e) => {
            &&& reports.len() < prompts.len()
            &&& pair_stops(
                prompts[reports.len() as int],
                r_states.last(),
                r_after,
                s_states.last(),
                s_after,
                num_blocks,
                e,
            )
        },
    }
}

/// Whether comparing two artifacts on some prompts may give the result.
pub open spec fn pair_comparison_of<
    R: SkeinForward,
    S: SkeinForward,
    M: Fn(&Vec<Ieee32>, &Vec<Ieee32>) -> Ieee64,
    K: Fn(&Vec<Ieee32>, &Vec<Ieee32>) -> Ieee64,
>(
    mean_square: M,
    divergence: K,
    prompts: Seq<Vec<u32>>,
    r_before: R,
    r_after: R,
    s_before: S,
    s_after: S,
    num_blocks: int,
    res: Result<Seq<PerPromptReport>, ParityError>,
) -> bool {
    exists|
        r_states: Seq<R>,
        r_outputs: Seq<SkeinOutput>,
        s_states: Seq<S>,
        s_outputs: Seq<SkeinOutput>,
        reports: Seq<PerPromptReport>,
    |
        {
            &&& #[trigger] pair_explains(
                mean_square,
                divergence,
                r_states,
                r_outputs,
                s_states,
                s_outputs,
                reports,
                prompts,
                r_after,
                s_after,
                num_blocks,
                res,
            )
            &&& r_states[0] == r_before
            &&& s_states[0] == s_before
        }
}

/// Runs two artifacts on the prompts and measures the second's outputs against the first's.
pub fn compare_pair<
    R: SkeinForward,
    S: SkeinForward,
    M: Fn(&Vec<Ieee32>, &Vec<Ieee32>) -> Ieee64,
    K: Fn(&Vec<Ieee32>, &Vec<Ieee32>) -> Ieee64,
>(
    reference: &mut R,
    skein: &mut S,
    prompts: &Vec<Vec<u32>>,
    num_blocks: usize,
    mean_square: &M,
    divergence: &K,
) -> (res: Result<Vec<PerPromptReport>, ParityError>)
    requires
        forall|x: &Vec<Ieee32>, y: &Vec<Ieee32>| call_requires(*mean_square, (x, y)),
        forall|x: &Vec<Ieee32>, y: &Vec<Ieee32>| call_requires(*divergence, (x, y)),
    ensures
        pair_comparison_of(
            *mean_square,
            *divergence,
            prompts@,
            *old(reference),
            *final(reference),
            *old(skein),
            *final(skein),
            num_blocks as int,
            contents(res),
        ),
{
    let ghost mut r_states: Seq<R> = seq![*reference];
    let ghost mut r_outputs: Seq<SkeinOutput> = seq![];
    let ghost mut s_states: Seq<S> = seq![*skein];
    let ghost mut s_outputs: Seq<SkeinOutput> = seq![];
    let mut per_prompt: Vec<PerPromptReport> = Vec::new();
    let total: usize = prompts.len();
    let mut i: usize = 0;
    while i < total
        invariant
            i <= total,
            total == prompts@.len(),
            r_outputs.len() == i,
            s_outputs.len() == i,
            r_states[0] == *old(reference),
            s_states[0] == *old(skein),
            r_states.last() == *reference,
            s_states.last() == *skein,
            forall|x: &Vec<Ieee32>, y: &Vec<Ieee32>| call_requires(*mean_square, (x, y)),
            forall|x: &Vec<Ieee32>, y: &Vec<Ieee32>| call_requires(*divergence, (x, y)),
            run_of(r_states, prompts@, r_outputs),
            run_of(s_states, prompts@, s_outputs),
            measured(
                *mean_square,
                *divergence,
                r_outputs.map_values(|o: SkeinOutput| as_reference(o)),
                s_outputs,
                num_blocks as int,
                per_prompt@,
            ),
        decreases total - i,
    {
        let ghost r_was = *reference;
        let ghost s_was = *skein;
        let expected = match reference.forward_with_hooks(&prompts[i]) {
            Ok(o) => o,
            Err(e) => {
                assert(pair_explains(
                    *mean_square,
                    *divergence,
                    r_states,
                    r_outputs,
                    s_states,
                    s_outputs,
                    per_prompt@,
                    prompts@,
                    *reference,
                    *skein,
                    num_blocks as int,
                    Err(e),
                ));
                return Err(e);
            },
        };
        let output = match skein.forward_with_hooks(&prompts[i]) {
            Ok(o) => o,
            Err(e) => {
                assert(pair_explains(
                    *mean_square,
                    *divergence,
                    r_states,
                    r_outputs,
                    s_states,
                    s_outputs,
                    per_prompt@,
                    prompts@,
                    *reference,
                    *skein,
                    num_blocks as int,
                    Err(e),
                ));
                return Err(e);
            },
        };
        let ghost answered = expected;
        let expected = ReferenceOutput {
            per_layer_activations: expected.per_layer_activations,
            final_logits: expected.final_logits,
        };
        assert(expected == as_reference(answered));
        match compare_outputs(i, &expected, &output, num_blocks, mean_square, divergence) {
            Ok(report) => {
                per_prompt.push(report);
                proof {
                    r_outputs = r_outputs.push(answered);
                    r_states = r_states.push(*reference);
                    s_outputs = s_outputs.push(output);
                    s_states = s_states.push(*skein);
                }
            },
            Err(e) => {
                assert(pair_explains(
                    *mean_square,
                    *divergence,
                    r_states,
                    r_outputs,
                    s_states,
                    s_outputs,
                    per_prompt@,
                    prompts@,
                    *reference,
                    *skein,
                    num_blocks as int,
                    Err(e),
                ));
                return Err(e);
            },
        }
        i += 1;
    }
    assert(pair_explains(
        *mean_square,
        *divergence,
        r_states,
        r_outputs,
        s_states,
        s_outputs,
        per_prompt@,
        prompts@,
        *reference,
        *skein,
        num_blocks as int,
        Ok(per_prompt@),
    ));
    Ok(per_prompt)
}

/// Compares an artifact with a reference artifact on tokenized prompts and gives the
/// verdict.
pub fn verify_skein_pair<
    R: SkeinForward,
    S: SkeinForward,
    M: Fn(&Vec<Ieee32>, &Vec<Ieee32>) -> Ieee64,
    K: Fn(&Vec<Ieee32>, &Vec<Ieee32>) -> Ieee64,
    A: Fn(&Vec<Ieee64>) -> Ieee64,
    T: Fn(Ieee32) -> String,
>(
    reference: &mut R,
    skein: &mut S,
    tokenized_prompts: &Vec<Vec<u32>>,
    plan: &Plan,
    workload: &Workload,
    tolerances: &ToleranceTable,
    math: &ParityMath<M, K, A, T>,
) -> (res: Result<ParityReport, ParityError>)
    requires
        forall|x: &Vec<Ieee32>, y: &Vec<Ieee32>| call_requires(math.mean_square, (x, y)),
        forall|x: &Vec<Ieee32>, y: &Vec<Ieee32>| call_requires(math.divergence, (x, y)),
        forall|v: &Vec<Ieee64>| call_requires(math.mean, (v,)),
        forall|x: Ieee32| call_requires(math.write, (x,)),
    ensures
        if plan.dtype_map.per_layer@.len() != plan.model_meta.num_layers {
            &&& res == Err::<ParityReport, _>(
                ParityError::DtypeMapIncomplete {
                    expected: plan.model_meta.num_layers,
                    actual: plan.dtype_map.per_layer.len(),
                },
            )
            &&& *final(reference) == *old(reference)
            &&& *final(skein) == *old(skein)
        } else if tokenized_prompts@.len() == 0 {
            &&& res == Err::<ParityReport, _>(ParityError::ShapeMismatch { expected: 1, got: 0 })
            &&& *final(reference) == *old(reference)
            &&& *final(skein) == *old(skein)
        } else {
            &&& pair_comparison_of(
                math.mean_square,
                math.divergence,
                tokenized_prompts@,
                *old(reference),
                *final(reference),
                *old(skein),
                *final(skein),
                plan.model_meta.num_layers as int,
                measurements(res),
            )
            &&& res matches Ok(report) ==> concludes(
                math.mean,
                math.write,
                report,
                *plan,
                *workload,
                *tolerances,
                plan.model_meta.num_layers as int,
                plan.model_meta.architecture@,
            )
        },
{
    let num_blocks: usize = plan.model_meta.num_layers;
    if plan.dtype_map.per_layer.len() != num_blocks {
        return Err(
            ParityError::DtypeMapIncomplete {
                expected: num_blocks,
                actual: plan.dtype_map.per_layer.len(),
            },
        );
    }
    if tokenized_prompts.len() == 0 {
        return Err(ParityError::ShapeMismatch { expected: 1, got: 0 });
    }
    let per_prompt = match compare_pair(
        reference,
        skein,
        tokenized_prompts,
        num_blocks,
        &math.mean_square,
        &math.divergence,
    ) {
        Ok(per_prompt) => per_prompt,
        Err(e) => {
            return Err(e);
        },
    };
    Ok(
        conclude(
            per_prompt,
            plan,
            workload,
            tolerances,
            num_blocks,
            plan.model_meta.architecture.clone(),
            &math.mean,
            &math.write,
        ),
    )
}

/// Whether a run of an artifact covers all the prompts and leads from one state to another.
pub open spec fn full_run<R: SkeinForward>(
    states: Seq<R>,
    prompts: Seq<Vec<u32>>,
    outputs: Seq<SkeinOutput>,
    before: R,
    after: R,
) -> bool {
    &&& run_of(states, prompts, outputs)
    &&& outputs.len() == prompts.len()
    &&& states[0] == before
    &&& states.last() == after
}

/// Some outputs in the place of the reference's.
pub open spec fn as_references(outputs: Seq<SkeinOutput>) -> Seq<ReferenceOutput> {
    outputs.map_values(|o: SkeinOutput| as_reference(o))
}

/// Comparing two artifacts is comparing the second with a reference that answers as the
/// first does: the same measurements can come of both, and no others.
pub proof fn pair_compares_with_the_first_as_reference<
    R: SkeinForward,
    S: SkeinForward,
    M: Fn(&Vec<Ieee32>, &Vec<Ieee32>) -> Ieee64,
    K: Fn(&Vec<Ieee32>, &Vec<Ieee32>) -> Ieee64,
>(
    mean_square: M,
    divergence: K,
    prompts: Seq<Vec<u32>>,
    r_before: R,
    r_after: R,
    s_before: S,
    s_after: S,
    num_blocks: int,
    reports: Seq<PerPromptReport>,
)
    ensures
        pair_comparison_of(
            mean_square,
            divergence,
            prompts,
            r_before,
            r_after,
            s_before,
            s_after,
            num_blocks,
            Ok(reports),
        ) <==> exists|states: Seq<R>, outputs: Seq<SkeinOutput>|
            {
                &&& #[trigger] full_run(states, prompts, outputs, r_before, r_after)
                &&& comparison_of(
                    mean_square,
                    divergence,
                    as_references(outputs),
                    prompts,
                    s_before,
                    s_after,
                    num_blocks,
                    Ok(reports),
                )
            },
{
    let ok = Ok::<Seq<PerPromptReport>, ParityError>(reports);
    if pair_comparison_of(
        mean_square,
        divergence,
        prompts,
        r_before,
        r_after,
        s_before,
        s_after,
        num_blocks,
        ok,
    ) {
        let (rs, ro, ss, so, rp) = choose|
            rs: Seq<R>,
            ro: Seq<SkeinOutput>,
            ss: Seq<S>,
            so: Seq<SkeinOutput>,
            rp: Seq<PerPromptReport>,
        |
            #[trigger] pair_explains(
                mean_square,
                divergence,
                rs,
                ro,
                ss,
                so,
                rp,
                prompts,
                r_after,
                s_after,
                num_blocks,
                ok,
            ) && rs[0] == r_before && ss[0] == s_before;
        assert(full_run(rs, prompts, ro, r_before, r_after));
        assert(explains(
            mean_square,
            divergence,
            as_references(ro),
            ss,
            so,
            rp,
            prompts,
            s_before,
            s_after,
            num_blocks,
            ok,
        ));
    }
    if exists|states: Seq<R>, outputs: Seq<SkeinOutput>|
        #[trigger] full_run(states, prompts, outputs, r_before, r_after) && comparison_of(
            mean_square,
            divergence,
            as_references(outputs),
            prompts,
            s_before,
            s_after,
            num_blocks,
            ok,
        ) {
        let (rs, ro) = choose|states: Seq<R>, outputs: Seq<SkeinOutput>|
            #[trigger] full_run(states, prompts, outputs, r_before, r_after) && comparison_of(
                mean_square,
                divergence,
                as_references(outputs),
                prompts,
                s_before,
                s_after,
                num_blocks,
                ok,
            );
        let (ss, so, rp) = choose|ss: Seq<S>, so: Seq<SkeinOutput>, rp: Seq<PerPromptReport>|
            #[trigger] explains(
                mean_square,
                divergence,
                as_references(ro),
                ss,
                so,
                rp,
                prompts,
                s_before,
                s_after,
                num_blocks,
                ok,
            );
        assert(pair_explains(
            mean_square,
            divergence,
            rs,
            ro,
            ss,
            so,
            rp,
            prompts,
            r_after,
            s_after,
            num_blocks,
            ok,
        ));
    }
}

/// Whether an artifact gives one answer to some tokens, whatever its state.
pub open spec fn answers_with<S: SkeinForward>(answer: spec_fn(Seq<u32>) -> SkeinOutput) -> bool {
    forall|before: S, tokens: Seq<u32>, after: S, o: SkeinOutput| #[trigger]
        S::answers(before, tokens, after, Ok(o)) ==> o == answer(tokens)
}

/// Whether a measure gives one number for two tensors.
pub open spec fn is_a_measure<M: Fn(&Vec<Ieee32>, &Vec<Ieee32>) -> Ieee64>(measure: M) -> bool {
    forall|a: &Vec<Ieee32>, b: &Vec<Ieee32>, x: Ieee64, y: Ieee64| #[trigger]
        call_ensures(measure, (a, b), x) && #[trigger] call_ensures(measure, (a, b), y) ==> x == y
}

/// Whether a mean goes by the numbers alone.
pub open spec fn is_a_mean<A: Fn(&Vec<Ieee64>) -> Ieee64>(mean: A) -> bool {
    forall|a: &Vec<Ieee64>, b: &Vec<Ieee64>, x: Ieee64, y: Ieee64|
        a@ == b@ && #[trigger] call_ensures(mean, (a,), x) && #[trigger] call_ensures(
            mean,
            (b,),
            y,
        ) ==> x == y
}

proof fn same_outputs_same_measurements<
    M: Fn(&Vec<Ieee32>, &Vec<Ieee32>) -> Ieee64,
    K: Fn(&Vec<Ieee32>, &Vec<Ieee32>) -> Ieee64,
>(
    mean_square: M,
    divergence: K,
    r: ReferenceOutput,
    s: SkeinOutput,
    num_blocks: int,
    p: PerPromptReport,
    q: PerPromptReport,
)
    requires
        is_a_measure(mean_square),
        is_a_measure(divergence),
        measures(mean_square, divergence, r, s, num_blocks, p),
        measures(mean_square, divergence, r, s, num_blocks, q),
    ensures
        p.per_layer_mse@ == q.per_layer_mse@,
        p.final_kl == q.final_kl,
{
    assert forall|l: int| 0 <= l < num_blocks implies #[trigger] p.per_layer_mse@[l]
        == q.per_layer_mse@[l] by {
        let a = &r.per_layer_activations@[l];
        let b = &s.per_layer_activations@[l];
        assert(compared(mean_square, *a, *b, Ok(p.per_layer_mse@[l])));
        assert(compared(mean_square, *a, *b, Ok(q.per_layer_mse@[l])));
    }
    assert(p.per_layer_mse@ =~= q.per_layer_mse@);
}

/// Whether the reference tokenizes the prompts to these tokens only, and answers them only
/// as `expected` says.
pub open spec fn reference_answers_with<H: HFReference>(
    reference: &H,
    prompts: Seq<String>,
    tokens: Seq<Seq<u32>>,
    expected: spec_fn(Seq<u32>) -> SkeinOutput,
) -> bool {
    &&& forall|t: Vec<Vec<u32>>| #[trigger]
        tokenizes_all(reference, prompts, Ok(t)) ==> rows(t@) == tokens
    &&& forall|t: Vec<Vec<u32>>, answer: Vec<ReferenceOutput>|
        rows(t@) == tokens && #[trigger] call_ensures(
            H::forward_batch_with_hooks,
            (reference, &t),
            Ok(answer),
        ) ==> {
            &&& answer@.len() == tokens.len()
            &&& forall|i: int|
                0 <= i < tokens.len() ==> #[trigger] answer@[i] == as_reference(
                    expected(tokens[i]),
                )
        }
}

/// Where the first artifact answers the prompts as the reference does, a comparison of two
/// artifacts reports what a comparison with the reference reports: the same measurements,
/// the same mean and worst divergence, the same hash, and the same verdict, naming the
/// same failing layer or one that is exactly as bad. This is stated of arithmetic and of
/// artifacts that give one result for one input.
pub proof fn pair_reports_what_the_reference_reports<
    H: HFReference,
    R: SkeinForward,
    S: SkeinForward,
    M: Fn(&Vec<Ieee32>, &Vec<Ieee32>) -> Ieee64,
    K: Fn(&Vec<Ieee32>, &Vec<Ieee32>) -> Ieee64,
    A: Fn(&Vec<Ieee64>) -> Ieee64,
    T: Fn(Ieee32) -> String,
>(
    math: ParityMath<M, K, A, T>,
    reference: &H,
    prompts: Seq<String>,
    tokens: Seq<Vec<u32>>,
    r_before: R,
    r_after: R,
    plan_states: (S, S),
    pair_states: (S, S),
    plan: Plan,
    workload: Workload,
    t: ToleranceTable,
    model: Seq<char>,
    expected: spec_fn(Seq<u32>) -> SkeinOutput,
    answer: spec_fn(Seq<u32>) -> SkeinOutput,
    text: spec_fn(Ieee32) -> Seq<char>,
    by_plan: ParityReport,
    by_pair: ParityReport,
)
    requires
        reference_answers_with(reference, prompts, rows(tokens), expected),
        answers_with::<R>(expected),
        answers_with::<S>(answer),
        is_a_measure(math.mean_square),
        is_a_measure(math.divergence),
        is_a_mean(math.mean),
        writes_as(math.write, text),
        measurement_of(
            reference,
            prompts,
            math.mean_square,
            math.divergence,
            plan_states.0,
            plan_states.1,
            plan.model_meta.num_layers as int,
            Ok(by_plan.per_prompt@),
        ),
        pair_comparison_of(
            math.mean_square,
            math.divergence,
            tokens,
            r_before,
            r_after,
            pair_states.0,
            pair_states.1,
            plan.model_meta.num_layers as int,
            Ok(by_pair.per_prompt@),
        ),
        concludes(
            math.mean,
            math.write,
            by_plan,
            plan,
            workload,
            t,
            plan.model_meta.num_layers as int,
            model,
        ),
        concludes(
            math.mean,
            math.write,
            by_pair,
            plan,
            workload,
            t,
            plan.model_meta.num_layers as int,
            model,
        ),
    ensures
        same_measurements(by_plan.per_prompt@, by_pair.per_prompt@),
        by_plan.passed == by_pair.passed,
        by_plan.plan_hash@ == by_pair.plan_hash@,
        by_plan.model@ == by_pair.model@,
        by_plan.num_prompts == by_pair.num_prompts,
        by_plan.avg_final_kl == by_pair.avg_final_kl,
        by_plan.max_final_kl == by_pair.max_final_kl,
        by_plan.slo_max_drift == by_pair.slo_max_drift,
        by_plan.failing_layer is Some <==> by_pair.failing_layer is Some,
        by_plan.failing_layer matches Some(f) ==> {
            let layers = plan.dtype_map.per_layer@;
            let x = f.layer_idx as int;
            let y = by_pair.failing_layer->0.layer_idx as int;
            &&& no_less_bad(by_plan.per_prompt@, layers, t, x, y)
            &&& no_less_bad(by_plan.per_prompt@, layers, t, y, x)
        },
{
    let n = plan.model_meta.num_layers as int;
    let a = by_plan.per_prompt@;
    let b = by_pair.per_prompt@;
    let ok = Ok::<Seq<PerPromptReport>, ParityError>(a);
    let tokenized = choose|tokenized: Result<Vec<Vec<u32>>, ParityError>|
        {
            &&& #[trigger] tokenizes_all(reference, prompts, tokenized)
            &&& match tokenized {
                Ok(v) => gate_of(
                    reference,
                    v,
                    math.mean_square,
                    math.divergence,
                    plan_states.0,
                    plan_states.1,
                    n,
                    ok,
                ),
                Err(e) => ok == Err::<Seq<PerPromptReport>, _>(e) && plan_states.1
                    == plan_states.0,
            }
        };
    let given = tokenized->Ok_0;
    assert(tokenized == Ok::<Vec<Vec<u32>>, ParityError>(given));
    let answered = choose|answered: Result<Vec<ReferenceOutput>, ParityError>|
        {
            &&& #[trigger] call_ensures(
                H::forward_batch_with_hooks,
                (reference, &given),
                answered,
            )
            &&& match answered {
                Ok(references) => comparison_of(
                    math.mean_square,
                    math.divergence,
                    references@,
                    given@,
                    plan_states.0,
                    plan_states.1,
                    n,
                    ok,
                ),
                Err(e) => ok == Err::<Seq<PerPromptReport>, _>(e) && plan_states.1
                    == plan_states.0,
            }
        };
    let output = answered->Ok_0;
    assert(answered == Ok::<Vec<ReferenceOutput>, ParityError>(output));
    let references = output@;
    assert(rows(given@) == rows(tokens));
    assert(given@.len() == rows(given@).len() == tokens.len());
    let (ss, so, sp) = choose|ss: Seq<S>, so: Seq<SkeinOutput>, sp: Seq<PerPromptReport>|
        #[trigger] explains(
            math.mean_square,
            math.divergence,
            references,
            ss,
            so,
            sp,
            given@,
            plan_states.0,
            plan_states.1,
            n,
            Ok(a),
        );
    let (rs, ro, qs, qo, qp) = choose|
        rs: Seq<R>,
        ro: Seq<SkeinOutput>,
        qs: Seq<S>,
        qo: Seq<SkeinOutput>,
        qp: Seq<PerPromptReport>,
    |
        #[trigger] pair_explains(
            math.mean_square,
            math.divergence,
            rs,
            ro,
            qs,
            qo,
            qp,
            tokens,
            r_after,
            pair_states.1,
            n,
            Ok(b),
        ) && rs[0] == r_before && qs[0] == pair_states.0;
    let expectations = ro.map_values(|o: SkeinOutput| as_reference(o));
    assert forall|i: int| 0 <= i < a.len() implies {
        &&& (#[trigger] a[i]).prompt_idx == b[i].prompt_idx
        &&& a[i].per_layer_mse@ == b[i].per_layer_mse@
        &&& a[i].final_kl == b[i].final_kl
    } by {
        assert(rows(given@)[i] == given@[i]@ && rows(tokens)[i] == tokens[i]@);
        assert(S::answers(ss[i], given@[i]@, ss[i + 1], Ok(so[i])));
        assert(S::answers(qs[i], tokens[i]@, qs[i + 1], Ok(qo[i])));
        assert(R::answers(rs[i], tokens[i]@, rs[i + 1], Ok(ro[i])));
        assert(expectations[i] == references[i]);
        assert(b[i].prompt_idx == i);
        same_outputs_same_measurements(
            math.mean_square,
            math.divergence,
            references[i],
            so[i],
            n,
            a[i],
            b[i],
        );
    }
    assert(final_kls(a) =~= final_kls(b));
    same_measurements_same_verdict(
        by_plan,
        by_pair,
        plan.dtype_map.per_layer@,
        t,
        n,
        workload.slo.max_accuracy_drift,
    );
}

/// Whether an artifact answers everything, with this answer.
pub open spec fn always_answers_with<S: SkeinForward>(
    answer: spec_fn(Seq<u32>) -> SkeinOutput,
) -> bool {
    forall|before: S, tokens: Seq<u32>, after: S, r: Result<SkeinOutput, ParityError>| #[trigger]
        S::answers(before, tokens, after, r) ==> r is Ok && r->Ok_0 == answer(tokens)
}

/// Whether the reference tokenizes all the prompts, to these tokens, and answers them all as
/// `expected` says.
pub open spec fn reference_always_answers_with<H: HFReference>(
    reference: &H,
    prompts: Seq<String>,
    tokens: Seq<Seq<u32>>,
    expected: spec_fn(Seq<u32>) -> SkeinOutput,
) -> bool {
    &&& forall|t: Result<Vec<Vec<u32>>, ParityError>| #[trigger]
        tokenizes_all(reference, prompts, t) ==> t is Ok && rows(t->Ok_0@) == tokens
    &&& forall|t: Vec<Vec<u32>>, r: Result<Vec<ReferenceOutput>, ParityError>|
        rows(t@) == tokens && #[trigger] call_ensures(
            H::forward_batch_with_hooks,
            (reference, &t),
            r,
        ) ==> {
            &&& r is Ok
            &&& r->Ok_0@.len() == tokens.len()
            &&& forall|i: int|
                0 <= i < tokens.len() ==> #[trigger] r->Ok_0@[i] == as_reference(
                    expected(tokens[i]),
                )
        }
}

/// Whether two outputs have an activation for every block, of the same lengths, and as many
/// logits.
pub open spec fn same_shape(a: SkeinOutput, b: SkeinOutput, num_blocks: int) -> bool {
    &&& a.per_layer_activations@.len() == num_blocks
    &&& b.per_layer_activations@.len() == num_blocks
    &&& a.final_logits@.len() == b.final_logits@.len()
    &&& forall|l: int|
        0 <= l < num_blocks ==> (#[trigger] a.per_layer_activations@[l])@.len()
            == b.per_layer_activations@[l]@.len()
}

/// Every block of every prompt is measured, and the logits: a report has one entry per prompt,
/// in order, and the error at a block is what the arithmetic makes of the reference's and the
/// artifact's activations of that block on that prompt, as the divergence is of their logits;
/// empty tensors differ by zero. There is such a report exactly when the two sides' outputs
/// have the same shapes on every prompt. This is stated of a reference and an artifact that
/// answer everything, one answer per input.
pub proof fn every_block_of_every_prompt_is_measured<
    H: HFReference,
    S: SkeinForward,
    M: Fn(&Vec<Ieee32>, &Vec<Ieee32>) -> Ieee64,
    K: Fn(&Vec<Ieee32>, &Vec<Ieee32>) -> Ieee64,
>(
    reference: &H,
    prompts: Seq<String>,
    tokens: Seq<Seq<u32>>,
    mean_square: M,
    divergence: K,
    before: S,
    after: S,
    num_blocks: int,
    expected: spec_fn(Seq<u32>) -> SkeinOutput,
    answer: spec_fn(Seq<u32>) -> SkeinOutput,
    res: Result<Seq<PerPromptReport>, ParityError>,
)
    requires
        reference_always_answers_with(reference, prompts, tokens, expected),
        always_answers_with::<S>(answer),
        measurement_of(
            reference,
            prompts,
            mean_square,
            divergence,
            before,
            after,
            num_blocks,
            res,
        ),
    ensures
        res is Ok <==> forall|i: int|
            0 <= i < tokens.len() ==> same_shape(
                expected(#[trigger] tokens[i]),
                answer(tokens[i]),
                num_blocks,
            ),
        res matches Ok(reports) ==> {
            &&& reports.len() == tokens.len()
            &&& forall|i: int| #![trigger reports[i]]
                0 <= i < tokens.len() ==> {
                    let r = expected(tokens[i]);
                    let s = answer(tokens[i]);
                    &&& reports[i].prompt_idx == i
                    &&& reports[i].per_layer_mse@.len() == num_blocks
                    &&& forall|l: int| #![trigger reports[i].per_layer_mse@[l]]
                        0 <= l < num_blocks ==> if r.per_layer_activations@[l]@.len() == 0 {
                            reports[i].per_layer_mse@[l].bits == 0
                        } else {
                            call_ensures(
                                mean_square,
                                (&r.per_layer_activations@[l], &s.per_layer_activations@[l]),
                                reports[i].per_layer_mse@[l],
                            )
                        }
                    &&& if r.final_logits@.len() == 0 {
                        reports[i].final_kl.bits == 0
                    } else {
                        call_ensures(
                            divergence,
                            (&r.final_logits, &s.final_logits),
                            reports[i].final_kl,
                        )
                    }
                }
        },
{
    let tokenized = choose|tokenized: Result<Vec<Vec<u32>>, ParityError>|
        {
            &&& #[trigger] tokenizes_all(reference, prompts, tokenized)
            &&& match tokenized {
                Ok(v) => gate_of(
                    reference,
                    v,
                    mean_square,
                    divergence,
                    before,
                    after,
                    num_blocks,
                    res,
                ),
                Err(e) => res == Err::<Seq<PerPromptReport>, _>(e) && after == before,
            }
        };
    let given = tokenized->Ok_0;
    assert(tokenized == Ok::<Vec<Vec<u32>>, ParityError>(given));
    let answered = choose|answered: Result<Vec<ReferenceOutput>, ParityError>|
        {
            &&& #[trigger] call_ensures(
                H::forward_batch_with_hooks,
                (reference, &given),
                answered,
            )
            &&& match answered {
                Ok(references) => comparison_of(
                    mean_square,
                    divergence,
                    references@,
                    given@,
                    before,
                    after,
                    num_blocks,
                    res,
                ),
                Err(e) => res == Err::<Seq<PerPromptReport>, _>(e) && after == before,
            }
        };
    let output = answered->Ok_0;
    assert(answered == Ok::<Vec<ReferenceOutput>, ParityError>(output));
    let references = output@;
    assert(given@.len() == rows(given@).len() == tokens.len());
    assert forall|i: int| 0 <= i < tokens.len() implies #[trigger] given@[i]@ == tokens[i] by {
        assert(rows(given@)[i] == given@[i]@);
    }
    let (ss, so, sp) = choose|ss: Seq<S>, so: Seq<SkeinOutput>, sp: Seq<PerPromptReport>|
        #[trigger] explains(
            mean_square,
            divergence,
            references,
            ss,
            so,
            sp,
            given@,
            before,
            after,
            num_blocks,
            res,
        );
    assert forall|i: int| 0 <= i < so.len() implies #[trigger] so[i] == answer(tokens[i])
        && references[i] == as_reference(expected(tokens[i])) && same_shape(
        expected(tokens[i]),
        answer(tokens[i]),
        num_blocks,
    ) by {
        assert(S::answers(ss[i], given@[i]@, ss[i + 1], Ok(so[i])));
        assert(given@[i]@ == tokens[i]);
        assert(measures(mean_square, divergence, references[i], so[i], num_blocks, sp[i])) by {
            assert(sp[i].prompt_idx == i);
        }
        assert(references[i] == as_reference(expected(tokens[i])));
        assert forall|l: int| 0 <= l < num_blocks implies (
        #[trigger] expected(tokens[i]).per_layer_activations@[l])@.len() == answer(
            tokens[i],
        ).per_layer_activations@[l]@.len() by {
            assert(references[i].per_layer_activations@[l]@.len()
                == so[i].per_layer_activations@[l]@.len());
        }
    }
    if res is Ok {
        let reports = res->Ok_0;
        assert(reports == sp);
        assert forall|i: int| 0 <= i < tokens.len() implies same_shape(
            expected(#[trigger] tokens[i]),
            answer(tokens[i]),
            num_blocks,
        ) by {
            assert(so[i] == answer(tokens[i]));
        }
        assert forall|i: int| #![trigger reports[i]] 0 <= i < tokens.len() implies {
            let r = expected(tokens[i]);
            let s = answer(tokens[i]);
            &&& reports[i].prompt_idx == i
            &&& reports[i].per_layer_mse@.len() == num_blocks
            &&& forall|l: int| #![trigger reports[i].per_layer_mse@[l]]
                0 <= l < num_blocks ==> if r.per_layer_activations@[l]@.len() == 0 {
                    reports[i].per_layer_mse@[l].bits == 0
                } else {
                    call_ensures(
                        mean_square,
                        (&r.per_layer_activations@[l], &s.per_layer_activations@[l]),
                        reports[i].per_layer_mse@[l],
                    )
                }
            &&& if r.final_logits@.len() == 0 {
                reports[i].final_kl.bits == 0
            } else {
                call_ensures(
                    divergence,
                    (&r.final_logits, &s.final_logits),
                    reports[i].final_kl,
                )
            }
        } by {
            assert(so[i] == answer(tokens[i]));
            assert(measures(mean_square, divergence, references[i], so[i], num_blocks, reports[i]));
        }
    } else {
        let k = so.len() as int;
        let e = res->Err_0;
        assert(stops(references, ss.last(), given@, after, k, num_blocks, e));
        assert(given@[k]@ == tokens[k]);
        assert(references[k] == as_reference(expected(tokens[k])));
        assert(!comparable(references[k], answer(tokens[k]), num_blocks)) by {
            if S::answers(ss.last(), given@[k]@, after, Err(e)) {
                assert(false);
            }
            let o = choose|o: SkeinOutput|
                {
                    &&& #[trigger] S::answers(ss.last(), given@[k]@, after, Ok(o))
                    &&& !comparable(references[k], o, num_blocks)
                    &&& comparison_error(references[k], o, num_blocks, e)
                };
            assert(o == answer(tokens[k]));
        }
        if same_shape(expected(tokens[k]), answer(tokens[k]), num_blocks) {
            assert forall|l: int| 0 <= l < num_blocks implies (
            #[trigger] references[k].per_layer_activations@[l])@.len() == answer(
                tokens[k],
            ).per_layer_activations@[l]@.len() by {
                assert(expected(tokens[k]).per_layer_activations@[l]@.len() == answer(
                    tokens[k],
                ).per_layer_activations@[l]@.len());
            }
            assert(false);
        }
    }
}

/// The mean of a report is taken over every prompt's divergence, in order.
pub proof fn the_mean_is_over_all_prompts<A: Fn(&Vec<Ieee64>) -> Ieee64, T: Fn(Ieee32) -> String>(
    mean: A,
    write: T,
    report: ParityReport,
    plan: Plan,
    workload: Workload,
    t: ToleranceTable,
    num_blocks: int,
    model: Seq<char>,
)
    requires
        concludes(mean, write, report, plan, workload, t, num_blocks, model),
    ensures
        exists|kls: Vec<Ieee64>|
            {
                &&& #[trigger] call_ensures(mean, (&kls,), report.avg_final_kl)
                &&& kls@.len() == report.per_prompt@.len()
                &&& forall|i: int|
                    0 <= i < kls@.len() ==> #[trigger] kls@[i] == report.per_prompt@[i].final_kl
            },
        report.num_prompts == report.per_prompt@.len(),
        report.slo_max_drift == workload.slo.max_accuracy_drift,
        report.passed ==> report.avg_final_kl.at_most(workload.slo.max_accuracy_drift)
            && report.failing_layer is None,
        report.avg_final_kl.at_most(workload.slo.max_accuracy_drift) && report.failing_layer is None
            ==> report.passed,
{
    let kls = choose|kls: Vec<Ieee64>|
        kls@ == final_kls(report.per_prompt@) && #[trigger] call_ensures(
            mean,
            (&kls,),
            report.avg_final_kl,
        );
    assert(kls@.len() == report.per_prompt@.len());
}

/// Where two outputs cannot be compared, the error gives the lengths that differ: what was
/// expected first, what was got second. A wrong number of blocks comes before lengths that
/// differ, and the reference's before the artifact's.
pub proof fn shape_errors_give_the_lengths(
    r: ReferenceOutput,
    s: SkeinOutput,
    num_blocks: int,
    e: ParityError,
)
    requires
        comparison_error(r, s, num_blocks, e),
        !comparable(r, s, num_blocks),
        0 <= num_blocks <= usize::MAX,
    ensures
        e is ShapeMismatch,
        r.per_layer_activations@.len() != num_blocks ==> e->ShapeMismatch_expected == num_blocks
            && e->got == r.per_layer_activations@.len(),
        r.per_layer_activations@.len() == num_blocks && s.per_layer_activations@.len() != num_blocks
            ==> e->ShapeMismatch_expected == num_blocks && e->got == s.per_layer_activations@.len(),
        r.per_layer_activations@.len() == num_blocks && s.per_layer_activations@.len() == num_blocks
            ==> e->ShapeMismatch_expected != e->got && (e->ShapeMismatch_expected
            == r.final_logits@.len() && e->got == s.final_logits@.len() || exists|l: int|
            {
                &&& 0 <= l < num_blocks
                &&& e->ShapeMismatch_expected == (#[trigger] r.per_layer_activations@[l])@.len()
                &&& e->got == s.per_layer_activations@[l]@.len()
            }),
{
}

/// A prompt is tokenized to one token per byte, and an empty one to a single zero; every token
/// is an entry of the vocabulary.
pub proof fn prompts_have_a_token_per_byte(prompt: &str, vocab: u32, tokens: Vec<u32>, i: int)
    requires
        call_ensures(tokenize_prompt_bytes, (prompt, vocab), tokens),
        vocab > 0,
        0 <= i < tokens@.len(),
    ensures
        tokens@.len() > 0,
        encode_utf8(prompt@).len() == 0 ==> tokens@ == seq![0u32],
        encode_utf8(prompt@).len() > 0 ==> tokens@.len() == encode_utf8(prompt@).len(),
        tokens@[i] < vocab,
        encode_utf8(prompt@).len() > 0 && encode_utf8(prompt@)[i] < vocab ==> tokens@[i]
            == encode_utf8(prompt@)[i],
{
    if encode_utf8(prompt@).len() > 0 {
        let b = encode_utf8(prompt@)[i] as int;
        let v = vocab as int;
        assert(0 <= b % v < v) by (nonlinear_arith)
            requires
                v > 0,
        ;
        if b < v {
            vstd::arithmetic::div_mod::lemma_small_mod(b as nat, v as nat);
        }
    }
}

/// The prompts are tokenized in order, each by itself: as many token lists as prompts, and the
/// `i`-th is what the reference makes of the `i`-th prompt.
pub proof fn prompts_are_tokenized_in_order<R: HFReference>(
    reference: &R,
    prompts: Seq<String>,
    tokens: Vec<Vec<u32>>,
    i: int,
)
    requires
        tokenizes_all(reference, prompts, Ok(tokens)),
        0 <= i < prompts.len(),
    ensures
        tokens@.len() == prompts.len(),
        exists|text: &str|
            text@ == prompts[i]@ && #[trigger] call_ensures(
                R::tokenize,
                (reference, text),
                Ok(tokens@[i]),
            ),
{
    assert(tokenizes(reference, prompts[i], Ok(tokens@[i])));
}

} // verus!
