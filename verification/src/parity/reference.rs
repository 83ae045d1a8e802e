//! The reference's side: its dtype, its cached outputs, and putting a batch of outputs
//! together from the cache and the answers of the reference process.

use vstd::prelude::*;

use crate::ieee::Ieee32;
use crate::parity::error::ParityError;
use crate::runtime::distributed::pipeline::{copy_tokens, rows};
use crate::runtime::distributed::segment_runner::copy_values;
use crate::runtime::tensor::tensor_views;
use crate::text::{blank, decimal, is_blank, lines, push_decimal, same, split_lines};

verus! {

/// Output of one forward pass: the activations of every decoder block, and the logits.
#[derive(Debug, Clone, PartialEq)]
pub struct ReferenceOutput {
    pub per_layer_activations: Vec<Vec<Ieee32>>,
    pub final_logits: Vec<Ieee32>,
}

/// What a [`ReferenceOutput`] is.
pub struct OutputView {
    pub layers: Seq<Seq<Ieee32>>,
    pub logits: Seq<Ieee32>,
}

impl View for ReferenceOutput {
    type V = OutputView;

    open spec fn view(&self) -> OutputView {
        OutputView { layers: tensor_views(self.per_layer_activations@), logits: self.final_logits@ }
    }
}

/// A dtype that the reference can run in.
#[derive(Debug, Clone, PartialEq, Eq, Hash)]
pub struct ReferenceDtype(pub String);

/// Whether the reference can run in a dtype.
pub open spec fn reference_dtype(s: Seq<char>) -> bool {
    s == "bfloat16"@ || s == "float16"@ || s == "float32"@
}

impl ReferenceDtype {
    pub fn new(dtype: String) -> (res: Result<Self, ParityError>)
        ensures
            reference_dtype(dtype@) ==> res is Ok && res->Ok_0.0@ == dtype@,
            !reference_dtype(dtype@) ==> res is Err && res->Err_0 is InvalidReferenceDtype
                && res->Err_0->dtype@ == dtype@,
    {
        if same(dtype.as_str(), "bfloat16") || same(dtype.as_str(), "float16") || same(
            dtype.as_str(),
            "float32",
        ) {
            Ok(ReferenceDtype(dtype))
        } else {
            Err(ParityError::InvalidReferenceDtype { dtype })
        }
    }

    pub fn as_str(&self) -> (res: &str)
        ensures
            res@ == self.0@,
    {
        self.0.as_str()
    }
}

/// A copy of an output.
pub fn copy_output(o: &ReferenceOutput) -> (res: ReferenceOutput)
    ensures
        res@ == o@,
{
    let mut layers: Vec<Vec<Ieee32>> = Vec::new();
    let mut i: usize = 0;
    while i < o.per_layer_activations.len()
        invariant
            i <= o.per_layer_activations@.len(),
            tensor_views(layers@) == tensor_views(o.per_layer_activations@).take(i as int),
        decreases o.per_layer_activations.len() - i,
    {
        let ghost before = layers@;
        let t = copy_values(&o.per_layer_activations[i]);
        layers.push(t);
        assert(tensor_views(layers@) =~= tensor_views(before).push(t@));
        i += 1;
        assert(tensor_views(layers@) =~= tensor_views(o.per_layer_activations@).take(i as int));
    }
    assert(tensor_views(layers@) =~= tensor_views(o.per_layer_activations@));
    ReferenceOutput { per_layer_activations: layers, final_logits: copy_values(&o.final_logits) }
}

/// Outputs by the prompts that gave them, one entry a prompt.
#[derive(Debug)]
pub struct ReferenceCache {
    pub entries: Vec<(Vec<u32>, ReferenceOutput)>,
}

/// The cached output of a prompt.
pub open spec fn cached(entries: Seq<(Vec<u32>, ReferenceOutput)>, tokens: Seq<u32>) -> Option<
    OutputView,
>
    decreases entries.len(),
{
    if entries.len() == 0 {
        None
    } else if entries.last().0@ == tokens {
        Some(entries.last().1@)
    } else {
        cached(entries.drop_last(), tokens)
    }
}

proof fn cached_after_update(
    entries: Seq<(Vec<u32>, ReferenceOutput)>,
    i: int,
    entry: (Vec<u32>, ReferenceOutput),
    t: Seq<u32>,
)
    requires
        0 <= i < entries.len(),
        entries[i].0@ == entry.0@,
        forall|j: int| i < j < entries.len() ==> (#[trigger] entries[j]).0@ != entry.0@,
    ensures
        cached(entries.update(i, entry), t) == if t == entry.0@ {
            Some(entry.1@)
        } else {
            cached(entries, t)
        },
    decreases entries.len(),
{
    let front = entries.drop_last();
    let updated = entries.update(i, entry);
    if i == entries.len() - 1 {
        assert(updated.drop_last() =~= front);
    } else {
        assert(updated.drop_last() =~= front.update(i, entry));
        assert(updated.last() == entries.last());
        assert(entries[entries.len() - 1].0@ != entry.0@);
        assert forall|j: int| i < j < front.len() implies (#[trigger] front[j]).0@ != entry.0@ by {
            assert(front[j] == entries[j]);
        }
        cached_after_update(front, i, entry, t);
    }
}

fn same_tokens(a: &Vec<u32>, b: &Vec<u32>) -> (res: bool)
    ensures
        res == (a@ == b@),
{
    if a.len() != b.len() {
        return false;
    }
    let mut i: usize = 0;
    while i < a.len()
        invariant
            i <= a@.len(),
            a@.len() == b@.len(),
            forall|j: int| 0 <= j < i ==> a@[j] == b@[j],
        decreases a.len() - i,
    {
        if a[i] != b[i] {
            return false;
        }
        i += 1;
    }
    assert(a@ =~= b@);
    true
}

impl ReferenceCache {
    /// No prompt occurs twice.
    pub open spec fn wf(&self) -> bool {
        forall|i: int, j: int|
            0 <= i < j < self.entries@.len() ==> (#[trigger] self.entries@[i]).0@ != (
            #[trigger] self.entries@[j]).0@
    }

    pub fn new() -> (res: Self)
        ensures
            res.wf(),
            res.entries@.len() == 0,
    {
        ReferenceCache { entries: Vec::new() }
    }

    /// The output of a prompt, where it is cached.
    pub fn get(&self, tokens: &Vec<u32>) -> (res: Option<ReferenceOutput>)
        ensures
            match res {
                Some(o) => cached(self.entries@, tokens@) == Some(o@),
                None => cached(self.entries@, tokens@) is None,
            },
    {
        let mut i: usize = self.entries.len();
        assert(self.entries@.take(i as int) =~= self.entries@);
        while i > 0
            invariant
                i <= self.entries@.len(),
                cached(self.entries@, tokens@) == cached(self.entries@.take(i as int), tokens@),
            decreases i,
        {
            assert(self.entries@.take(i as int).drop_last() =~= self.entries@.take(i - 1));
            if same_tokens(&self.entries[i - 1].0, tokens) {
                return Some(copy_output(&self.entries[i - 1].1));
            }
            i -= 1;
        }
        None
    }

    /// Remembers the output of a prompt, in place of what it had.
    pub fn insert(&mut self, tokens: Vec<u32>, output: ReferenceOutput)
        requires
            old(self).wf(),
        ensures
            final(self).wf(),
            final(self).entries@.len() == old(self).entries@.len() + if cached(
                old(self).entries@,
                tokens@,
            ) is Some {
                0int
            } else {
                1int
            },
            forall|t: Seq<u32>|
                #[trigger] cached(final(self).entries@, t) == if t == tokens@ {
                    Some(output@)
                } else {
                    cached(old(self).entries@, t)
                },
    {
        let ghost before = self.entries@;
        let mut i: usize = self.entries.len();
        assert(before.take(i as int) =~= before);
        while i > 0
            invariant
                *self == *old(self),
                self.wf(),
                before == self.entries@,
                i <= before.len(),
                cached(before, tokens@) == cached(before.take(i as int), tokens@),
                forall|j: int| i <= j < before.len() ==> (#[trigger] before[j]).0@ != tokens@,
            decreases i,
        {
            assert(before.take(i as int).drop_last() =~= before.take(i - 1));
            if same_tokens(&self.entries[i - 1].0, &tokens) {
                let ghost entry = (tokens, output);
                self.entries.set(i - 1, (tokens, output));
                proof {
                    assert(self.entries@ == before.update(i - 1, entry));
                    assert forall|t: Seq<u32>| #[trigger]
                        cached(self.entries@, t) == if t == entry.0@ {
                            Some(entry.1@)
                        } else {
                            cached(before, t)
                        } by {
                        cached_after_update(before, i - 1, entry, t);
                    }
                    assert forall|a: int, b: int| 0 <= a < b < before.len() implies (
                    #[trigger] self.entries@[a]).0@ != (#[trigger] self.entries@[b]).0@ by {
                        assert(before[a].0@ != before[b].0@);
                    }
                }
                return;
            }
            i -= 1;
        }
        self.entries.push((tokens, output));
        assert(self.entries@.drop_last() =~= before);
        assert forall|a: int, b: int| 0 <= a < b < self.entries@.len() implies (
        #[trigger] self.entries@[a]).0@ != (#[trigger] self.entries@[b]).0@ by {
            if b < before.len() {
                assert(before[a].0@ != before[b].0@);
            } else {
                assert(before[a].0@ != tokens@);
            }
        }
    }
}

/// A batch of prompts on its way through the reference.
#[derive(Debug)]
pub struct ReferenceBatch {
    /// By prompt: its output, once known.
    pub outputs: Vec<Option<ReferenceOutput>>,
    /// The prompts that the reference process must be asked for.
    pub missing: Vec<(usize, Vec<u32>)>,
}

/// The views of some outputs.
pub open spec fn output_views(v: Seq<Option<ReferenceOutput>>) -> Seq<Option<OutputView>> {
    v.map_values(
        |o: Option<ReferenceOutput>|
            match o {
                Some(x) => Some(x@),
                None => None::<OutputView>,
            },
    )
}

/// The outputs of some prompts that the cache has.
pub open spec fn looked_up(
    entries: Seq<(Vec<u32>, ReferenceOutput)>,
    prompts: Seq<Seq<u32>>,
) -> Seq<Option<OutputView>> {
    prompts.map_values(|p: Seq<u32>| cached(entries, p))
}

/// The prompts that the cache does not have, in order.
pub open spec fn not_cached(
    entries: Seq<(Vec<u32>, ReferenceOutput)>,
    prompts: Seq<Seq<u32>>,
) -> Seq<usize>
    decreases prompts.len(),
{
    if prompts.len() == 0 {
        seq![]
    } else if cached(entries, prompts.last()) is None {
        not_cached(entries, prompts.drop_last()).push((prompts.len() - 1) as usize)
    } else {
        not_cached(entries, prompts.drop_last())
    }
}

/// The places of some prompts.
pub open spec fn places(v: Seq<(usize, Vec<u32>)>) -> Seq<usize> {
    v.map_values(|e: (usize, Vec<u32>)| e.0)
}

impl ReferenceBatch {
    /// Every prompt that must be asked for has a place among the outputs.
    pub open spec fn wf(&self) -> bool {
        forall|k: int|
            0 <= k < self.missing@.len() ==> (#[trigger] self.missing@[k]).0 < self.outputs@.len()
    }

    /// Looks the prompts up in the cache, and lists those to ask for.
    pub fn plan(cache: &ReferenceCache, prompts: &Vec<Vec<u32>>) -> (res: Self)
        ensures
            res.wf(),
            output_views(res.outputs@) == looked_up(cache.entries@, rows(prompts@)),
            places(res.missing@) == not_cached(cache.entries@, rows(prompts@)),
            forall|k: int|
                0 <= k < res.missing@.len() ==> (#[trigger] res.missing@[k]).1@
                    == prompts@[res.missing@[k].0 as int]@,
    {
        let ghost views = rows(prompts@);
        let mut outputs: Vec<Option<ReferenceOutput>> = Vec::new();
        let mut missing: Vec<(usize, Vec<u32>)> = Vec::new();
        let mut i: usize = 0;
        assert(output_views(outputs@) =~= looked_up(cache.entries@, views.take(0)));
        assert(places(missing@) =~= seq![]);
        while i < prompts.len()
            invariant
                i <= prompts@.len(),
                views == rows(prompts@),
                outputs@.len() == i,
                output_views(outputs@) == looked_up(cache.entries@, views.take(i as int)),
                places(missing@) == not_cached(cache.entries@, views.take(i as int)),
                forall|k: int|
                    0 <= k < missing@.len() ==> (#[trigger] missing@[k]).0 < i && missing@[k].1@
                        == prompts@[missing@[k].0 as int]@,
            decreases prompts.len() - i,
        {
            let ghost o0 = outputs@;
            let ghost m0 = missing@;
            let ghost upto = views.take(i + 1);
            assert(upto.drop_last() =~= views.take(i as int));
            assert(views[i as int] == prompts@[i as int]@);
            match cache.get(&prompts[i]) {
                Some(o) => {
                    outputs.push(Some(o));
                    assert(output_views(outputs@) =~= output_views(o0).push(Some(o@)));
                },
                None => {
                    outputs.push(None);
                    assert(output_views(outputs@) =~= output_views(o0).push(None));
                    missing.push((i, copy_tokens(&prompts[i])));
                    assert(places(missing@) =~= places(m0).push(i));
                },
            }
            assert(output_views(outputs@) =~= looked_up(cache.entries@, upto));
            i += 1;
        }
        assert(views.take(i as int) =~= views);
        ReferenceBatch { outputs, missing }
    }

    /// Takes the output of the `prompt_idx`-th prompt asked for, into the batch and the
    /// cache.
    pub fn accept(
        &mut self,
        cache: &mut ReferenceCache,
        prompt_idx: usize,
        output: ReferenceOutput,
    ) -> (res: Result<(), ParityError>)
        requires
            old(self).wf(),
            old(cache).wf(),
        ensures
            final(self).wf(),
            final(cache).wf(),
            final(self).missing == old(self).missing,
            if prompt_idx < old(self).missing@.len() {
                let at = old(self).missing@[prompt_idx as int].0;
                let tokens = old(self).missing@[prompt_idx as int].1@;
                &&& res is Ok
                &&& output_views(final(self).outputs@) == output_views(old(self).outputs@).update(
                    at as int,
                    Some(output@),
                )
                &&& forall|t: Seq<u32>|
                    #[trigger] cached(final(cache).entries@, t) == if t == tokens {
                        Some(output@)
                    } else {
                        cached(old(cache).entries@, t)
                    }
            } else {
                &&& res is Err
                &&& res->Err_0 is PythonProtocol
                &&& res->Err_0->PythonProtocol_0@ == "forward response prompt_idx "@ + decimal(
                    prompt_idx as nat,
                ) + " out of range"@
                &&& *final(self) == *old(self)
                &&& *final(cache) == *old(cache)
            },
    {
        if prompt_idx >= self.missing.len() {
            let mut why = "forward response prompt_idx ".to_owned();
            push_decimal(&mut why, prompt_idx as u64);
            why.append(" out of range");
            return Err(ParityError::PythonProtocol(why));
        }
        let at: usize = self.missing[prompt_idx].0;
        assert(self.missing@[prompt_idx as int].0 < self.outputs@.len());
        let tokens = copy_tokens(&self.missing[prompt_idx].1);
        cache.insert(tokens, copy_output(&output));
        self.outputs.set(at, Some(output));
        assert(output_views(self.outputs@) =~= output_views(old(self).outputs@).update(
            at as int,
            Some(output@),
        ));
        Ok(())
    }

    /// The outputs of all prompts; an error names the first that has none.
    pub fn finish(self) -> (res: Result<Vec<ReferenceOutput>, ParityError>)
        ensures
            res is Ok <==> forall|i: int|
                0 <= i < self.outputs@.len() ==> (#[trigger] self.outputs@[i]) is Some,
            res is Ok ==> res->Ok_0@.len() == self.outputs@.len() && forall|i: int|
                0 <= i < self.outputs@.len() ==> (#[trigger] res->Ok_0@[i])@
                    == self.outputs@[i]->0@,
            res is Err ==> exists|i: int|
                {
                    &&& 0 <= i < self.outputs@.len()
                    &&& (#[trigger] self.outputs@[i]) is None
                    &&& forall|j: int|
                        0 <= j < i ==> (#[trigger] self.outputs@[j]) is Some
                    &&& res->Err_0 is PythonProtocol
                    &&& res->Err_0->PythonProtocol_0@ == "missing forward response for prompt "@
                        + decimal(i as nat)
                },
    {
        let mut out: Vec<ReferenceOutput> = Vec::new();
        let mut i: usize = 0;
        while i < self.outputs.len()
            invariant
                i <= self.outputs@.len(),
                out@.len() == i,
                forall|j: int| 0 <= j < i ==> (#[trigger] self.outputs@[j]) is Some,
                forall|j: int|
                    0 <= j < i ==> (#[trigger] out@[j])@ == self.outputs@[j]->0@,
            decreases self.outputs.len() - i,
        {
            match &self.outputs[i] {
                Some(o) => {
                    out.push(copy_output(o));
                },
                None => {
                    let mut why = "missing forward response for prompt ".to_owned();
                    push_decimal(&mut why, i as u64);
                    assert(self.outputs@[i as int] is None);
                    return Err(ParityError::PythonProtocol(why));
                },
            }
            i += 1;
        }
        Ok(out)
    }
}

/// The answers among the lines that the reference process wrote: those not blank.
pub open spec fn answers(all: Seq<Seq<char>>) -> Seq<Seq<char>>
    decreases all.len(),
{
    if all.len() == 0 {
        seq![]
    } else if blank(all.last()) {
        answers(all.drop_last())
    } else {
        answers(all.drop_last()).push(all.last())
    }
}

/// The lines of the reference process's output that hold answers.
pub fn answer_lines(stdout: &str) -> (res: Vec<String>)
    ensures
        res@.map_values(|l: String| l@) == answers(lines(stdout@)),
{
    let all = split_lines(stdout);
    let ghost texts = lines(stdout@);
    let mut out: Vec<String> = Vec::new();
    let mut i: usize = 0;
    assert(all@.len() == texts.len());
    assert(out@.map_values(|l: String| l@) =~= seq![]);
    while i < all.len()
        invariant
            i <= all@.len(),
            texts == all@.map_values(|l: String| l@),
            out@.map_values(|l: String| l@) == answers(texts.take(i as int)),
        decreases all.len() - i,
    {
        let ghost before = out@;
        assert(texts.take(i + 1).drop_last() =~= texts.take(i as int));
        assert(texts[i as int] == all@[i as int]@);
        if !is_blank(all[i].as_str()) {
            out.push(all[i].clone());
            assert(out@.map_values(|l: String| l@) =~= before.map_values(|l: String| l@).push(
                texts[i as int],
            ));
        }
        i += 1;
    }
    assert(texts.take(i as int) =~= texts);
    out
}

/// A prompt is asked for exactly when its output is not cached: every such prompt is listed
/// once, in order, and no other.
pub proof fn only_missing_prompts_are_asked_for(
    entries: Seq<(Vec<u32>, ReferenceOutput)>,
    prompts: Seq<Seq<u32>>,
    p: usize,
)
    requires
        prompts.len() <= usize::MAX,
    ensures
        not_cached(entries, prompts).contains(p) <==> p < prompts.len() && forall|k: int|
            0 <= k < entries.len() ==> (#[trigger] entries[k]).0@ != prompts[p as int],
        forall|i: int, j: int|
            0 <= i < j < not_cached(entries, prompts).len() ==> not_cached(entries, prompts)[i]
                < not_cached(entries, prompts)[j],
        forall|i: int|
            0 <= i < not_cached(entries, prompts).len() ==> (#[trigger] not_cached(
                entries,
                prompts,
            )[i]) < prompts.len(),
    decreases prompts.len(),
{
    if prompts.len() > 0 {
        let front = prompts.drop_last();
        let before = not_cached(entries, front);
        let now = not_cached(entries, prompts);
        only_missing_prompts_are_asked_for(entries, front, p);
        cached_outputs_are_entries(entries, prompts.last());
        if p < front.len() {
            assert(front[p as int] == prompts[p as int]);
        }
        if cached(entries, prompts.last()) is None {
            assert(now == before.push((prompts.len() - 1) as usize));
            assert(now[before.len() as int] == prompts.len() - 1);
            if before.contains(p) {
                let q = before.index_of(p);
                assert(now[q] == p);
            }
            if now.contains(p) && p != prompts.len() - 1 {
                let q = now.index_of(p);
                assert(before[q] == p);
            }
        }
    }
}

/// What is cached of a prompt is the output stored for just that prompt; nothing is cached of a
/// prompt that nothing was stored for.
pub proof fn cached_outputs_are_entries(
    entries: Seq<(Vec<u32>, ReferenceOutput)>,
    tokens: Seq<u32>,
)
    ensures
        match cached(entries, tokens) {
            Some(o) => exists|k: int|
                0 <= k < entries.len() && (#[trigger] entries[k]).0@ == tokens && entries[k].1@ == o,
            None => forall|k: int| 0 <= k < entries.len() ==> (#[trigger] entries[k]).0@ != tokens,
        },
    decreases entries.len(),
{
    if entries.len() > 0 {
        let front = entries.drop_last();
        cached_outputs_are_entries(front, tokens);
        assert(entries[entries.len() - 1] == entries.last());
        if entries.last().0@ != tokens {
            match cached(front, tokens) {
                Some(o) => {
                    let k = choose|k: int|
                        0 <= k < front.len() && (#[trigger] front[k]).0@ == tokens && front[k].1@
                            == o;
                    assert(entries[k].0@ == tokens);
                },
                None => {
                    assert forall|k: int| 0 <= k < entries.len() implies (#[trigger] entries[k]).0@
                        != tokens by {
                        if k < front.len() {
                            assert(front[k].0@ != tokens);
                        }
                    }
                },
            }
        }
    }
}

/// The reference runs in the three floating-point dtypes that it knows, and in no other.
pub proof fn reference_dtypes_are_the_three(dtype: String, res: Result<ReferenceDtype, ParityError>)
    requires
        call_ensures(ReferenceDtype::new, (dtype,), res),
    ensures
        res is Ok <==> dtype@ == "bfloat16"@ || dtype@ == "float16"@ || dtype@ == "float32"@,
        res is Ok ==> res->Ok_0.0@ == dtype@,
{
}

} // verus!
