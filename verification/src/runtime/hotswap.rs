//! Hot swap of the running artifact: check the candidate, drain, switch over.

use vstd::prelude::*;

use crate::ir::types::Dtype;
use crate::runtime::error::RuntimeError;

verus! {

/// What a tensor of an artifact is for.
#[derive(Debug, Clone, Copy, PartialEq, Eq, Structural)]
pub enum IoTensorKind {
    Input,
    Output,
    Weight,
}

/// A tensor of an artifact.
#[derive(Debug, Clone, PartialEq, Eq)]
pub struct IoTensor {
    pub name: String,
    pub shape: Vec<usize>,
    pub dtype: Dtype,
    pub kind: IoTensorKind,
}

/// The tensors of an artifact.
#[derive(Debug, Clone, PartialEq, Eq)]
pub struct IoManifest {
    pub tensors: Vec<IoTensor>,
}

/// Why a candidate artifact does not accept the inputs of the running one.
#[derive(Debug, Clone, PartialEq, Eq)]
pub enum InputMismatch {
    /// The number of inputs differs.
    Count { old_count: usize, new_count: usize },
    /// An input is missing.
    Missing { name: String },
    /// An input's shape changed.
    Shape { name: String, old_shape: Vec<usize>, new_shape: Vec<usize> },
    /// An input's dtype changed.
    Type { name: String, old_dtype: Dtype, new_dtype: Dtype },
}

/// An [`InputMismatch`] with its name and shapes as sequences.
pub enum MismatchView {
    Count { old_count: nat, new_count: nat },
    Missing { name: Seq<char> },
    Shape { name: Seq<char>, old_shape: Seq<usize>, new_shape: Seq<usize> },
    Type { name: Seq<char>, old_dtype: Dtype, new_dtype: Dtype },
}

impl View for InputMismatch {
    type V = MismatchView;

    open spec fn view(&self) -> MismatchView {
        match *self {
            InputMismatch::Count { old_count, new_count } => MismatchView::Count {
                old_count: old_count as nat,
                new_count: new_count as nat,
            },
            InputMismatch::Missing { name } => MismatchView::Missing { name: name@ },
            InputMismatch::Shape { name, old_shape, new_shape } => MismatchView::Shape {
                name: name@,
                old_shape: old_shape@,
                new_shape: new_shape@,
            },
            InputMismatch::Type { name, old_dtype, new_dtype } => MismatchView::Type {
                name: name@,
                old_dtype,
                new_dtype,
            },
        }
    }
}

/// The inputs among some tensors.
pub open spec fn inputs(tensors: Seq<IoTensor>) -> Seq<IoTensor>
    decreases tensors.len(),
{
    if tensors.len() == 0 {
        seq![]
    } else if tensors.last().kind == IoTensorKind::Input {
        inputs(tensors.drop_last()).push(tensors.last())
    } else {
        inputs(tensors.drop_last())
    }
}

/// The first tensor of a name.
pub open spec fn named(tensors: Seq<IoTensor>, name: Seq<char>) -> Option<IoTensor>
    decreases tensors.len(),
{
    if tensors.len() == 0 {
        None
    } else if tensors[0].name@ == name {
        Some(tensors[0])
    } else {
        named(tensors.drop_first(), name)
    }
}

/// What is wrong with the candidate's input of the same name: it is missing, or its shape
/// or dtype changed.
pub open spec fn input_fault(old_t: IoTensor, new_inputs: Seq<IoTensor>) -> Option<MismatchView> {
    match named(new_inputs, old_t.name@) {
        None => Some(MismatchView::Missing { name: old_t.name@ }),
        Some(new_t) => if new_t.shape@ != old_t.shape@ {
            Some(
                MismatchView::Shape {
                    name: old_t.name@,
                    old_shape: old_t.shape@,
                    new_shape: new_t.shape@,
                },
            )
        } else if new_t.dtype != old_t.dtype {
            Some(
                MismatchView::Type {
                    name: old_t.name@,
                    old_dtype: old_t.dtype,
                    new_dtype: new_t.dtype,
                },
            )
        } else {
            None
        },
    }
}

/// Whether a candidate accepts what the running artifact accepts: as many inputs, and for
/// each of them one of the same name, shape and dtype. Outputs may differ.
pub open spec fn compatible(old_inputs: Seq<IoTensor>, new_inputs: Seq<IoTensor>) -> bool {
    &&& old_inputs.len() == new_inputs.len()
    &&& forall|i: int|
        0 <= i < old_inputs.len() ==> input_fault(#[trigger] old_inputs[i], new_inputs) is None
}

/// Whether a mismatch is the one to report: the count, or the first input at fault.
pub open spec fn reported(
    old_inputs: Seq<IoTensor>,
    new_inputs: Seq<IoTensor>,
    m: MismatchView,
) -> bool {
    if old_inputs.len() != new_inputs.len() {
        m == MismatchView::Count { old_count: old_inputs.len(), new_count: new_inputs.len() }
    } else {
        exists|i: int|
            {
                &&& 0 <= i < old_inputs.len()
                &&& input_fault(#[trigger] old_inputs[i], new_inputs) == Some(m)
                &&& forall|j: int|
                    0 <= j < i ==> input_fault(#[trigger] old_inputs[j], new_inputs) is None
            }
    }
}

/// The places of the inputs among some tensors.
fn input_places(tensors: &Vec<IoTensor>) -> (res: Vec<usize>)
    ensures
        res@.len() == inputs(tensors@).len(),
        forall|i: int|
            0 <= i < res@.len() ==> (#[trigger] res@[i]) < tensors@.len() && tensors@[res@[i] as int]
                == inputs(tensors@)[i],
{
    let mut out: Vec<usize> = Vec::new();
    let mut i: usize = 0;
    while i < tensors.len()
        invariant
            i <= tensors@.len(),
            out@.len() == inputs(tensors@.take(i as int)).len(),
            forall|k: int|
                0 <= k < out@.len() ==> (#[trigger] out@[k]) < i && tensors@[out@[k] as int]
                    == inputs(tensors@.take(i as int))[k],
        decreases tensors.len() - i,
    {
        assert(tensors@.take(i + 1).drop_last() =~= tensors@.take(i as int));
        if tensors[i].kind == IoTensorKind::Input {
            out.push(i);
        }
        i += 1;
    }
    assert(tensors@.take(i as int) =~= tensors@);
    out
}

fn copy_shape(v: &Vec<usize>) -> (res: Vec<usize>)
    ensures
        res@ == v@,
{
    let mut out: Vec<usize> = Vec::new();
    let mut i: usize = 0;
    while i < v.len()
        invariant
            i <= v@.len(),
            out@ == v@.take(i as int),
        decreases v.len() - i,
    {
        out.push(v[i]);
        i += 1;
        assert(out@ =~= v@.take(i as int));
    }
    assert(out@ =~= v@);
    out
}

fn same_shape(a: &Vec<usize>, b: &Vec<usize>) -> (res: bool)
    ensures
        res == (a@ == b@),
{
    if a.len() != b.len() {
        return false;
    }
    let mut i: usize = 0;
    while i < a.len()
        invariant
            i <= a@.len(),
            a@.len() == b@.len(),
            forall|j: int| 0 <= j < i ==> a@[j] == b@[j],
        decreases a.len() - i,
    {
        if a[i] != b[i] {
            return false;
        }
        i += 1;
    }
    assert(a@ =~= b@);
    true
}

/// Why the candidate is incompatible; `None` if it is a valid target of a swap.
pub fn describe_mismatch(old: &IoManifest, new: &IoManifest) -> (res: Option<InputMismatch>)
    ensures
        res is None <==> compatible(inputs(old.tensors@), inputs(new.tensors@)),
        res matches Some(m) ==> reported(inputs(old.tensors@), inputs(new.tensors@), m@),
{
    let ghost oi = inputs(old.tensors@);
    let ghost ni = inputs(new.tensors@);
    let olds = input_places(&old.tensors);
    let news = input_places(&new.tensors);
    if olds.len() != news.len() {
        return Some(InputMismatch::Count { old_count: olds.len(), new_count: news.len() });
    }
    let mut i: usize = 0;
    while i < olds.len()
        invariant
            i <= olds@.len(),
            oi == inputs(old.tensors@),
            ni == inputs(new.tensors@),
            olds@.len() == oi.len(),
            news@.len() == ni.len(),
            oi.len() == ni.len(),
            forall|k: int|
                0 <= k < olds@.len() ==> (#[trigger] olds@[k]) < old.tensors@.len()
                    && old.tensors@[olds@[k] as int] == oi[k],
            forall|k: int|
                0 <= k < news@.len() ==> (#[trigger] news@[k]) < new.tensors@.len()
                    && new.tensors@[news@[k] as int] == ni[k],
            forall|j: int| 0 <= j < i ==> input_fault(#[trigger] oi[j], ni) is None,
        decreases olds.len() - i,
    {
        assert(olds@[i as int] < old.tensors@.len());
        let old_t = &old.tensors[olds[i]];
        assert(*old_t == oi[i as int]);
        let mut found: Option<usize> = None;
        let mut k: usize = 0;
        assert(ni.skip(0) =~= ni);
        while k < news.len() && found.is_none()
            invariant
                k <= news@.len(),
                news@.len() == ni.len(),
                forall|q: int|
                    0 <= q < news@.len() ==> (#[trigger] news@[q]) < new.tensors@.len()
                        && new.tensors@[news@[q] as int] == ni[q],
                found is None ==> named(ni, old_t.name@) == named(ni.skip(k as int), old_t.name@),
                found matches Some(p) ==> p < new.tensors@.len() && named(ni, old_t.name@) == Some(
                    new.tensors@[p as int],
                ),
            decreases news.len() - k,
        {
            assert(news@[k as int] < new.tensors@.len());
            assert(ni.skip(k as int).drop_first() =~= ni.skip(k + 1));
            assert(ni.skip(k as int)[0] == ni[k as int]);
            if new.tensors[news[k]].name == old_t.name {
                found = Some(news[k]);
            }
            k += 1;
        }
        match found {
            None => {
                let m = InputMismatch::Missing { name: old_t.name.clone() };
                assert(input_fault(oi[i as int], ni) == Some(m@));
                return Some(m);
            },
            Some(p) => {
                let new_t = &new.tensors[p];
                if !same_shape(&new_t.shape, &old_t.shape) {
                    let m = InputMismatch::Shape {
                        name: old_t.name.clone(),
                        old_shape: copy_shape(&old_t.shape),
                        new_shape: copy_shape(&new_t.shape),
                    };
                    assert(input_fault(oi[i as int], ni) == Some(m@));
                    return Some(m);
                }
                if new_t.dtype != old_t.dtype {
                    let m = InputMismatch::Type {
                        name: old_t.name.clone(),
                        old_dtype: old_t.dtype,
                        new_dtype: new_t.dtype,
                    };
                    assert(input_fault(oi[i as int], ni) == Some(m@));
                    return Some(m);
                }
            },
        }
        i += 1;
    }
    None
}

/// Checks that a candidate can take over from the running artifact.
pub fn verify_shape_compatibility(old: &IoManifest, new: &IoManifest) -> (res: Result<
    (),
    RuntimeError,
>)
    ensures
        res is Ok <==> compatible(inputs(old.tensors@), inputs(new.tensors@)),
        res is Err ==> res->Err_0 is IncompatibleArtifact && reported(
            inputs(old.tensors@),
            inputs(new.tensors@),
            res->Err_0->reason@,
        ),
{
    match describe_mismatch(old, new) {
        Some(reason) => Err(RuntimeError::IncompatibleArtifact { reason }),
        None => Ok(()),
    }
}

/// Every artifact is compatible with itself, if its inputs have different names: a swap
/// to the same artifact is always accepted.
pub proof fn artifacts_accept_themselves(ts: Seq<IoTensor>)
    requires
        forall|i: int, j: int|
            0 <= i < j < inputs(ts).len() ==> inputs(ts)[i].name@ != inputs(ts)[j].name@,
    ensures
        compatible(inputs(ts), inputs(ts)),
{
    let all = inputs(ts);
    assert forall|i: int| 0 <= i < all.len() implies input_fault(#[trigger] all[i], all) is None by {
        first_of_its_name(all, i);
    }
}

proof fn first_of_its_name(ts: Seq<IoTensor>, i: int)
    requires
        0 <= i < ts.len(),
        forall|a: int, b: int| 0 <= a < b < ts.len() ==> ts[a].name@ != ts[b].name@,
    ensures
        named(ts, ts[i].name@) == Some(ts[i]),
    decreases ts.len(),
{
    if i > 0 {
        let rest = ts.drop_first();
        assert forall|a: int, b: int| 0 <= a < b < rest.len() implies rest[a].name@
            != rest[b].name@ by {
            assert(ts[a + 1].name@ != ts[b + 1].name@);
        }
        first_of_its_name(rest, i - 1);
        assert(ts[0].name@ != ts[i].name@);
    }
}

/// What draining does next.
#[derive(Debug, Clone, PartialEq, Eq)]
pub enum DrainStep {
    /// Nothing is in flight.
    Done,
    /// Wait a little and look again.
    Wait,
    /// The time is over.
    TimedOut(RuntimeError),
}

/// Decides on the requests in flight: done once there are none, even at the deadline.
pub fn drain_step(remaining: usize, past_deadline: bool, timeout_seconds: u64) -> (res: DrainStep)
    ensures
        res == if remaining == 0 {
            DrainStep::Done
        } else if past_deadline {
            DrainStep::TimedOut(
                RuntimeError::DrainTimeout {
                    remaining: remaining as u32,
                    timeout_seconds: timeout_seconds as u32,
                },
            )
        } else {
            DrainStep::Wait
        },
{
    if remaining == 0 {
        return DrainStep::Done;
    }
    if past_deadline {
        return DrainStep::TimedOut(
            RuntimeError::DrainTimeout {
                remaining: (#[verifier::truncate]
                (remaining as u32)),
                timeout_seconds: (#[verifier::truncate]
                (timeout_seconds as u32)),
            },
        );
    }
    DrainStep::Wait
}

/// Where a swap stands.
#[derive(Debug, Clone, Copy, PartialEq, Eq, Structural)]
pub enum SwapStep {
    /// Check the candidate.
    Verify,
    /// Let the requests in flight finish.
    Drain,
    /// Point the artifact link at the candidate.
    Relink,
    /// The candidate serves.
    Done,
    /// The running artifact keeps serving.
    Aborted,
}

/// The step that follows, by whether the current one succeeded.
pub open spec fn following(step: SwapStep, succeeded: bool) -> SwapStep {
    match step {
        SwapStep::Verify => if succeeded {
            SwapStep::Drain
        } else {
            SwapStep::Aborted
        },
        SwapStep::Drain => if succeeded {
            SwapStep::Relink
        } else {
            SwapStep::Aborted
        },
        SwapStep::Relink => if succeeded {
            SwapStep::Done
        } else {
            SwapStep::Aborted
        },
        SwapStep::Done => SwapStep::Done,
        SwapStep::Aborted => SwapStep::Aborted,
    }
}

/// The swap of the artifacts under a directory.
#[derive(Debug, Clone, PartialEq, Eq)]
pub struct HotSwap {
    pub artifacts_dir: String,
    pub drain_timeout_seconds: u64,
}

impl HotSwap {
    pub fn new(artifacts_dir: String, drain_timeout_seconds: u64) -> (res: Self)
        ensures
            res.artifacts_dir == artifacts_dir,
            res.drain_timeout_seconds == drain_timeout_seconds,
    {
        HotSwap { artifacts_dir, drain_timeout_seconds }
    }

    /// The step that follows in a swap.
    pub fn next_step(&self, step: SwapStep, succeeded: bool) -> (res: SwapStep)
        ensures
            res == following(step, succeeded),
    {
        match step {
            SwapStep::Verify => if succeeded {
                SwapStep::Drain
            } else {
                SwapStep::Aborted
            },
            SwapStep::Drain => if succeeded {
                SwapStep::Relink
            } else {
                SwapStep::Aborted
            },
            SwapStep::Relink => if succeeded {
                SwapStep::Done
            } else {
                SwapStep::Aborted
            },
            SwapStep::Done => SwapStep::Done,
            SwapStep::Aborted => SwapStep::Aborted,
        }
    }
}

/// Where a swap stands after its steps had the given outcomes.
pub open spec fn swap_after(outcomes: Seq<bool>) -> SwapStep
    decreases outcomes.len(),
{
    if outcomes.len() == 0 {
        SwapStep::Verify
    } else {
        following(swap_after(outcomes.drop_last()), outcomes.last())
    }
}

/// The link is touched only after the candidate was found compatible and the requests in
/// flight were drained; and draining starts only after the candidate was found compatible.
pub proof fn link_is_touched_last(outcomes: Seq<bool>)
    ensures
        swap_after(outcomes) == SwapStep::Drain ==> outcomes =~= seq![true],
        swap_after(outcomes) == SwapStep::Relink ==> outcomes =~= seq![true, true],
        outcomes.len() > 0 && !outcomes[0] ==> swap_after(outcomes) == SwapStep::Aborted,
        outcomes.len() > 0 ==> swap_after(outcomes) != SwapStep::Verify,
    decreases outcomes.len(),
{
    if outcomes.len() > 0 {
        let front = outcomes.drop_last();
        link_is_touched_last(front);
        assert(outcomes =~= front.push(outcomes.last()));
    }
}

/// The inputs of an artifact are its tensors that are inputs, all of them, in order; what else
/// it has does not count.
pub proof fn inputs_are_the_inputs(a: Seq<IoTensor>, b: Seq<IoTensor>, t: IoTensor)
    ensures
        inputs(a).contains(t) <==> a.contains(t) && t.kind == IoTensorKind::Input,
        inputs(a + b) == inputs(a) + inputs(b),
        inputs(a).len() <= a.len(),
    decreases a.len() + b.len(),
{
    if b.len() > 0 {
        inputs_are_the_inputs(a, b.drop_last(), t);
        assert((a + b).drop_last() =~= a + b.drop_last());
        assert((a + b).last() == b.last());
        assert(inputs(a + b) =~= inputs(a) + inputs(b));
    } else {
        assert(a + b =~= a);
        assert(inputs(a) + inputs(b) =~= inputs(a));
        if a.len() > 0 {
            let front = a.drop_last();
            inputs_are_the_inputs(front, b, t);
            if a.contains(t) && t != a.last() {
                let i = a.index_of(t);
                assert(front[i] == t);
            }
            if front.contains(t) {
                let i = front.index_of(t);
                assert(a[i] == t);
            }
            assert(a[a.len() - 1] == a.last());
            if a.last().kind == IoTensorKind::Input {
                let now = inputs(a);
                assert(now == inputs(front).push(a.last()));
                assert(now[inputs(front).len() as int] == a.last());
                if inputs(front).contains(t) {
                    let i = inputs(front).index_of(t);
                    assert(now[i] == t);
                }
                if now.contains(t) && t != a.last() {
                    let i = now.index_of(t);
                    assert(inputs(front)[i] == t);
                }
            }
        }
    }
}

proof fn named_is_one_of_them(ts: Seq<IoTensor>, name: Seq<char>)
    ensures
        match named(ts, name) {
            Some(t) => t.name@ == name && ts.contains(t),
            None => forall|i: int| 0 <= i < ts.len() ==> (#[trigger] ts[i]).name@ != name,
        },
    decreases ts.len(),
{
    if ts.len() > 0 {
        let rest = ts.drop_first();
        named_is_one_of_them(rest, name);
        assert(ts.contains(ts[0]));
        if named(rest, name) is Some {
            let i = rest.index_of(named(rest, name)->0);
            assert(ts[i + 1] == rest[i]);
        } else {
            assert forall|i: int| 0 <= i < ts.len() && ts[0].name@ != name implies (
            #[trigger] ts[i]).name@ != name by {
                if i > 0 {
                    assert(rest[i - 1] == ts[i]);
                }
            }
        }
    }
}

/// A candidate that is let in takes what the running artifact takes: for every input of the
/// running artifact it has an input of the same name, shape and dtype, and it has no more
/// inputs than that. One that does so, with inputs of different names, is let in.
pub proof fn swaps_keep_the_inputs(old: &IoManifest, new: &IoManifest, res: Result<(), RuntimeError>)
    requires
        call_ensures(verify_shape_compatibility, (old, new), res),
    ensures
        res is Ok ==> {
            &&& inputs(old.tensors@).len() == inputs(new.tensors@).len()
            &&& forall|i: int|
                0 <= i < old.tensors@.len() && (#[trigger] old.tensors@[i]).kind
                    == IoTensorKind::Input ==> has_match(old.tensors@[i], new.tensors@)
        },
        res is Err ==> {
            ||| inputs(old.tensors@).len() != inputs(new.tensors@).len()
            ||| exists|i: int|
                0 <= i < old.tensors@.len() && (#[trigger] old.tensors@[i]).kind
                    == IoTensorKind::Input && !has_match(old.tensors@[i], new.tensors@)
            ||| !different_names(inputs(new.tensors@))
        },
{
    let o = inputs(old.tensors@);
    let n = inputs(new.tensors@);
    if res is Ok {
        assert forall|i: int|
            0 <= i < old.tensors@.len() && (#[trigger] old.tensors@[i]).kind
                == IoTensorKind::Input implies has_match(old.tensors@[i], new.tensors@) by {
            let t = old.tensors@[i];
            inputs_are_the_inputs(old.tensors@, seq![], t);
            assert(old.tensors@.contains(t));
            let k = o.index_of(t);
            assert(input_fault(o[k], n) is None);
            named_is_one_of_them(n, t.name@);
            let u = named(n, t.name@)->0;
            inputs_are_the_inputs(new.tensors@, seq![], u);
            let j = new.tensors@.index_of(u);
            assert(matches_input(t, new.tensors@[j]));
        }
    } else if o.len() == n.len() && different_names(n) {
        let k = choose|k: int|
            {
                &&& 0 <= k < o.len()
                &&& input_fault(#[trigger] o[k], n) is Some
            };
        let t = o[k];
        assert(o.contains(t));
        inputs_are_the_inputs(old.tensors@, seq![], t);
        let i = old.tensors@.index_of(t);
        if has_match(t, new.tensors@) {
            let j = choose|j: int|
                0 <= j < new.tensors@.len() && #[trigger] matches_input(t, new.tensors@[j]);
            let u = new.tensors@[j];
            assert(new.tensors@.contains(u));
            inputs_are_the_inputs(new.tensors@, seq![], u);
            let q = n.index_of(u);
            first_of_its_name(n, q);
            assert(named(n, t.name@) == Some(u));
        }
        assert(old.tensors@[i].kind == IoTensorKind::Input && !has_match(
            old.tensors@[i],
            new.tensors@,
        ));
    }
}

/// Whether a tensor is an input of the same name, shape and dtype.
pub open spec fn matches_input(t: IoTensor, u: IoTensor) -> bool {
    &&& u.kind == IoTensorKind::Input
    &&& u.name@ == t.name@
    &&& u.shape@ == t.shape@
    &&& u.dtype == t.dtype
}

/// Whether some tensors have an input of the same name, shape and dtype.
pub open spec fn has_match(t: IoTensor, tensors: Seq<IoTensor>) -> bool {
    exists|j: int| 0 <= j < tensors.len() && #[trigger] matches_input(t, tensors[j])
}

/// Whether no two tensors have the same name.
pub open spec fn different_names(ts: Seq<IoTensor>) -> bool {
    forall|a: int, b: int| 0 <= a < b < ts.len() ==> ts[a].name@ != ts[b].name@
}

/// A swap is over with the candidate serving exactly when checking, draining and relinking all
/// went well; as soon as one of them fails, the running artifact keeps serving.
pub proof fn swaps_succeed_as_a_whole(outcomes: Seq<bool>)
    ensures
        swap_after(outcomes) == SwapStep::Done <==> outcomes.len() >= 3 && outcomes[0]
            && outcomes[1] && outcomes[2],
        swap_after(outcomes) == SwapStep::Aborted <==> exists|i: int|
            0 <= i < outcomes.len() && i < 3 && !#[trigger] outcomes[i],
    decreases outcomes.len(),
{
    if outcomes.len() > 0 {
        let front = outcomes.drop_last();
        let last = outcomes.len() - 1;
        swaps_succeed_as_a_whole(front);
        link_is_touched_last(front);
        assert(forall|i: int| 0 <= i < front.len() ==> front[i] == outcomes[i]);
        if swap_after(front) == SwapStep::Aborted {
            let i = choose|i: int| 0 <= i < front.len() && i < 3 && !#[trigger] front[i];
            assert(!outcomes[i]);
        }
        if exists|i: int| 0 <= i < outcomes.len() && i < 3 && !#[trigger] outcomes[i] {
            let i = choose|i: int| 0 <= i < outcomes.len() && i < 3 && !#[trigger] outcomes[i];
            if i < last {
                assert(!front[i]);
            }
        }
        if front.len() < 3 && swap_after(front) != SwapStep::Aborted {
            if front.len() == 0 {
                assert(swap_after(front) == SwapStep::Verify);
            } else if front.len() == 1 {
                assert(front[0]);
                assert(front =~= seq![true]);
                assert(front.drop_last() =~= seq![]);
                assert(swap_after(front.drop_last()) == SwapStep::Verify);
            } else {
                assert(front[0] && front[1]);
                assert(front.drop_last() =~= seq![true]);
                assert(front.drop_last().drop_last() =~= seq![]);
                assert(swap_after(front.drop_last().drop_last()) == SwapStep::Verify);
                assert(swap_after(front.drop_last()) == SwapStep::Drain);
            }
        }
    }
}

/// Draining ends well exactly when nothing is in flight, whatever the clock says; it gives up
/// only past the deadline, and says how many were left.
pub proof fn draining_waits_for_all(
    remaining: usize,
    past_deadline: bool,
    timeout_seconds: u64,
    res: DrainStep,
)
    requires
        call_ensures(drain_step, (remaining, past_deadline, timeout_seconds), res),
    ensures
        res is Done <==> remaining == 0,
        res is TimedOut ==> past_deadline,
        res is Wait ==> !past_deadline,
        res is TimedOut && remaining <= u32::MAX && timeout_seconds <= u32::MAX ==> res->TimedOut_0
            == (RuntimeError::DrainTimeout {
            remaining: remaining as u32,
            timeout_seconds: timeout_seconds as u32,
        }),
{
}

} // verus!
