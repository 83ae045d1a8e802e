//! The verdict on measured errors and divergences.

use vstd::prelude::*;

use crate::ieee::Ieee64;
use crate::ir::plan::{PerLayerDtype, Plan};
use crate::ir::types::Dtype;
use crate::parity::report::{FailingLayerReport, ParityReport, PerPromptReport};
use crate::parity::tolerance::{
    allowed_by, dominant, dominant_dtype_at_layer, dtypes_at, plain_layers_have_the_bf16_tolerance,
    tolerance_at, tolerance_for_layer, tolerance_is_the_layers_own, ToleranceTable,
};

verus! {

/// Whether prompt `p` is out of tolerance at layer `l`: its error is not within the
/// tolerance, as one that is no number never is.
pub open spec fn violates(
    reports: Seq<PerPromptReport>,
    layers: Seq<PerLayerDtype>,
    t: ToleranceTable,
    p: int,
    l: int,
) -> bool {
    !reports[p].per_layer_mse@[l].at_most(tolerance_at(layers, l, t))
}

/// The prompts among the first `n` that are out of tolerance at a layer.
pub open spec fn violators(
    reports: Seq<PerPromptReport>,
    layers: Seq<PerLayerDtype>,
    t: ToleranceTable,
    l: int,
    n: int,
) -> Seq<usize>
    decreases n,
{
    if n <= 0 {
        seq![]
    } else if violates(reports, layers, t, n - 1, l) {
        violators(reports, layers, t, l, n - 1).push((n - 1) as usize)
    } else {
        violators(reports, layers, t, l, n - 1)
    }
}

/// The worst error that the first `n` prompts have at a layer out of its tolerance: the
/// greatest, where none is no number.
pub open spec fn peak(
    reports: Seq<PerPromptReport>,
    layers: Seq<PerLayerDtype>,
    t: ToleranceTable,
    l: int,
    n: int,
) -> Option<Ieee64>
    decreases n,
{
    if n <= 0 {
        None
    } else {
        let before = peak(reports, layers, t, l, n - 1);
        let m = reports[n - 1].per_layer_mse@[l];
        if !violates(reports, layers, t, n - 1, l) {
            before
        } else if before is Some && !m.exceeds(before->0) {
            before
        } else {
            Some(m)
        }
    }
}

/// The peak is the worst: it is measured at one of the violators, no violator's error is
/// worse, and where it is a number no violator's error is greater.
pub proof fn peak_is_the_worst(
    reports: Seq<PerPromptReport>,
    layers: Seq<PerLayerDtype>,
    t: ToleranceTable,
    l: int,
    n: int,
    p: int,
)
    requires
        0 <= p < n,
        violates(reports, layers, t, p, l),
    ensures
        peak(reports, layers, t, l, n) is Some,
        !reports[p].per_layer_mse@[l].exceeds(peak(reports, layers, t, l, n)->0),
        !peak(reports, layers, t, l, n)->0.nan() ==> reports[p].per_layer_mse@[l].at_most(
            peak(reports, layers, t, l, n)->0,
        ),
        exists|q: int|
            {
                &&& 0 <= q < n
                &&& #[trigger] violates(reports, layers, t, q, l)
                &&& reports[q].per_layer_mse@[l] == peak(reports, layers, t, l, n)->0
            },
    decreases n,
{
    if p < n - 1 {
        peak_is_the_worst(reports, layers, t, l, n - 1, p);
    } else if peak(reports, layers, t, l, n - 1) is Some {
        violators_found(reports, layers, t, l, n - 1);
        let q = choose|q: int| 0 <= q < n - 1 && #[trigger] violates(reports, layers, t, q, l);
        peak_is_the_worst(reports, layers, t, l, n - 1, q);
    }
}

/// Whether a layer's failure is no less bad than another's: more prompts are out of
/// tolerance, or as many and by no less.
pub open spec fn no_less_bad(
    reports: Seq<PerPromptReport>,
    layers: Seq<PerLayerDtype>,
    t: ToleranceTable,
    l: int,
    other: int,
) -> bool {
    let n = reports.len() as int;
    let a = violators(reports, layers, t, l, n).len();
    let b = violators(reports, layers, t, other, n).len();
    ||| a > b
    ||| a == b && !(peak(reports, layers, t, other, n)->0.exceeds(peak(reports, layers, t, l, n)->0))
}

/// Whether a layer has a violator.
pub open spec fn fails(
    reports: Seq<PerPromptReport>,
    layers: Seq<PerLayerDtype>,
    t: ToleranceTable,
    l: int,
) -> bool {
    violators(reports, layers, t, l, reports.len() as int).len() > 0
}

/// Whether a report on a failing layer is right: the layer is the worst of those that fail.
pub open spec fn failure_of(
    reports: Seq<PerPromptReport>,
    layers: Seq<PerLayerDtype>,
    t: ToleranceTable,
    num_blocks: int,
    f: FailingLayerReport,
) -> bool {
    let l = f.layer_idx as int;
    let n = reports.len() as int;
    &&& 0 <= l < num_blocks
    &&& fails(reports, layers, t, l)
    &&& f.prompts_violating@ == violators(reports, layers, t, l, n)
    &&& Some(f.measured_mse) == peak(reports, layers, t, l, n)
    &&& f.tolerance == tolerance_at(layers, l, t)
    &&& (f.component, f.dtype) == dominant(dtypes_at(layers, l))
    &&& forall|o: int|
        0 <= o < num_blocks && #[trigger] fails(reports, layers, t, o) ==> no_less_bad(
            reports,
            layers,
            t,
            l,
            o,
        )
}

proof fn violators_found(
    reports: Seq<PerPromptReport>,
    layers: Seq<PerLayerDtype>,
    t: ToleranceTable,
    l: int,
    n: int,
)
    requires
        n >= 0,
    ensures
        violators(reports, layers, t, l, n).len() > 0 <==> exists|p: int|
            0 <= p < n && #[trigger] violates(reports, layers, t, p, l),
        violators(reports, layers, t, l, n).len() > 0 <==> peak(reports, layers, t, l, n) is Some,
    decreases n,
{
    if n > 0 {
        violators_found(reports, layers, t, l, n - 1);
        if violates(reports, layers, t, n - 1, l) {
        } else if exists|p: int| 0 <= p < n && #[trigger] violates(reports, layers, t, p, l) {
            let p = choose|p: int| 0 <= p < n && #[trigger] violates(reports, layers, t, p, l);
            assert(p < n - 1);
        }
    }
}

/// The worst layer out of tolerance, if there is one.
pub fn find_failing_layer(
    reports: &Vec<PerPromptReport>,
    plan: &Plan,
    tolerances: &ToleranceTable,
    num_blocks: usize,
) -> (res: Option<FailingLayerReport>)
    requires
        forall|p: int|
            0 <= p < reports@.len() ==> (#[trigger] reports@[p]).per_layer_mse@.len() == num_blocks,
    ensures
        ({
            let layers = plan.dtype_map.per_layer@;
            match res {
                None => forall|l: int|
                    0 <= l < num_blocks ==> !#[trigger] fails(reports@, layers, *tolerances, l),
                Some(f) => failure_of(reports@, layers, *tolerances, num_blocks as int, f),
            }
        }),
{
    let ghost layers = plan.dtype_map.per_layer@;
    let ghost t = *tolerances;
    let n: usize = reports.len();
    let mut best: Option<FailingLayerReport> = None;
    let mut l: usize = 0;
    while l < num_blocks
        invariant
            l <= num_blocks,
            n == reports@.len(),
            layers == plan.dtype_map.per_layer@,
            t == *tolerances,
            forall|p: int|
                0 <= p < n ==> (#[trigger] reports@[p]).per_layer_mse@.len() == num_blocks,
            best is None ==> forall|k: int|
                0 <= k < l ==> !#[trigger] fails(reports@, layers, t, k),
            best matches Some(f) ==> failure_of(reports@, layers, t, l as int, f),
        decreases num_blocks - l,
    {
        let tol = tolerance_for_layer(l, plan, tolerances);
        let mut prompts: Vec<usize> = Vec::new();
        let mut measured: Option<Ieee64> = None;
        let mut p: usize = 0;
        while p < n
            invariant
                p <= n,
                l < num_blocks,
                n == reports@.len(),
                tol == tolerance_at(layers, l as int, t),
                forall|q: int|
                    0 <= q < n ==> (#[trigger] reports@[q]).per_layer_mse@.len() == num_blocks,
                prompts@ == violators(reports@, layers, t, l as int, p as int),
                measured == peak(reports@, layers, t, l as int, p as int),
            decreases n - p,
        {
            assert(reports@[p as int].per_layer_mse@.len() == num_blocks);
            let m = reports[p].per_layer_mse[l];
            if !m.le(tol) {
                prompts.push(p);
                match measured {
                    Some(q) => {
                        if m.is_worse_than(q) {
                            measured = Some(m);
                        }
                    },
                    None => {
                        measured = Some(m);
                    },
                }
            }
            p += 1;
        }
        proof {
            violators_found(reports@, layers, t, l as int, n as int);
        }
        if let Some(m) = measured {
            let mut worse = true;
            if let Some(b) = &best {
                worse = prompts.len() > b.prompts_violating.len() || (prompts.len()
                    == b.prompts_violating.len() && m.is_worse_than(b.measured_mse));
                proof {
                    if worse {
                        assert forall|o: int|
                            0 <= o < l + 1 && #[trigger] fails(reports@, layers, t, o) implies no_less_bad(
                            reports@,
                            layers,
                            t,
                            l as int,
                            o,
                        ) by {
                            if o < l {
                                assert(no_less_bad(reports@, layers, t, b.layer_idx as int, o));
                                        }
                        }
                    } else {
                        assert(no_less_bad(reports@, layers, t, b.layer_idx as int, l as int));
                    }
                }
            }
            if worse {
                let (component, dtype) = dominant_dtype_at_layer(plan, l);
                best = Some(
                    FailingLayerReport {
                        layer_idx: l,
                        component,
                        dtype,
                        measured_mse: m,
                        tolerance: tol,
                        prompts_violating: prompts,
                    },
                );
            }
        }
        l += 1;
    }
    best
}

/// The greatest of the prompts' divergences, and at least zero.
pub open spec fn worst_kl(reports: Seq<PerPromptReport>) -> Ieee64
    decreases reports.len(),
{
    if reports.len() == 0 {
        Ieee64::zero_spec()
    } else {
        worst_kl(reports.drop_last()).larger(reports.last().final_kl)
    }
}

/// The divergences of some prompts.
pub open spec fn final_kls(reports: Seq<PerPromptReport>) -> Seq<Ieee64> {
    reports.map_values(|r: PerPromptReport| r.final_kl)
}

/// Whether a report is the verdict on some measurements.
pub open spec fn verdict(
    report: ParityReport,
    layers: Seq<PerLayerDtype>,
    t: ToleranceTable,
    num_blocks: int,
    slo_max_drift: Ieee64,
) -> bool {
    let reports = report.per_prompt@;
    &&& report.num_prompts == reports.len()
    &&& report.slo_max_drift == slo_max_drift
    &&& report.max_final_kl == worst_kl(reports)
    &&& report.failing_layer is None <==> forall|l: int|
        0 <= l < num_blocks ==> !#[trigger] fails(reports, layers, t, l)
    &&& report.failing_layer matches Some(f) ==> failure_of(reports, layers, t, num_blocks, f)
    &&& report.passed <==> report.avg_final_kl.at_most(slo_max_drift) && report.failing_layer
        is None
}

/// Gives the verdict on measurements whose divergences have the mean `avg_final_kl`.
pub fn judge(
    per_prompt: Vec<PerPromptReport>,
    avg_final_kl: Ieee64,
    slo_max_drift: Ieee64,
    plan: &Plan,
    tolerances: &ToleranceTable,
    num_blocks: usize,
    plan_hash: String,
    model: String,
) -> (res: ParityReport)
    requires
        forall|p: int|
            0 <= p < per_prompt@.len() ==> (#[trigger] per_prompt@[p]).per_layer_mse@.len()
                == num_blocks,
    ensures
        verdict(res, plan.dtype_map.per_layer@, *tolerances, num_blocks as int, slo_max_drift),
        res.per_prompt == per_prompt,
        res.avg_final_kl == avg_final_kl,
        res.plan_hash == plan_hash,
        res.model == model,
{
    let failing_layer = find_failing_layer(&per_prompt, plan, tolerances, num_blocks);
    let mut max_final_kl = Ieee64::zero();
    let mut i: usize = 0;
    while i < per_prompt.len()
        invariant
            i <= per_prompt@.len(),
            max_final_kl == worst_kl(per_prompt@.take(i as int)),
        decreases per_prompt.len() - i,
    {
        assert(per_prompt@.take(i + 1).drop_last() =~= per_prompt@.take(i as int));
        max_final_kl = max_final_kl.max(per_prompt[i].final_kl);
        i += 1;
    }
    assert(per_prompt@.take(i as int) =~= per_prompt@);
    let passed = avg_final_kl.le(slo_max_drift) && failing_layer.is_none();
    let num_prompts: usize = per_prompt.len();
    ParityReport {
        passed,
        plan_hash,
        model,
        num_prompts,
        per_prompt,
        avg_final_kl,
        max_final_kl,
        slo_max_drift,
        failing_layer,
    }
}

/// A plan passes exactly when every measured error is within its layer's tolerance and the
/// mean divergence is within the SLO. An error that is no number is within no tolerance.
pub proof fn passing_means_within_tolerance(
    report: ParityReport,
    layers: Seq<PerLayerDtype>,
    t: ToleranceTable,
    num_blocks: int,
    slo_max_drift: Ieee64,
)
    requires
        verdict(report, layers, t, num_blocks, slo_max_drift),
    ensures
        report.passed <==> {
            &&& report.avg_final_kl.at_most(slo_max_drift)
            &&& forall|p: int, l: int|
                0 <= p < report.per_prompt@.len() && 0 <= l < num_blocks ==> (
                #[trigger] report.per_prompt@[p].per_layer_mse@[l]).at_most(
                    tolerance_at(layers, l, t),
                )
        },
        report.failing_layer is Some ==> !report.passed,
{
    let reports = report.per_prompt@;
    let n = reports.len() as int;
    assert forall|l: int| 0 <= l < num_blocks implies (#[trigger] fails(reports, layers, t, l)
        <==> exists|p: int| 0 <= p < n && #[trigger] violates(reports, layers, t, p, l)) by {
        violators_found(reports, layers, t, l, n);
    }
    if report.failing_layer is None {
        assert forall|p: int, l: int| 0 <= p < n && 0 <= l < num_blocks implies (
        #[trigger] reports[p].per_layer_mse@[l]).at_most(tolerance_at(layers, l, t)) by {
            assert(!fails(reports, layers, t, l));
            assert(!violates(reports, layers, t, p, l));
        }
    }
}

/// Whether two lists hold the same measurements, prompt by prompt.
pub open spec fn same_measurements(a: Seq<PerPromptReport>, b: Seq<PerPromptReport>) -> bool {
    &&& a.len() == b.len()
    &&& forall|i: int|
        0 <= i < a.len() ==> {
            &&& (#[trigger] a[i]).prompt_idx == b[i].prompt_idx
            &&& a[i].per_layer_mse@ == b[i].per_layer_mse@
            &&& a[i].final_kl == b[i].final_kl
        }
}

proof fn same_violators(
    a: Seq<PerPromptReport>,
    b: Seq<PerPromptReport>,
    layers: Seq<PerLayerDtype>,
    t: ToleranceTable,
    l: int,
    n: int,
)
    requires
        same_measurements(a, b),
        0 <= n <= a.len(),
    ensures
        violators(a, layers, t, l, n) == violators(b, layers, t, l, n),
        peak(a, layers, t, l, n) == peak(b, layers, t, l, n),
    decreases n,
{
    if n > 0 {
        same_violators(a, b, layers, t, l, n - 1);
        assert(a[n - 1].per_layer_mse@ == b[n - 1].per_layer_mse@);
    }
}

proof fn same_worst_kl(a: Seq<PerPromptReport>, b: Seq<PerPromptReport>)
    requires
        same_measurements(a, b),
    ensures
        worst_kl(a) == worst_kl(b),
    decreases a.len(),
{
    if a.len() > 0 {
        same_worst_kl(a.drop_last(), b.drop_last());
        assert(a[a.len() - 1].final_kl == b[a.len() - 1].final_kl);
    }
}

/// The verdict goes by the measurements: on the same ones, with the same mean, two reports
/// pass or fail together, with the same worst divergence and the same failing layer, or
/// one that is exactly as bad.
pub proof fn same_measurements_same_verdict(
    a: ParityReport,
    b: ParityReport,
    layers: Seq<PerLayerDtype>,
    t: ToleranceTable,
    num_blocks: int,
    slo_max_drift: Ieee64,
)
    requires
        verdict(a, layers, t, num_blocks, slo_max_drift),
        verdict(b, layers, t, num_blocks, slo_max_drift),
        same_measurements(a.per_prompt@, b.per_prompt@),
        a.avg_final_kl == b.avg_final_kl,
    ensures
        a.passed == b.passed,
        a.num_prompts == b.num_prompts,
        a.max_final_kl == b.max_final_kl,
        a.slo_max_drift == b.slo_max_drift,
        a.failing_layer is Some <==> b.failing_layer is Some,
        a.failing_layer matches Some(f) ==> {
            let g = b.failing_layer->0;
            let x = f.layer_idx as int;
            let y = g.layer_idx as int;
            &&& no_less_bad(a.per_prompt@, layers, t, x, y)
            &&& no_less_bad(a.per_prompt@, layers, t, y, x)
            &&& f.prompts_violating@.len() == g.prompts_violating@.len()
            &&& x == y ==> {
                &&& f.prompts_violating@ == g.prompts_violating@
                &&& f.measured_mse == g.measured_mse
                &&& f.tolerance == g.tolerance
                &&& f.component == g.component
                &&& f.dtype == g.dtype
            }
        },
{
    let p = a.per_prompt@;
    let q = b.per_prompt@;
    let n = p.len() as int;
    same_worst_kl(p, q);
    assert forall|l: int| #[trigger] fails(p, layers, t, l) == fails(q, layers, t, l) by {
        same_violators(p, q, layers, t, l, n);
    }
    if a.failing_layer is None {
        assert forall|l: int| 0 <= l < num_blocks implies !#[trigger] fails(q, layers, t, l) by {
            assert(!fails(p, layers, t, l));
        }
    }
    if b.failing_layer is None {
        assert forall|l: int| 0 <= l < num_blocks implies !#[trigger] fails(p, layers, t, l) by {
            assert(!fails(q, layers, t, l));
        }
    }
    if a.failing_layer is Some && b.failing_layer is Some {
        let x = a.failing_layer->0.layer_idx as int;
        let y = b.failing_layer->0.layer_idx as int;
        same_violators(p, q, layers, t, x, n);
        same_violators(p, q, layers, t, y, n);
        assert(fails(p, layers, t, y) && fails(q, layers, t, x));
    }
}

/// The worst divergence of a report covers every prompt's that is a number, and is one of
/// them, or zero.
pub proof fn the_worst_divergence_covers_all(reports: Seq<PerPromptReport>, p: int)
    requires
        0 <= p < reports.len(),
    ensures
        !worst_kl(reports).nan(),
        !reports[p].final_kl.nan() ==> reports[p].final_kl.at_most(worst_kl(reports)),
        worst_kl(reports).bits == 0 || exists|q: int|
            0 <= q < reports.len() && (#[trigger] reports[q]).final_kl == worst_kl(reports),
    decreases reports.len(),
{
    let front = reports.drop_last();
    let last = reports.len() - 1;
    assert(reports.last() == reports[last]);
    if front.len() > 0 {
        let q = if p < last {
            p
        } else {
            0
        };
        the_worst_divergence_covers_all(front, q);
        assert(front[q] == reports[q]);
        if worst_kl(front).bits != 0 {
            let w = choose|w: int|
                0 <= w < front.len() && (#[trigger] front[w]).final_kl == worst_kl(front);
            assert(reports[w].final_kl == worst_kl(front));
        }
    }
}

/// The violators at a layer are the prompts whose error is not within the layer's tolerance,
/// all of them, in order and each once.
pub proof fn violators_are_those_out_of_tolerance(
    reports: Seq<PerPromptReport>,
    layers: Seq<PerLayerDtype>,
    t: ToleranceTable,
    l: int,
    n: int,
    p: usize,
)
    requires
        0 <= n <= reports.len(),
        n <= usize::MAX,
    ensures
        violators(reports, layers, t, l, n).contains(p) <==> p < n
            && !reports[p as int].per_layer_mse@[l].at_most(tolerance_at(layers, l, t)),
        forall|i: int, j: int|
            0 <= i < j < violators(reports, layers, t, l, n).len() ==> violators(
                reports,
                layers,
                t,
                l,
                n,
            )[i] < violators(reports, layers, t, l, n)[j],
        forall|i: int|
            0 <= i < violators(reports, layers, t, l, n).len() ==> #[trigger] violators(
                reports,
                layers,
                t,
                l,
                n,
            )[i] < n,
    decreases n,
{
    if n > 0 {
        let before = violators(reports, layers, t, l, n - 1);
        let now = violators(reports, layers, t, l, n);
        violators_are_those_out_of_tolerance(reports, layers, t, l, n - 1, p);
        if violates(reports, layers, t, n - 1, l) {
            assert(now == before.push((n - 1) as usize));
            assert(now[before.len() as int] == n - 1);
            if before.contains(p) {
                let q = before.index_of(p);
                assert(now[q] == p);
            }
            if now.contains(p) && p != n - 1 {
                let q = now.index_of(p);
                assert(before[q] == p);
            }
        }
    }
}

/// The layer named as failing is the worst: at no layer are more prompts out of tolerance,
/// and at none are as many out with a worse error. What is said of it is its own: its
/// tolerance, the prompts out of it, and the worst of their errors.
pub proof fn the_worst_layer_is_named(
    report: ParityReport,
    layers: Seq<PerLayerDtype>,
    t: ToleranceTable,
    num_blocks: int,
    slo_max_drift: Ieee64,
    o: int,
    p: int,
)
    requires
        verdict(report, layers, t, num_blocks, slo_max_drift),
        report.failing_layer is Some,
        0 <= o < num_blocks,
        0 <= p < report.per_prompt@.len(),
        !report.per_prompt@[p].per_layer_mse@[o].at_most(tolerance_at(layers, o, t)),
    ensures
        ({
            let f = report.failing_layer->0;
            let reports = report.per_prompt@;
            let n = reports.len() as int;
            let others = violators(reports, layers, t, o, n);
            &&& f.layer_idx < num_blocks
            &&& f.tolerance == tolerance_at(layers, f.layer_idx as int, t)
            &&& f.prompts_violating@.len() > 0
            &&& f.prompts_violating@ == violators(reports, layers, t, f.layer_idx as int, n)
            &&& others.len() <= f.prompts_violating@.len()
            &&& others.len() == f.prompts_violating@.len()
                ==> !reports[p].per_layer_mse@[o].exceeds(f.measured_mse)
            &&& o == f.layer_idx ==> !reports[p].per_layer_mse@[o].exceeds(f.measured_mse)
            &&& exists|q: int|
                0 <= q < n && (#[trigger] reports[q]).per_layer_mse@[f.layer_idx as int]
                    == f.measured_mse
        }),
{
    let f = report.failing_layer->0;
    let reports = report.per_prompt@;
    let n = reports.len() as int;
    let l = f.layer_idx as int;
    assert(violates(reports, layers, t, p, o));
    violators_found(reports, layers, t, o, n);
    assert(fails(reports, layers, t, o));
    peak_is_the_worst(reports, layers, t, o, n, p);
    violators_found(reports, layers, t, l, n);
    let q = choose|q: int| 0 <= q < n && #[trigger] violates(reports, layers, t, q, l);
    peak_is_the_worst(reports, layers, t, l, n, q);
    let w = choose|w: int|
        {
            &&& 0 <= w < n
            &&& #[trigger] violates(reports, layers, t, w, l)
            &&& reports[w].per_layer_mse@[l] == peak(reports, layers, t, l, n)->0
        };
    assert(reports[w].per_layer_mse@[l] == f.measured_mse);
}

/// A plan that passes is within what each layer's own dtypes allow: at every layer and prompt
/// the error is no greater than what the table allows one of that layer's components, or
/// zero; at a layer that is bf16 throughout, no greater than the bf16 tolerance, whatever the
/// other layers are.
pub proof fn passing_plans_keep_to_their_own_dtypes(
    report: ParityReport,
    layers: Seq<PerLayerDtype>,
    t: ToleranceTable,
    num_blocks: int,
    slo_max_drift: Ieee64,
    p: int,
    l: int,
)
    requires
        verdict(report, layers, t, num_blocks, slo_max_drift),
        report.passed,
        0 <= p < report.per_prompt@.len(),
        0 <= l < num_blocks,
        l < layers.len(),
    ensures
        exists|tol: Ieee64|
            #[trigger] allowed_by(layers[l], t, tol)
                && report.per_prompt@[p].per_layer_mse@[l].at_most(tol),
        layers[l].weight == Dtype::Bf16 && layers[l].activation == Dtype::Bf16
            && layers[l].kv_cache == Dtype::Bf16 && t.bf16.bits > 0
            && Ieee64::zero_spec().at_most(t.bf16)
            ==> report.per_prompt@[p].per_layer_mse@[l].at_most(t.bf16),
{
    let tol = tolerance_at(layers, l, t);
    passing_means_within_tolerance(report, layers, t, num_blocks, slo_max_drift);
    assert(report.per_prompt@[p].per_layer_mse@[l].at_most(tol));
    tolerance_is_the_layers_own(layers, layers, l, l, t, t);
    assert(allowed_by(layers[l], t, tol));
    if layers[l].weight == Dtype::Bf16 && layers[l].activation == Dtype::Bf16
        && layers[l].kv_cache == Dtype::Bf16 && t.bf16.bits > 0 && Ieee64::zero_spec().at_most(
        t.bf16,
    ) {
        plain_layers_have_the_bf16_tolerance(layers, l, t);
    }
}

} // verus!
