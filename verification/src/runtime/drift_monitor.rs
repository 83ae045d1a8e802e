//! Workload drift: when the live request mix has moved so far from the compile-time trace
//! that a new plan should be searched.
//!
//! A profile counts sequence lengths by bucket. Turning the counts into probabilities and
//! comparing two of them is the caller's; the decision on the divergence is made here.

use vstd::prelude::*;

use crate::ieee::Ieee64;
use crate::ir::workload::{RequestRecord, Workload};

verus! {

/// Upper edges of the length buckets; one more bucket takes the lengths past the last.
pub const EDGES: [u32; 9] = [16, 32, 64, 128, 256, 512, 1024, 2048, 4096];

/// The number of buckets.
pub const BUCKETS: usize = 10;

/// What every bucket starts with, so that none is empty.
pub const SMOOTHING: u64 = 1;

/// Live samples below which drift is not assessed.
pub const MIN_SAMPLES: usize = 32;

/// The upper edge of bucket `i`.
pub open spec fn edge(i: int) -> u32 {
    EDGES@[i]
}

/// Whether a length belongs to a bucket: the first whose edge it does not exceed, or the
/// last one.
pub open spec fn in_bucket(len: u32, b: int) -> bool {
    &&& 0 <= b <= EDGES@.len()
    &&& forall|i: int| 0 <= i < b ==> #[trigger] edge(i) < len
    &&& b < EDGES@.len() ==> len <= edge(b)
}

/// The bucket of a length.
pub fn bucket(len: u32) -> (res: usize)
    ensures
        in_bucket(len, res as int),
        res < BUCKETS,
{
    let mut i: usize = 0;
    while i < 9
        invariant
            i <= 9,
            forall|j: int| 0 <= j < i ==> #[trigger] edge(j) < len,
        decreases 9 - i,
    {
        if len <= EDGES[i] {
            return i;
        }
        assert(edge(i as int) < len);
        i += 1;
    }
    i
}

/// A length belongs to one bucket only.
pub proof fn bucket_is_unique(len: u32, a: int, b: int)
    requires
        in_bucket(len, a),
        in_bucket(len, b),
    ensures
        a == b,
{
    if a < b {
        assert(edge(a) < len);
    } else if b < a {
        assert(edge(b) < len);
    }
}

/// How many of the lengths belong to a bucket.
pub open spec fn tally(lengths: Seq<u32>, b: int) -> nat
    decreases lengths.len(),
{
    if lengths.len() == 0 {
        0
    } else {
        tally(lengths.drop_last(), b) + if in_bucket(lengths.last(), b) {
            1nat
        } else {
            0nat
        }
    }
}

/// A smoothed count of sequence lengths by bucket. What a profile stands for are the
/// buckets' shares of the total.
#[derive(Debug, Clone)]
pub struct WorkloadProfile {
    pub counts: Vec<u64>,
}

/// Whether two lists of counts have the same proportions.
pub open spec fn proportional(a: Seq<u64>, b: Seq<u64>) -> bool {
    &&& a.len() == b.len()
    &&& forall|i: int, j: int|
        0 <= i < a.len() && 0 <= j < a.len() ==> #[trigger] a[i] * #[trigger] b[j] == a[j] * b[i]
}

/// Equality of the shares, not of the counts.
impl PartialEq for WorkloadProfile {
    fn eq(&self, other: &Self) -> (res: bool) {
        let n: usize = self.counts.len();
        if other.counts.len() != n {
            return false;
        }
        let a = &self.counts;
        let b = &other.counts;
        let mut i: usize = 0;
        while i < n
            invariant
                i <= n,
                a@.len() == n,
                b@.len() == n,
                a == self.counts,
                b == other.counts,
                forall|k: int, j: int|
                    0 <= k < i && 0 <= j < n ==> #[trigger] a@[k] * #[trigger] b@[j] == a@[j]
                        * b@[k],
            decreases n - i,
        {
            let mut j: usize = 0;
            while j < n
                invariant
                    i < n,
                    j <= n,
                    a@.len() == n,
                    b@.len() == n,
                    a == self.counts,
                    b == other.counts,
                    forall|l: int|
                        0 <= l < j ==> a@[i as int] * #[trigger] b@[l] == a@[l] * b@[i as int],
                decreases n - j,
            {
                let x: u128 = product(a[i], b[j]);
                let y: u128 = product(a[j], b[i]);
                if x != y {
                    assert(a@[i as int] * b@[j as int] != a@[j as int] * b@[i as int]);
                    return false;
                }
                j += 1;
            }
            i += 1;
        }
        true
    }
}

impl vstd::std_specs::cmp::PartialEqSpecImpl for WorkloadProfile {
    open spec fn obeys_eq_spec() -> bool {
        true
    }

    open spec fn eq_spec(&self, other: &Self) -> bool {
        proportional(self.counts@, other.counts@)
    }
}

fn product(a: u64, b: u64) -> (res: u128)
    ensures
        res == a * b,
{
    assert(a * b <= u64::MAX * u64::MAX) by (nonlinear_arith)
        requires
            a <= u64::MAX,
            b <= u64::MAX,
    ;
    a as u128 * b as u128
}

/// The sum of the first `n` counts.
pub open spec fn total(counts: Seq<u64>, n: int) -> int
    decreases n,
{
    if n <= 0 {
        0
    } else {
        total(counts, n - 1) + counts[n - 1]
    }
}

proof fn products_with_totals(a: Seq<u64>, b: Seq<u64>, i: int, n: int)
    requires
        0 <= i < a.len(),
        0 <= n <= a.len(),
        proportional(a, b),
    ensures
        a[i] * total(b, n) == b[i] * total(a, n),
    decreases n,
{
    if n > 0 {
        products_with_totals(a, b, i, n - 1);
        let x = a[i] as int;
        let y = b[i] as int;
        assert(a[i] * b[n - 1] == a[n - 1] * b[i]);
        assert(x * (total(b, n - 1) + b[n - 1]) == x * total(b, n - 1) + x * b[n - 1])
            by (nonlinear_arith);
        assert(y * (total(a, n - 1) + a[n - 1]) == y * total(a, n - 1) + a[n - 1] * y)
            by (nonlinear_arith);
    } else {
        assert(a[i] * 0 == b[i] * 0) by (nonlinear_arith);
    }
}

/// Two profiles that are not empty are equal exactly when every bucket has the same share
/// of the total in both.
pub proof fn equal_profiles_have_equal_shares(a: Seq<u64>, b: Seq<u64>)
    requires
        a.len() == b.len(),
        total(a, a.len() as int) > 0,
        total(b, b.len() as int) > 0,
    ensures
        proportional(a, b) <==> forall|i: int|
            0 <= i < a.len() ==> #[trigger] a[i] * total(b, b.len() as int) == b[i] * total(
                a,
                a.len() as int,
            ),
{
    let p = total(a, a.len() as int);
    let q = total(b, b.len() as int);
    if proportional(a, b) {
        assert forall|i: int| 0 <= i < a.len() implies #[trigger] a[i] * q == b[i] * p by {
            products_with_totals(a, b, i, a.len() as int);
        }
    }
    if forall|i: int| 0 <= i < a.len() ==> #[trigger] a[i] * q == b[i] * p {
        assert forall|i: int, j: int| 0 <= i < a.len() && 0 <= j < a.len() implies #[trigger] a[i]
            * #[trigger] b[j] == a[j] * b[i] by {
            let x = a[i] as int;
            let y = b[i] as int;
            let u = a[j] as int;
            let v = b[j] as int;
            assert(a[i] * q == b[i] * p);
            assert(a[j] * q == b[j] * p);
            assert(x * v == u * y) by (nonlinear_arith)
                requires
                    x * q == y * p,
                    u * q == v * p,
                    p > 0,
                    q > 0,
            {
                assert((x * v) * p == x * (v * p));
                assert(x * (u * q) == u * (x * q));
                assert(u * (y * p) == (u * y) * p);
            };
        }
    }
}

/// Whether counts are the smoothed tallies of some lengths.
pub open spec fn profile_of(lengths: Seq<u32>, counts: Seq<u64>) -> bool {
    &&& counts.len() == BUCKETS
    &&& forall|b: int| 0 <= b < BUCKETS ==> #[trigger] counts[b] == SMOOTHING + tally(lengths, b)
}

proof fn tally_bound(lengths: Seq<u32>, b: int)
    ensures
        tally(lengths, b) <= lengths.len(),
    decreases lengths.len(),
{
    if lengths.len() > 0 {
        tally_bound(lengths.drop_last(), b);
    }
}

impl WorkloadProfile {
    /// The profile of some lengths.
    pub fn from_lengths(lengths: &[u32]) -> (res: Self)
        requires
            lengths@.len() < u64::MAX,
        ensures
            profile_of(lengths@, res.counts@),
    {
        let mut counts: Vec<u64> = Vec::new();
        let mut b: usize = 0;
        while b < BUCKETS
            invariant
                b <= BUCKETS,
                counts@.len() == b,
                forall|i: int| 0 <= i < b ==> #[trigger] counts@[i] == SMOOTHING,
            decreases BUCKETS - b,
        {
            counts.push(SMOOTHING);
            b += 1;
        }
        let mut i: usize = 0;
        while i < lengths.len()
            invariant
                i <= lengths@.len(),
                lengths@.len() < u64::MAX,
                profile_of(lengths@.take(i as int), counts@),
            decreases lengths.len() - i,
        {
            let ghost before = lengths@.take(i as int);
            let ghost upto = lengths@.take(i + 1);
            let ghost was = counts@;
            assert(upto.drop_last() =~= before);
            let k: usize = bucket(lengths[i]);
            proof {
                tally_bound(before, k as int);
            }
            let n: u64 = counts[k];
            counts.set(k, n + 1);
            assert forall|b: int| 0 <= b < BUCKETS implies #[trigger] counts@[b] == SMOOTHING
                + tally(upto, b) by {
                assert(was[b] == SMOOTHING + tally(before, b));
                if in_bucket(lengths@[i as int], b) {
                    bucket_is_unique(lengths@[i as int], b, k as int);
                }
            }
            i += 1;
        }
        assert(lengths@.take(i as int) =~= lengths@);
        WorkloadProfile { counts }
    }
}

/// The outcome of a drift check.
#[derive(Debug, Clone, Copy, PartialEq)]
pub struct DriftAssessment {
    /// Divergence of the live profile from the baseline.
    pub kl: Ieee64,
    /// Whether to search a new plan.
    pub drifted: bool,
    /// Number of live samples.
    pub samples: usize,
}

/// Compares the live workload with the compile-time baseline.
#[derive(Debug, Clone)]
pub struct DriftMonitor {
    pub baseline: WorkloadProfile,
    pub threshold_kl: Ieee64,
}

/// The assessment of a divergence measured on some samples: drift takes enough samples and
/// a divergence above the threshold.
pub open spec fn assessment(kl: Ieee64, samples: usize, threshold: Ieee64) -> DriftAssessment {
    DriftAssessment { kl, drifted: samples >= MIN_SAMPLES && kl.above(threshold), samples }
}

/// The output lengths of some requests.
pub open spec fn output_lengths(requests: Seq<RequestRecord>) -> Seq<u32> {
    requests.map_values(|r: RequestRecord| r.output_tokens)
}

impl DriftMonitor {
    pub fn new(baseline: WorkloadProfile, threshold_kl: Ieee64) -> (res: Self)
        ensures
            res.baseline == baseline,
            res.threshold_kl == threshold_kl,
    {
        DriftMonitor { baseline, threshold_kl }
    }

    /// The monitor of a trace: its output lengths are the baseline, and its SLO gives the
    /// threshold.
    pub fn from_workload(workload: &Workload) -> (res: Self)
        requires
            workload.requests@.len() < u64::MAX,
        ensures
            profile_of(output_lengths(workload.requests@), res.baseline.counts@),
            res.threshold_kl == workload.slo.recompile_drift_threshold_kl,
    {
        let mut lengths: Vec<u32> = Vec::new();
        let mut i: usize = 0;
        while i < workload.requests.len()
            invariant
                i <= workload.requests@.len(),
                lengths@ == output_lengths(workload.requests@).take(i as int),
            decreases workload.requests.len() - i,
        {
            lengths.push(workload.requests[i].output_tokens);
            i += 1;
            assert(lengths@ =~= output_lengths(workload.requests@).take(i as int));
        }
        assert(lengths@ =~= output_lengths(workload.requests@));
        DriftMonitor {
            baseline: WorkloadProfile::from_lengths(lengths.as_slice()),
            threshold_kl: workload.slo.recompile_drift_threshold_kl,
        }
    }

    pub fn threshold(&self) -> (res: Ieee64)
        ensures
            res == self.threshold_kl,
    {
        self.threshold_kl
    }

    /// Decides on a divergence measured on some samples.
    pub fn judge(&self, kl: Ieee64, samples: usize) -> (res: DriftAssessment)
        ensures
            res == assessment(kl, samples, self.threshold_kl),
    {
        DriftAssessment { kl, drifted: samples >= MIN_SAMPLES && kl.gt(self.threshold_kl), samples }
    }

    /// Assesses live output lengths; `divergence` measures how far one profile is from
    /// another.
    pub fn assess<D: Fn(&WorkloadProfile, &WorkloadProfile) -> Ieee64>(
        &self,
        lengths: &[u32],
        divergence: &D,
    ) -> (res: DriftAssessment)
        requires
            lengths@.len() < u64::MAX,
            forall|a: &WorkloadProfile, b: &WorkloadProfile| call_requires(*divergence, (a, b)),
        ensures
            assessed(*self, lengths@, *divergence, res),
    {
        let live = WorkloadProfile::from_lengths(lengths);
        let kl = (*divergence)(&live, &self.baseline);
        let res = self.judge(kl, lengths.len());
        assert(call_ensures(*divergence, (&live, &self.baseline), res.kl));
        res
    }
}

proof fn tally_of_both(a: Seq<u32>, b: Seq<u32>, k: int)
    ensures
        tally(a + b, k) == tally(a, k) + tally(b, k),
    decreases b.len(),
{
    if b.len() == 0 {
        assert(a + b =~= a);
    } else {
        assert((a + b).drop_last() =~= a + b.drop_last());
        tally_of_both(a, b.drop_last(), k);
    }
}

proof fn tally_goes_by_multiset(a: Seq<u32>, b: Seq<u32>, k: int)
    requires
        a.to_multiset() == b.to_multiset(),
    ensures
        tally(a, k) == tally(b, k),
    decreases a.len(),
{
    broadcast use vstd::seq_lib::group_to_multiset_ensures;

    assert(a.len() == a.to_multiset().len() == b.to_multiset().len() == b.len());
    if a.len() > 0 {
        let x = a.last();
        assert(a.to_multiset().count(x) > 0);
        assert(b.contains(x));
        let i = b.index_of(x);
        let rest = b.remove(i);
        assert(a.drop_last() =~= a.remove(a.len() - 1));
        assert(rest.to_multiset() =~= a.drop_last().to_multiset());
        tally_goes_by_multiset(a.drop_last(), rest, k);
        assert(b =~= b.take(i) + (seq![x] + b.skip(i + 1)));
        assert(rest =~= b.take(i) + b.skip(i + 1));
        tally_of_both(b.take(i), seq![x] + b.skip(i + 1), k);
        tally_of_both(seq![x], b.skip(i + 1), k);
        tally_of_both(b.take(i), b.skip(i + 1), k);
        assert(seq![x].drop_last() =~= Seq::<u32>::empty());
        assert(tally(Seq::<u32>::empty(), k) == 0);
        assert(tally(seq![x], k) == if in_bucket(x, k) {
            1nat
        } else {
            0nat
        });
    }
}

/// A profile goes by how often each length occurs, not by the order of the lengths: what
/// is the profile of some lengths is that of the same lengths in any order, and there is
/// no other.
pub proof fn profiles_ignore_order(a: Seq<u32>, b: Seq<u32>, p: Seq<u64>, q: Seq<u64>)
    requires
        a.to_multiset() == b.to_multiset(),
        profile_of(a, p),
        profile_of(b, q),
    ensures
        p == q,
        profile_of(b, p),
{
    assert forall|k: int| 0 <= k < BUCKETS implies #[trigger] p[k] == q[k] by {
        tally_goes_by_multiset(a, b, k);
        assert(p[k] == SMOOTHING + tally(a, k));
        assert(q[k] == SMOOTHING + tally(b, k));
    }
    assert(p =~= q);
}

/// Whether a divergence goes by the counts of the two profiles alone.
pub open spec fn is_a_divergence<D: Fn(&WorkloadProfile, &WorkloadProfile) -> Ieee64>(
    divergence: D,
) -> bool {
    forall|a: &WorkloadProfile, b: &WorkloadProfile, c: &WorkloadProfile, x: Ieee64, y: Ieee64|
        a.counts@ == b.counts@ && #[trigger] call_ensures(divergence, (a, c), x)
            && #[trigger] call_ensures(divergence, (b, c), y) ==> x == y
}

/// Whether an assessment may come of some lengths.
pub open spec fn assessed<D: Fn(&WorkloadProfile, &WorkloadProfile) -> Ieee64>(
    monitor: DriftMonitor,
    lengths: Seq<u32>,
    divergence: D,
    res: DriftAssessment,
) -> bool {
    &&& res == assessment(res.kl, lengths.len() as usize, monitor.threshold_kl)
    &&& exists|live: WorkloadProfile|
        profile_of(lengths, live.counts@) && #[trigger] call_ensures(
            divergence,
            (&live, &monitor.baseline),
            res.kl,
        )
}

/// An assessment does not depend on the order of the lengths.
pub proof fn assessment_ignores_order<D: Fn(&WorkloadProfile, &WorkloadProfile) -> Ieee64>(
    monitor: DriftMonitor,
    a: Seq<u32>,
    b: Seq<u32>,
    divergence: D,
    x: DriftAssessment,
    y: DriftAssessment,
)
    requires
        a.to_multiset() == b.to_multiset(),
        is_a_divergence(divergence),
        assessed(monitor, a, divergence, x),
        assessed(monitor, b, divergence, y),
    ensures
        x == y,
{
    broadcast use vstd::seq_lib::group_to_multiset_ensures;

    assert(a.len() == a.to_multiset().len() == b.to_multiset().len() == b.len());
    let p = choose|live: WorkloadProfile|
        profile_of(a, live.counts@) && #[trigger] call_ensures(
            divergence,
            (&live, &monitor.baseline),
            x.kl,
        );
    let q = choose|live: WorkloadProfile|
        profile_of(b, live.counts@) && #[trigger] call_ensures(
            divergence,
            (&live, &monitor.baseline),
            y.kl,
        );
    profiles_ignore_order(a, b, p.counts@, q.counts@);
}

/// Too few samples never count as drift, whatever they look like.
pub proof fn few_samples_never_drift(kl: Ieee64, samples: usize, threshold: Ieee64)
    requires
        samples < MIN_SAMPLES,
    ensures
        !assessment(kl, samples, threshold).drifted,
{
}

/// A length lies between the edges of its bucket: not above the bucket's own edge, and above
/// the edge of the bucket before.
pub proof fn lengths_lie_between_the_edges(len: u32, b: usize, longer: u32, c: usize)
    requires
        call_ensures(bucket, (len,), b),
        call_ensures(bucket, (longer,), c),
    ensures
        b < 10,
        b < 9 ==> len <= EDGES@[b as int],
        b > 0 ==> len > EDGES@[b - 1],
        len <= longer ==> b <= c,
{
    if b > 0 {
        assert(edge(b - 1) < len);
    }
    if len <= longer && c < b {
        assert(edge(c as int) < len);
    }
}

/// Drift is flagged exactly on enough samples whose divergence exceeds the threshold: more
/// samples or a greater divergence never hide it, and a higher threshold never brings it.
pub proof fn drift_takes_samples_and_divergence(
    a: &DriftMonitor,
    b: &DriftMonitor,
    kl: Ieee64,
    worse: Ieee64,
    samples: usize,
    more: usize,
    x: DriftAssessment,
    y: DriftAssessment,
)
    requires
        call_ensures(DriftMonitor::judge, (a, kl, samples), x),
        call_ensures(DriftMonitor::judge, (b, worse, more), y),
        kl.at_most(worse),
        samples <= more,
        b.threshold_kl.at_most(a.threshold_kl),
    ensures
        x.kl == kl,
        x.samples == samples,
        x.drifted <==> samples >= 32 && kl.above(a.threshold_kl),
        x.drifted ==> y.drifted,
{
}

/// Every length counts once: a profile's counts are one more in the bucket of a further length,
/// and the same elsewhere; with no lengths every bucket has the same count.
pub proof fn every_length_counts_once(
    lengths: Seq<u32>,
    len: u32,
    p: Seq<u64>,
    q: Seq<u64>,
    b: int,
    c: int,
)
    requires
        profile_of(lengths, p),
        profile_of(lengths.push(len), q),
        in_bucket(len, b),
        0 <= c < 10,
    ensures
        p.len() == 10,
        q.len() == 10,
        q[c] == p[c] + if c == b {
            1int
        } else {
            0int
        },
        lengths.len() == 0 ==> p[c] == 1,
{
    let all = lengths.push(len);
    assert(all.drop_last() =~= lengths);
    assert(p[c] == SMOOTHING + tally(lengths, c));
    assert(q[c] == SMOOTHING + tally(all, c));
    if in_bucket(len, c) {
        bucket_is_unique(len, b, c);
    }
}

/// The buckets double: the first edge is sixteen, and every edge is twice the one before.
pub proof fn edges_double(i: int)
    requires
        0 <= i < 9,
    ensures
        EDGES@.len() == 9,
        i == 0 ==> EDGES@[i] == 16,
        i > 0 ==> EDGES@[i] == 2 * EDGES@[i - 1],
{
}

} // verus!
