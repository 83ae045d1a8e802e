//! Two-stage pipelined decode: which request runs when, with which token, at which
//! position, and what crosses between the stages.
//!
//! A *lane* is what one forward advances: a group of rows that share a KV key and a
//! position. A *wave* runs a number of rounds over the active lanes, one job per lane and
//! round, in the fixed order `round * lanes + lane`. Stage 0 runs a job's first half and
//! sends the activation on; stage 1 finishes the job, samples, and sends the tokens back
//! while stage 0 already works on the next job.

use vstd::arithmetic::div_mod::lemma_fundamental_div_mod_converse;
use vstd::prelude::*;

verus! {

/// A group of rows that are decoded together.
#[derive(Debug, PartialEq, Eq)]
pub struct Lane {
    /// The prompts of the real rows; further rows are padding.
    pub idxs: Vec<usize>,
    /// The key of the lane's KV pages.
    pub key: u64,
    /// The position at which the lane's next token is fed.
    pub pos: usize,
    /// The newest token of each row.
    pub last: Vec<u32>,
    /// The tokens of each row so far.
    pub generated: Vec<Vec<u32>>,
}

/// What a [`Lane`] is.
pub struct LaneView {
    pub idxs: Seq<usize>,
    pub key: u64,
    pub pos: int,
    pub last: Seq<u32>,
    pub generated: Seq<Seq<u32>>,
}

/// The contents of some token lists.
pub open spec fn rows(v: Seq<Vec<u32>>) -> Seq<Seq<u32>> {
    v.map_values(|t: Vec<u32>| t@)
}

impl View for Lane {
    type V = LaneView;

    open spec fn view(&self) -> LaneView {
        LaneView {
            idxs: self.idxs@,
            key: self.key,
            pos: self.pos as int,
            last: self.last@,
            generated: rows(self.generated@),
        }
    }
}

impl LaneView {
    /// Tokens that every row of the lane has.
    pub open spec fn emitted(self) -> nat {
        self.generated[0].len()
    }

    /// The lane has `width` rows that have advanced together; `last` holds each row's
    /// newest token.
    pub open spec fn wf(self, width: nat) -> bool {
        &&& width >= 1
        &&& self.last.len() == width
        &&& self.generated.len() == width
        &&& 1 <= self.idxs.len() <= width
        &&& self.emitted() >= 1
        &&& forall|r: int|
            0 <= r < width ==> (#[trigger] self.generated[r]).len() == self.emitted()
                && self.generated[r].last() == self.last[r]
    }

    /// The lane after one more token per row.
    pub open spec fn pushed(self, tokens: Seq<u32>) -> LaneView {
        LaneView {
            last: tokens,
            generated: Seq::new(
                self.generated.len(),
                |r: int| self.generated[r].push(tokens[r]),
            ),
            ..self
        }
    }

    /// The lane after a wave: it is lane `m` of `n`, and job `i` of the wave gave the
    /// tokens `res[i]`.
    pub open spec fn after(self, res: Seq<Seq<u32>>, n: int, m: int, rounds: int) -> LaneView {
        LaneView {
            pos: self.pos + rounds,
            last: if rounds == 0 {
                self.last
            } else {
                res[(rounds - 1) * n + m]
            },
            generated: Seq::new(
                self.generated.len(),
                |r: int|
                    self.generated[r] + Seq::new(rounds as nat, |k: int| res[k * n + m][r]),
            ),
            ..self
        }
    }
}

/// The views of some lanes.
pub open spec fn lane_views(lanes: Seq<Lane>) -> Seq<LaneView> {
    lanes.map_values(|l: Lane| l@)
}

/// Whether all lanes have `width` rows each.
pub open spec fn lanes_wf(lanes: Seq<LaneView>, width: nat) -> bool {
    forall|m: int| 0 <= m < lanes.len() ==> (#[trigger] lanes[m]).wf(width)
}

/// One job of a wave: lane `lane` is fed `input` at `pos`.
#[derive(Debug)]
pub struct Job {
    pub lane: usize,
    pub key: u64,
    pub pos: usize,
    pub input: Vec<u32>,
}

/// A copy of a token list.
pub fn copy_tokens(v: &Vec<u32>) -> (res: Vec<u32>)
    ensures
        res@ == v@,
{
    let mut out: Vec<u32> = Vec::new();
    let mut i: usize = 0;
    while i < v.len()
        invariant
            i <= v@.len(),
            out@ == v@.take(i as int),
        decreases v.len() - i,
    {
        out.push(v[i]);
        i += 1;
        assert(out@ =~= v@.take(i as int));
    }
    assert(out@ =~= v@);
    out
}

/// A list of `n` zero tokens.
pub fn zero_tokens(n: usize) -> (res: Vec<u32>)
    ensures
        res@ == Seq::new(n as nat, |i: int| 0u32),
{
    let mut out: Vec<u32> = Vec::new();
    let mut i: usize = 0;
    while i < n
        invariant
            i <= n,
            out@ == Seq::new(i as nat, |i: int| 0u32),
        decreases n - i,
    {
        out.push(0);
        i += 1;
        assert(out@ =~= Seq::new(i as nat, |i: int| 0u32));
    }
    out
}

/// Gives every row of a lane its next token.
fn push_tokens(lane: &mut Lane, tokens: &Vec<u32>)
    requires
        old(lane)@.generated.len() == tokens@.len(),
    ensures
        final(lane)@ == old(lane)@.pushed(tokens@),
{
    let ghost before = lane@;
    let mut r: usize = 0;
    while r < lane.generated.len()
        invariant
            before == old(lane)@,
            r <= lane.generated@.len(),
            before.generated.len() == tokens@.len(),
            lane.generated@.len() == tokens@.len(),
            lane.idxs@ == before.idxs,
            lane.key == before.key,
            lane.pos == before.pos,
            forall|j: int|
                0 <= j < r ==> (#[trigger] lane.generated@[j])@ == before.generated[j].push(
                    tokens@[j],
                ),
            forall|j: int|
                r <= j < lane.generated@.len() ==> (#[trigger] lane.generated@[j])@
                    == before.generated[j],
        decreases tokens.len() - r,
    {
        lane.generated[r].push(tokens[r]);
        r += 1;
    }
    lane.last = copy_tokens(tokens);
    assert(lane@.generated =~= before.pushed(tokens@).generated);
}

/// The fewest tokens that an unfinished lane still lacks; zero if every lane is
/// finished.
pub open spec fn least_remaining(lanes: Seq<LaneView>, max_new: nat) -> nat
    decreases lanes.len(),
{
    if lanes.len() == 0 {
        0
    } else {
        let rest = least_remaining(lanes.drop_last(), max_new);
        let e = lanes.last().emitted();
        if e >= max_new {
            rest
        } else if rest == 0 || max_new - e < rest {
            (max_new - e) as nat
        } else {
            rest
        }
    }
}

/// `least_remaining` is the least: it is attained by an unfinished lane, and no
/// unfinished lane lacks fewer tokens. It is zero only if no lane is unfinished.
pub proof fn least_remaining_is_least(lanes: Seq<LaneView>, max_new: nat)
    ensures
        forall|m: int|
            0 <= m < lanes.len() && (#[trigger] lanes[m]).emitted() < max_new ==> 0
                < least_remaining(lanes, max_new) <= max_new - lanes[m].emitted(),
        least_remaining(lanes, max_new) > 0 ==> exists|m: int|
            0 <= m < lanes.len() && (#[trigger] lanes[m]).emitted() + least_remaining(
                lanes,
                max_new,
            ) == max_new,
    decreases lanes.len(),
{
    if lanes.len() > 0 {
        let front = lanes.drop_last();
        let rest = least_remaining(front, max_new);
        least_remaining_is_least(front, max_new);
        assert forall|m: int|
            0 <= m < lanes.len() && (#[trigger] lanes[m]).emitted() < max_new implies 0
            < least_remaining(lanes, max_new) <= max_new - lanes[m].emitted() by {
            if m < front.len() {
                assert(front[m] == lanes[m]);
            }
        }
        if least_remaining(lanes, max_new) > 0 {
            if least_remaining(lanes, max_new) == rest && rest > 0 {
                let m = choose|m: int|
                    0 <= m < front.len() && (#[trigger] front[m]).emitted() + rest == max_new;
                assert(lanes[m] == front[m]);
            } else {
                assert(lanes[lanes.len() - 1].emitted() + least_remaining(lanes, max_new)
                    == max_new);
            }
        }
    }
}

/// The number of rounds of the next wave: until the soonest lane has all its tokens.
pub fn wave_steps(active: &Vec<Lane>, width: usize, max_new: usize) -> (res: usize)
    requires
        lanes_wf(lane_views(active@), width as nat),
    ensures
        res == least_remaining(lane_views(active@), max_new as nat),
{
    let ghost views = lane_views(active@);
    let mut best: usize = 0;
    let mut m: usize = 0;
    while m < active.len()
        invariant
            m <= active@.len(),
            views == lane_views(active@),
            lanes_wf(views, width as nat),
            best == least_remaining(views.take(m as int), max_new as nat),
        decreases active.len() - m,
    {
        assert(views.take(m + 1).drop_last() =~= views.take(m as int));
        assert(views[m as int] == active@[m as int]@);
        assert(views[m as int].wf(width as nat));
        let have: usize = active[m].generated[0].len();
        if have < max_new {
            let lack: usize = max_new - have;
            if best == 0 || lack < best {
                best = lack;
            }
        }
        m += 1;
    }
    assert(views.take(m as int) =~= views);
    best
}

/// A wave as stage 0 sees it: it hands out the jobs and collects the tokens that come
/// back, one job behind.
#[derive(Debug)]
pub struct Wave {
    pub width: usize,
    /// The tokens that came back, by job.
    pub replies: Vec<Vec<u32>>,
}

/// What stage 0 feeds at job `i`: in the first round the lane's newest tokens; later the
/// tokens that came back for the same lane one round earlier, or zeros while those are
/// still on the way.
pub open spec fn job_input(
    lanes: Seq<LaneView>,
    width: nat,
    replies: Seq<Seq<u32>>,
    i: int,
) -> Seq<u32> {
    let n = lanes.len() as int;
    if i / n == 0 {
        lanes[i % n].last
    } else if i - n < replies.len() {
        replies[i - n]
    } else {
        Seq::new(width, |r: int| 0u32)
    }
}

/// Whether a job is the one that comes `i`-th in a wave.
pub open spec fn job_of(
    lanes: Seq<LaneView>,
    width: nat,
    replies: Seq<Seq<u32>>,
    i: int,
    job: Job,
) -> bool {
    let n = lanes.len() as int;
    &&& job.lane == i % n
    &&& job.key == lanes[i % n].key
    &&& job.pos == lanes[i % n].pos + i / n
    &&& job.input@ == job_input(lanes, width, replies, i)
}

impl Wave {
    pub open spec fn wf(&self) -> bool {
        forall|i: int| 0 <= i < self.replies@.len() ==> (#[trigger] self.replies@[i])@.len()
            == self.width
    }

    pub fn new(width: usize) -> (res: Self)
        ensures
            res.wf(),
            res.width == width,
            res.replies@.len() == 0,
    {
        Wave { width, replies: Vec::new() }
    }

    /// Job `i` of the wave.
    pub fn job(&self, active: &Vec<Lane>, i: usize) -> (res: Job)
        requires
            active@.len() > 0,
            active@[i as int % active@.len() as int].pos + i as int / active@.len() as int
                <= usize::MAX,
        ensures
            job_of(lane_views(active@), self.width as nat, rows(self.replies@), i as int, res),
    {
        let ghost views = lane_views(active@);
        let n: usize = active.len();
        let m: usize = i % n;
        let k: usize = i / n;
        assert(views[m as int] == active@[m as int]@);
        let input = if k == 0 {
            copy_tokens(&active[m].last)
        } else {
            assert(i >= n) by (nonlinear_arith)
                requires
                    k == i / n,
                    k >= 1,
                    n > 0,
            ;
            if i - n < self.replies.len() {
                assert(rows(self.replies@)[i - n] == self.replies@[i - n]@);
                copy_tokens(&self.replies[i - n])
            } else {
                zero_tokens(self.width)
            }
        };
        Job { lane: m, key: active[m].key, pos: active[m].pos + k, input }
    }

    /// Takes the tokens of the next job in order.
    pub fn reply(&mut self, tokens: Vec<u32>)
        requires
            old(self).wf(),
            tokens@.len() == old(self).width,
        ensures
            final(self).wf(),
            final(self).width == old(self).width,
            rows(final(self).replies@) == rows(old(self).replies@).push(tokens@),
    {
        let ghost before = self.replies@;
        self.replies.push(tokens);
        assert(rows(self.replies@) =~= rows(before).push(tokens@));
    }

    /// Gives every lane the tokens of a finished wave of `steps` rounds.
    pub fn apply(&self, active: &mut Vec<Lane>, steps: usize)
        requires
            self.wf(),
            lanes_wf(lane_views(old(active)@), self.width as nat),
            self.replies@.len() == steps * old(active)@.len(),
            forall|m: int|
                0 <= m < old(active)@.len() ==> (#[trigger] old(active)@[m]).pos + steps
                    <= usize::MAX,
        ensures
            final(active)@.len() == old(active)@.len(),
            forall|m: int|
                0 <= m < old(active)@.len() ==> (#[trigger] final(active)@[m])@ == old(
                    active,
                )@[m]@.after(rows(self.replies@), old(active)@.len() as int, m, steps as int),
    {
        let n: usize = active.len();
        let total: usize = self.replies.len();
        let ghost start = active@;
        let ghost res = rows(self.replies@);
        let mut m: usize = 0;
        while m < n
            invariant
                n == active@.len(),
                n == start.len(),
                start == old(active)@,
                m <= n,
                res == rows(self.replies@),
                self.wf(),
                lanes_wf(lane_views(start), self.width as nat),
                self.replies@.len() == steps * n,
                total == steps * n,
                forall|j: int|
                    0 <= j < n ==> (#[trigger] start[j]).pos + steps <= usize::MAX,
                forall|j: int|
                    0 <= j < m ==> (#[trigger] active@[j])@ == start[j]@.after(
                        res,
                        n as int,
                        j,
                        steps as int,
                    ),
                forall|j: int| m <= j < n ==> #[trigger] active@[j] == start[j],
            decreases n - m,
        {
            let ghost lane = start[m as int]@;
            assert(lane_views(start)[m as int] == lane);
            assert(lane.wf(self.width as nat));
            let mut k: usize = 0;
            proof {
                assert(lane.after(res, n as int, m as int, 0).generated =~= lane.generated);
            }
            while k < steps
                invariant
                    n == active@.len(),
                    n == start.len(),
                    m < n,
                    k <= steps,
                    res == rows(self.replies@),
                    self.wf(),
                    self.replies@.len() == steps * n,
                    total == steps * n,
                    lane == start[m as int]@,
                    lane.wf(self.width as nat),
                    active@[m as int]@ == (LaneView {
                        pos: lane.pos,
                        ..lane.after(res, n as int, m as int, k as int)
                    }),
                    forall|j: int|
                        0 <= j < m ==> (#[trigger] active@[j])@ == start[j]@.after(
                            res,
                            n as int,
                            j,
                            steps as int,
                        ),
                    forall|j: int| m < j < n ==> #[trigger] active@[j] == start[j],
                decreases steps - k,
            {
                proof {
                    job_in_range(k as int, n as int, m as int, steps as int);
                }
                let at: usize = k * n + m;
                let ghost now = active@[m as int]@;
                assert(res[at as int] == self.replies@[at as int]@);
                push_tokens(&mut active[m], &self.replies[at]);
                proof {
                    after_one_more(lane, res, n as int, m as int, k as int);
                    assert(active@[m as int]@ == now.pushed(res[at as int]));
                }
                k += 1;
            }
            let pos: usize = active[m].pos;
            active[m].pos = pos + steps;
            m += 1;
        }
    }
}

/// Job `k * n + m` is one of `steps * n`.
pub proof fn job_in_range(k: int, n: int, m: int, steps: int)
    requires
        0 <= k < steps,
        0 <= m < n,
    ensures
        0 <= k * n + m < steps * n,
        (k * n + m) / n == k,
        (k * n + m) % n == m,
        k * n <= k * n + m,
        0 <= k * n,
{
    assert(k * n + m < steps * n) by (nonlinear_arith)
        requires
            0 <= k < steps,
            0 <= m < n,
    ;
    assert(0 <= k * n) by (nonlinear_arith)
        requires
            0 <= k,
            0 <= m < n,
    ;
    lemma_fundamental_div_mod_converse(k * n + m, n, k, m);
}

/// One more round of a wave is one more token per row.
proof fn after_one_more(lane: LaneView, res: Seq<Seq<u32>>, n: int, m: int, k: int)
    requires
        0 <= k,
    ensures
        lane.after(res, n, m, k + 1) == (LaneView {
            pos: lane.pos + k + 1,
            ..lane.after(res, n, m, k).pushed(res[k * n + m])
        }),
{
    let one = lane.after(res, n, m, k + 1);
    let two = lane.after(res, n, m, k).pushed(res[k * n + m]);
    assert forall|r: int| 0 <= r < lane.generated.len() implies one.generated[r]
        =~= two.generated[r] by {
        assert(one.generated[r] =~= (lane.generated[r] + Seq::new(
            k as nat,
            |k: int| res[k * n + m][r],
        )).push(res[k * n + m][r]));
    }
    assert(one.generated =~= two.generated);
}

/// Stage 1 gives the lane of job `i` the tokens that it just sampled.
pub fn record(active: &mut Vec<Lane>, width: usize, i: usize, next: &Vec<u32>)
    requires
        old(active)@.len() > 0,
        lanes_wf(lane_views(old(active)@), width as nat),
        next@.len() == width,
    ensures
        lane_views(final(active)@) == recorded(lane_views(old(active)@), i as int, next@),
{
    let n: usize = active.len();
    let m: usize = i % n;
    let ghost before = lane_views(active@);
    assert(before[m as int] == active@[m as int]@);
    assert(before[m as int].wf(width as nat));
    push_tokens(&mut active[m], next);
    assert(lane_views(active@) =~= recorded(before, i as int, next@));
}

/// The lanes after stage 1 has finished job `i`.
pub open spec fn recorded(lanes: Seq<LaneView>, i: int, next: Seq<u32>) -> Seq<LaneView> {
    let m = i % lanes.len() as int;
    lanes.update(m, lanes[m].pushed(next))
}

/// The lanes after stage 1 has finished the first `i` jobs of a wave.
pub open spec fn recorded_all(lanes: Seq<LaneView>, res: Seq<Seq<u32>>, i: nat) -> Seq<LaneView>
    decreases i,
{
    if i == 0 {
        lanes
    } else {
        recorded(recorded_all(lanes, res, (i - 1) as nat), i - 1, res[i - 1])
    }
}

/// Moves every lane on by the rounds of a wave.
pub fn advance(active: &mut Vec<Lane>, steps: usize)
    requires
        forall|m: int|
            0 <= m < old(active)@.len() ==> (#[trigger] old(active)@[m]).pos + steps <= usize::MAX,
    ensures
        lane_views(final(active)@) == advanced(lane_views(old(active)@), steps as int),
{
    let ghost start = active@;
    let mut m: usize = 0;
    while m < active.len()
        invariant
            active@.len() == start.len(),
            m <= active@.len(),
            forall|j: int| 0 <= j < start.len() ==> (#[trigger] start[j]).pos + steps <= usize::MAX,
            forall|j: int|
                0 <= j < m ==> (#[trigger] active@[j])@ == (LaneView {
                    pos: start[j].pos + steps,
                    ..start[j]@
                }),
            forall|j: int| m <= j < active@.len() ==> #[trigger] active@[j] == start[j],
        decreases active.len() - m,
    {
        let pos: usize = active[m].pos;
        active[m].pos = pos + steps;
        m += 1;
    }
    assert(lane_views(active@) =~= advanced(lane_views(start), steps as int));
}

/// The lanes with their positions moved on.
pub open spec fn advanced(lanes: Seq<LaneView>, steps: int) -> Seq<LaneView> {
    lanes.map_values(|l: LaneView| LaneView { pos: l.pos + steps, ..l })
}

/// The lanes after a wave, as stage 0 has them.
pub open spec fn waved(lanes: Seq<LaneView>, res: Seq<Seq<u32>>, steps: int) -> Seq<LaneView> {
    Seq::new(lanes.len(), |m: int| lanes[m].after(res, lanes.len() as int, m, steps))
}

/// After round `k` has reached lane `m`, stage 1 has given `k + 1` tokens to the rows of
/// the lanes before `m` and `k` to the others.
proof fn recorded_all_shape(lanes: Seq<LaneView>, res: Seq<Seq<u32>>, k: nat, m: nat)
    requires
        lanes.len() > 0,
        m <= lanes.len(),
    ensures
        0 <= k * lanes.len() + m,
        recorded_all(lanes, res, (k * lanes.len() + m) as nat) == Seq::new(
            lanes.len(),
            |j: int|
                LaneView {
                    pos: lanes[j].pos,
                    ..lanes[j].after(
                        res,
                        lanes.len() as int,
                        j,
                        if j < m {
                            k as int + 1
                        } else {
                            k as int
                        },
                    )
                },
        ),
    decreases k, m,
{
    let n = lanes.len();
    let i = (k * n + m) as nat;
    let want = Seq::new(
        n,
        |j: int|
            LaneView {
                pos: lanes[j].pos,
                ..lanes[j].after(
                    res,
                    n as int,
                    j,
                    if j < m {
                        k as int + 1
                    } else {
                        k as int
                    },
                )
            },
    );
    assert(0 <= k * n) by (nonlinear_arith)
        requires
            k >= 0,
            n > 0,
    ;
    if m == 0 && k == 0 {
        assert forall|j: int| 0 <= j < n implies #[trigger] want[j] == lanes[j] by {
            assert(lanes[j].after(res, n as int, j, 0).generated =~= lanes[j].generated);
        }
        assert(want =~= lanes);
    } else if m == 0 {
        recorded_all_shape(lanes, res, (k - 1) as nat, n);
        assert((k - 1) * n + n == k * n) by (nonlinear_arith);
        assert(want =~= recorded_all(lanes, res, i));
    } else {
        let prev = recorded_all(lanes, res, (i - 1) as nat);
        recorded_all_shape(lanes, res, k, (m - 1) as nat);
        job_in_range(k as int, n as int, m - 1, k as int + 1);
        after_one_more(lanes[m - 1], res, n as int, m - 1, k as int);
        assert(recorded_all(lanes, res, i) == recorded(prev, i - 1, res[i - 1]));
        assert(want =~= recorded_all(lanes, res, i));
    }
}

/// Both stages leave a wave with the same lanes: handing out all tokens at the end, as
/// stage 0 does, and giving them to the lanes job by job, as stage 1 does, come to the
/// same.
pub proof fn stages_agree(lanes: Seq<LaneView>, res: Seq<Seq<u32>>, steps: nat)
    requires
        lanes.len() > 0,
    ensures
        advanced(recorded_all(lanes, res, steps * lanes.len()), steps as int) == waved(
            lanes,
            res,
            steps as int,
        ),
{
    recorded_all_shape(lanes, res, steps, 0);
    assert(advanced(recorded_all(lanes, res, steps * lanes.len()), steps as int) =~= waved(
        lanes,
        res,
        steps as int,
    ));
}

/// With two lanes or more, the tokens that a job feeds are those sampled for its lane one
/// round earlier: stage 0 has them by then. By job `i` stage 0 has the tokens of the jobs
/// before `i - 1`.
pub proof fn tokens_return_in_time(
    lanes: Seq<LaneView>,
    width: nat,
    replies: Seq<Seq<u32>>,
    i: int,
)
    requires
        lanes.len() >= 2,
        i >= lanes.len(),
        replies.len() == i - 1,
    ensures
        i / lanes.len() as int > 0,
        job_input(lanes, width, replies, i) == replies[i - lanes.len()],
{
    let n = lanes.len() as int;
    assert(i / n >= 1) by (nonlinear_arith)
        requires
            i >= n,
            n > 0,
    ;
}

/// In a wave of two lanes or more, job `i` feeds its lane the lane's newest tokens and
/// feeds them at the position that follows: exactly the lane's state after the rounds
/// that came before.
pub proof fn jobs_continue_their_lane(
    lanes: Seq<LaneView>,
    width: nat,
    replies: Seq<Seq<u32>>,
    i: int,
    job: Job,
)
    requires
        lanes.len() >= 2,
        i >= 0,
        replies.len() == if i == 0 {
            0
        } else {
            i - 1
        },
        job_of(lanes, width, replies, i, job),
    ensures
        ({
            let n = lanes.len() as int;
            let now = lanes[i % n].after(replies, n, i % n, i / n);
            &&& job.input@ == now.last
            &&& job.pos == now.pos
        }),
{
    let n = lanes.len() as int;
    let k = i / n;
    assert(i == k * n + i % n) by (nonlinear_arith)
        requires
            k == i / n,
            n > 0,
    ;
    assert(0 <= i % n < n) by (nonlinear_arith)
        requires
            n > 0,
    ;
    if k > 0 {
        assert(i >= n) by (nonlinear_arith)
            requires
                k == i / n,
                k >= 1,
                n > 0,
        ;
        tokens_return_in_time(lanes, width, replies, i);
        assert((k - 1) * n + i % n == i - n) by (nonlinear_arith)
            requires
                i == k * n + i % n,
        ;
    } else {
        assert(k == 0) by (nonlinear_arith)
            requires
                k == i / n,
                k <= 0,
                i >= 0,
                n > 0,
        ;
    }
}

/// What a stage exchanges at one point of a wave.
#[derive(Debug, Clone, Copy, PartialEq, Eq, Structural)]
pub enum Exchange {
    /// Send an activation.
    SendCarry,
    /// Send an activation and receive tokens, in one group.
    SendCarryRecvTokens,
    /// Receive tokens.
    RecvTokens,
    /// Receive an activation.
    RecvCarry,
    /// Receive an activation and send tokens, in one group.
    RecvCarrySendTokens,
    /// Send tokens.
    SendTokens,
}

/// The exchange that answers another.
pub open spec fn counterpart(e: Exchange) -> Exchange {
    match e {
        Exchange::SendCarry => Exchange::RecvCarry,
        Exchange::SendCarryRecvTokens => Exchange::RecvCarrySendTokens,
        Exchange::RecvTokens => Exchange::SendTokens,
        Exchange::RecvCarry => Exchange::SendCarry,
        Exchange::RecvCarrySendTokens => Exchange::SendCarryRecvTokens,
        Exchange::SendTokens => Exchange::RecvTokens,
    }
}

/// The exchange of the first stage at point `i` of a wave of `njobs` jobs: one point per
/// job, and one to drain the last tokens.
pub open spec fn first_stage_exchange(i: int, njobs: int) -> Exchange {
    if i >= njobs {
        Exchange::RecvTokens
    } else if i == 0 {
        Exchange::SendCarry
    } else {
        Exchange::SendCarryRecvTokens
    }
}

/// The exchange of the last stage at the same point.
pub open spec fn last_stage_exchange(i: int, njobs: int) -> Exchange {
    if i >= njobs {
        Exchange::SendTokens
    } else if i == 0 {
        Exchange::RecvCarry
    } else {
        Exchange::RecvCarrySendTokens
    }
}

pub fn first_exchange(i: usize, njobs: usize) -> (res: Exchange)
    ensures
        res == first_stage_exchange(i as int, njobs as int),
{
    if i >= njobs {
        Exchange::RecvTokens
    } else if i == 0 {
        Exchange::SendCarry
    } else {
        Exchange::SendCarryRecvTokens
    }
}

pub fn last_exchange(i: usize, njobs: usize) -> (res: Exchange)
    ensures
        res == last_stage_exchange(i as int, njobs as int),
{
    if i >= njobs {
        Exchange::SendTokens
    } else if i == 0 {
        Exchange::RecvCarry
    } else {
        Exchange::RecvCarrySendTokens
    }
}

/// The two stages' exchanges answer each other at every point of a wave, so that neither
/// waits for a transfer that the other never makes.
pub proof fn exchanges_are_matched(i: int, njobs: int)
    requires
        0 <= i <= njobs,
    ensures
        last_stage_exchange(i, njobs) == counterpart(first_stage_exchange(i, njobs)),
        first_stage_exchange(i, njobs) == counterpart(last_stage_exchange(i, njobs)),
{
}

/// The first stage sends the carry of every job, and takes the tokens of every job one point
/// later; the last stage does the opposite.
pub proof fn every_job_is_carried_and_answered(i: usize, njobs: usize, a: Exchange, b: Exchange)
    requires
        call_ensures(first_exchange, (i, njobs), a),
        call_ensures(last_exchange, (i, njobs), b),
        0 < njobs,
        i <= njobs,
    ensures
        (a is SendCarry || a is SendCarryRecvTokens) <==> i < njobs,
        (a is RecvTokens || a is SendCarryRecvTokens) <==> i > 0,
        (b is RecvCarry || b is RecvCarrySendTokens) <==> i < njobs,
        (b is SendTokens || b is RecvCarrySendTokens) <==> i > 0,
        a is SendCarry || a is SendCarryRecvTokens || a is RecvTokens,
        b is RecvCarry || b is RecvCarrySendTokens || b is SendTokens,
{
}

/// After a wave every row has one token more per round, in the order of the rounds, from the
/// jobs of its own lane, and its newest token is the last of them.
pub proof fn waves_give_every_row_its_tokens(
    lanes: Seq<LaneView>,
    width: nat,
    res: Seq<Seq<u32>>,
    steps: int,
    m: int,
    r: int,
    k: int,
)
    requires
        lanes_wf(lanes, width),
        0 <= m < lanes.len(),
        0 <= r < width,
        0 <= k < steps,
    ensures
        ({
            let was = lanes[m];
            let now = waved(lanes, res, steps)[m];
            let n = was.generated[r].len() as int;
            &&& now.generated[r].len() == n + steps
            &&& now.generated[r].take(n) == was.generated[r]
            &&& now.generated[r][n + k] == res[k * lanes.len() + m][r]
            &&& now.last == res[(steps - 1) * lanes.len() + m]
            &&& now.pos == was.pos + steps
            &&& now.idxs == was.idxs
            &&& now.key == was.key
        }),
{
    let was = lanes[m];
    let now = waved(lanes, res, steps)[m];
    let n = was.generated[r].len() as int;
    assert(was.wf(width));
    assert(now.generated[r].take(n) =~= was.generated[r]);
}

} // verus!
