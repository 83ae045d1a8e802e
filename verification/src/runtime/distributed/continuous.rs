//! Continuous batching over the two pipeline stages: prompts are admitted from a queue
//! as lanes free up, and finished lanes are retired.
//!
//! Both stages run the same queue over the same prompts and see the same tokens, so they
//! admit and retire alike.

use vstd::multiset::Multiset;
use vstd::prelude::*;
use vstd::seq_lib::{lemma_multiset_commutative, lemma_sorted_unique};

use crate::runtime::distributed::pipeline::{
    copy_tokens, lane_views, lanes_wf, least_remaining, least_remaining_is_least, rows, waved, Lane,
    LaneView,
};

verus! {

/// The queue's state: what is still to come, what is in flight, what is done.
#[derive(Debug)]
pub struct ContinuousQueue {
    /// Rows per lane.
    pub width: usize,
    /// Lanes in flight at most.
    pub max_lanes: usize,
    /// Tokens wanted per prompt.
    pub max_new: usize,
    /// The first prompt that was not taken yet.
    pub next: usize,
    pub active: Vec<Lane>,
    /// Finished prompts with their tokens.
    pub results: Vec<(usize, Vec<u32>)>,
}

/// What a [`ContinuousQueue`] is.
pub struct QueueView {
    pub width: nat,
    pub max_lanes: nat,
    pub max_new: nat,
    pub next: nat,
    pub active: Seq<LaneView>,
    pub results: Seq<(usize, Seq<u32>)>,
}

/// The contents of some finished prompts.
pub open spec fn result_views(v: Seq<(usize, Vec<u32>)>) -> Seq<(usize, Seq<u32>)> {
    v.map_values(|r: (usize, Vec<u32>)| (r.0, r.1@))
}

impl View for ContinuousQueue {
    type V = QueueView;

    open spec fn view(&self) -> QueueView {
        QueueView {
            width: self.width as nat,
            max_lanes: self.max_lanes as nat,
            max_new: self.max_new as nat,
            next: self.next as nat,
            active: lane_views(self.active@),
            results: result_views(self.results@),
        }
    }
}

impl QueueView {
    pub open spec fn wf(self) -> bool {
        self.width >= 1 && lanes_wf(self.active, self.width)
    }
}

/// The prompts from `a` up to `b` that are not empty.
pub open spec fn nonempty_in(prompts: Seq<Seq<u32>>, a: int, b: int) -> Seq<usize>
    decreases b - a,
{
    if a >= b {
        seq![]
    } else if prompts[b - 1].len() > 0 {
        nonempty_in(prompts, a, b - 1).push((b - 1) as usize)
    } else {
        nonempty_in(prompts, a, b - 1)
    }
}

/// Whether a lane has all its tokens.
pub open spec fn finished(l: LaneView, max_new: nat) -> bool {
    l.emitted() >= max_new
}

/// The lanes that go on.
pub open spec fn kept(lanes: Seq<LaneView>, max_new: nat) -> Seq<LaneView>
    decreases lanes.len(),
{
    if lanes.len() == 0 {
        seq![]
    } else if finished(lanes.last(), max_new) {
        kept(lanes.drop_last(), max_new)
    } else {
        kept(lanes.drop_last(), max_new).push(lanes.last())
    }
}

/// The tokens of a lane's real rows.
pub open spec fn lane_results(l: LaneView) -> Seq<(usize, Seq<u32>)> {
    Seq::new(l.idxs.len(), |r: int| (l.idxs[r], l.generated[r]))
}

/// The results of the lanes that are finished.
pub open spec fn retired(lanes: Seq<LaneView>, max_new: nat) -> Seq<(usize, Seq<u32>)>
    decreases lanes.len(),
{
    if lanes.len() == 0 {
        seq![]
    } else if finished(lanes.last(), max_new) {
        retired(lanes.drop_last(), max_new) + lane_results(lanes.last())
    } else {
        retired(lanes.drop_last(), max_new)
    }
}

/// The keys of the lanes that are finished.
pub open spec fn retired_keys(lanes: Seq<LaneView>, max_new: nat) -> Seq<u64>
    decreases lanes.len(),
{
    if lanes.len() == 0 {
        seq![]
    } else if finished(lanes.last(), max_new) {
        retired_keys(lanes.drop_last(), max_new).push(lanes.last().key)
    } else {
        retired_keys(lanes.drop_last(), max_new)
    }
}

/// A lane just admitted, with its first tokens.
pub open spec fn fresh_lane(idxs: Seq<usize>, key: u64, pos: int, first: Seq<u32>) -> LaneView {
    LaneView {
        idxs,
        key,
        pos,
        last: first,
        generated: Seq::new(first.len(), |r: int| seq![first[r]]),
    }
}

/// What taking the next group of prompts comes to: up to a lane's rows of the next
/// non-empty prompts, if a lane is free and any are left.
pub open spec fn group_taken(
    before: QueueView,
    prompts: Seq<Seq<u32>>,
    after: QueueView,
    group: Option<Seq<usize>>,
) -> bool {
    &&& before.next <= after.next <= prompts.len()
    &&& after == (QueueView { next: after.next, ..before })
    &&& match group {
        Some(g) => {
            &&& before.active.len() < before.max_lanes
            &&& g == nonempty_in(prompts, before.next as int, after.next as int)
            &&& 1 <= g.len() <= before.width
            &&& g.len() == before.width || after.next == prompts.len()
            &&& g.len() == before.width ==> g.last() == after.next - 1
        },
        None => {
            if before.active.len() < before.max_lanes {
                &&& after.next == prompts.len()
                &&& nonempty_in(prompts, before.next as int, after.next as int).len() == 0
            } else {
                after.next == before.next
            }
        },
    }
}

impl ContinuousQueue {
    /// A queue with nothing taken yet.
    pub fn new(width: usize, max_lanes: usize, max_new: usize) -> (res: Self)
        requires
            width >= 1,
        ensures
            res@ == (QueueView {
                width: width as nat,
                max_lanes: max_lanes as nat,
                max_new: max_new as nat,
                next: 0,
                active: seq![],
                results: seq![],
            }),
            res@.wf(),
    {
        let q = ContinuousQueue {
            width,
            max_lanes,
            max_new,
            next: 0,
            active: Vec::new(),
            results: Vec::new(),
        };
        assert(lane_views(q.active@) =~= seq![]);
        assert(result_views(q.results@) =~= seq![]);
        q
    }

    /// Takes the prompts of the next lane; `None` if no lane is free or no prompt is
    /// left. Empty prompts are passed over.
    pub fn next_group(&mut self, prompts: &Vec<Vec<u32>>) -> (res: Option<Vec<usize>>)
        requires
            old(self)@.wf(),
            old(self).next <= prompts@.len(),
        ensures
            final(self)@.wf(),
            group_taken(
                old(self)@,
                rows(prompts@),
                final(self)@,
                match res {
                    Some(g) => Some(g@),
                    None => None,
                },
            ),
    {
        let ghost views = rows(prompts@);
        let ghost from = self.next as int;
        if self.active.len() >= self.max_lanes {
            return None;
        }
        let mut idxs: Vec<usize> = Vec::new();
        while idxs.len() < self.width && self.next < prompts.len()
            invariant
                views == rows(prompts@),
                from == old(self).next,
                from <= self.next <= prompts@.len(),
                self@ == (QueueView { next: self.next as nat, ..old(self)@ }),
                self.width >= 1,
                idxs@ == nonempty_in(views, from, self.next as int),
                idxs@.len() <= self.width,
                idxs@.len() == self.width ==> idxs@.last() == self.next - 1,
            decreases prompts.len() - self.next,
        {
            assert(views[self.next as int] == prompts@[self.next as int]@);
            if prompts[self.next].len() > 0 {
                idxs.push(self.next);
            }
            self.next = self.next + 1;
        }
        if idxs.len() == 0 {
            return None;
        }
        Some(idxs)
    }

    /// Puts a group in flight with the first token of each row.
    pub fn put_in_flight(&mut self, idxs: Vec<usize>, key: u64, pos: usize, first: Vec<u32>)
        requires
            old(self)@.wf(),
            1 <= idxs@.len() <= old(self).width,
            first@.len() == old(self).width,
        ensures
            final(self)@.wf(),
            final(self)@ == (QueueView {
                active: old(self)@.active.push(fresh_lane(idxs@, key, pos as int, first@)),
                ..old(self)@
            }),
    {
        let ghost before = self@;
        let mut generated: Vec<Vec<u32>> = Vec::new();
        let mut r: usize = 0;
        while r < first.len()
            invariant
                r <= first@.len(),
                generated@.len() == r,
                forall|j: int| 0 <= j < r ==> (#[trigger] generated@[j])@ == seq![first@[j]],
            decreases first.len() - r,
        {
            let row = vec![first[r]];
            assert(row@ =~= seq![first@[r as int]]);
            generated.push(row);
            r += 1;
        }
        let lane = Lane { idxs, key, pos, last: first, generated };
        let ghost view = fresh_lane(idxs@, key, pos as int, first@);
        assert(lane@.generated =~= view.generated);
        assert(lane@ == view);
        assert(view.wf(self.width as nat));
        let ghost prior = self.active@;
        self.active.push(lane);
        assert(lane_views(self.active@) =~= lane_views(prior).push(view));
        assert forall|m: int| 0 <= m < self@.active.len() implies (#[trigger] self@.active[m]).wf(
            self.width as nat,
        ) by {
            if m < prior.len() {
                assert(self@.active[m] == before.active[m]);
            }
        }
    }

    /// Takes the finished lanes out of flight, stores their rows' tokens, and gives the
    /// keys whose pages are free.
    pub fn retire(&mut self) -> (res: Vec<u64>)
        requires
            old(self)@.wf(),
        ensures
            final(self)@.wf(),
            final(self)@ == (QueueView {
                active: kept(old(self)@.active, old(self)@.max_new),
                results: old(self)@.results + retired(old(self)@.active, old(self)@.max_new),
                ..old(self)@
            }),
            res@ == retired_keys(old(self)@.active, old(self)@.max_new),
    {
        let ghost start = self@.active;
        let ghost done = self@.results;
        let ghost mx = self.max_new as nat;
        let n: usize = self.active.len();
        let mut keys: Vec<u64> = Vec::new();
        let mut i: usize = 0;
        assert(start.skip(0) + kept(start.take(0), mx) =~= start);
        assert(done + retired(start.take(0), mx) =~= done);
        assert(keys@ =~= retired_keys(start.take(0), mx));
        while i < n
            invariant
                i <= n,
                n == start.len(),
                mx == self.max_new,
                start == old(self)@.active,
                done == old(self)@.results,
                lanes_wf(start, self.width as nat),
                self@.active == start.skip(i as int) + kept(start.take(i as int), mx),
                self@.results == done + retired(start.take(i as int), mx),
                keys@ == retired_keys(start.take(i as int), mx),
                self@ == (QueueView {
                    active: self@.active,
                    results: self@.results,
                    ..old(self)@
                }),
            decreases n - i,
        {
            let ghost upto = start.take(i + 1);
            assert(upto.drop_last() =~= start.take(i as int));
            assert(upto.last() == start[i as int]);
            assert(self@.active[0] == start[i as int]);
            let ghost prior = self.active@;
            let ghost rest = lane_views(prior.skip(1));
            assert(self@.active.skip(1) =~= rest);
            let lane = self.active.remove(0);
            assert(lane@ == start[i as int]);
            assert(lane@.wf(self.width as nat));
            assert(self.active@ =~= prior.skip(1));
            assert(lane_views(self.active@) == rest);
            assert(rest =~= start.skip(i + 1) + kept(start.take(i as int), mx));
            if lane.generated[0].len() >= self.max_new {
                let ghost before = self@.results;
                let mut r: usize = 0;
                assert(lane_results(lane@).take(0) =~= seq![]);
                assert(before + lane_results(lane@).take(0) =~= before);
                while r < lane.idxs.len()
                    invariant
                        r <= lane.idxs@.len(),
                        lane@.wf(self.width as nat),
                        self@.results == before + lane_results(lane@).take(r as int),
                        lane_views(self.active@) == rest,
                        self@ == (QueueView {
                            active: rest,
                            results: self@.results,
                            ..old(self)@
                        }),
                    decreases lane.idxs.len() - r,
                {
                    let ghost stored = self.results@;
                    let tokens = copy_tokens(&lane.generated[r]);
                    self.results.push((lane.idxs[r], tokens));
                    proof {
                        let one = (lane.idxs@[r as int], tokens@);
                        assert(result_views(self.results@) =~= result_views(stored).push(one));
                        assert(one == lane_results(lane@)[r as int]);
                        assert(lane_results(lane@).take(r + 1) =~= lane_results(lane@).take(
                            r as int,
                        ).push(one));
                        assert(self@.results =~= before + lane_results(lane@).take(r + 1));
                    }
                    r += 1;
                }
                assert(lane_results(lane@).take(r as int) =~= lane_results(lane@));
                keys.push(lane.key);
                assert(self@.results =~= done + retired(upto, mx));
            } else {
                let ghost others = self.active@;
                self.active.push(lane);
                assert(lane_views(self.active@) =~= lane_views(others).push(lane@));
                assert(self@.active =~= start.skip(i + 1) + kept(upto, mx));
            }
            i += 1;
        }
        assert(start.take(n as int) =~= start);
        assert(start.skip(n as int) + kept(start, mx) =~= kept(start, mx));
        proof {
            kept_are_wf(start, mx, self.width as nat);
        }
        keys
    }

    /// The finished prompts with their tokens, in the order of the prompts.
    pub fn finish(self) -> (res: Vec<(usize, Vec<u32>)>)
        ensures
            result_views(res@).to_multiset() == self@.results.to_multiset(),
            forall|i: int, j: int| 0 <= i < j < res@.len() ==> res@[i].0 <= res@[j].0,
    {
        in_prompt_order(self.results)
    }
}

/// Sorts finished prompts into the order of the prompts.
pub fn in_prompt_order(results: Vec<(usize, Vec<u32>)>) -> (res: Vec<(usize, Vec<u32>)>)
    ensures
        result_views(res@).to_multiset() == result_views(results@).to_multiset(),
        forall|i: int, j: int| 0 <= i < j < res@.len() ==> res@[i].0 <= res@[j].0,
{
    let mut left = results;
    let ghost all = result_views(left@);
    let mut out: Vec<(usize, Vec<u32>)> = Vec::new();
    assert(result_views(out@) =~= seq![]);
    proof {
        empty_to_multiset(result_views(out@));
        assert(all.to_multiset() =~= all.to_multiset().add(result_views(out@).to_multiset()));
    }
    while left.len() > 0
        invariant
            all.to_multiset() == result_views(left@).to_multiset().add(
                result_views(out@).to_multiset(),
            ),
            forall|i: int, j: int| 0 <= i < j < out@.len() ==> out@[i].0 <= out@[j].0,
        decreases left.len(),
    {
        let ghost before = left@;
        let item = match left.pop() {
            Some(item) => item,
            None => {
                return out;
            },
        };
        let mut at: usize = out.len();
        while at > 0 && out[at - 1].0 > item.0
            invariant
                at <= out@.len(),
                forall|j: int| at <= j < out@.len() ==> item.0 < (#[trigger] out@[j]).0,
            decreases at,
        {
            at -= 1;
        }
        let ghost placed = out@;
        out.insert(at, item);
        proof {
            broadcast use vstd::seq_lib::group_to_multiset_ensures;

            let one = (item.0, item.1@);
            assert(before =~= left@.push(item));
            assert(result_views(before) =~= result_views(left@).push(one));
            assert(result_views(out@) =~= result_views(placed).insert(at as int, one));
            assert(all.to_multiset() =~= result_views(left@).to_multiset().add(
                result_views(out@).to_multiset(),
            ));
        }
    }
    assert(result_views(left@) =~= seq![]);
    proof {
        empty_to_multiset(result_views(left@));
    }
    assert(all.to_multiset() =~= result_views(out@).to_multiset());
    out
}

/// Nothing makes the empty multiset.
proof fn empty_to_multiset<A>(s: Seq<A>)
    requires
        s.len() == 0,
    ensures
        s.to_multiset() == Multiset::<A>::empty(),
{
    broadcast use vstd::seq_lib::group_to_multiset_ensures;

    assert forall|a: A| s.to_multiset().count(a) == 0 by {
        assert(!s.contains(a));
        assert(!s.to_multiset().contains(a));
    }
    assert(s.to_multiset() =~= Multiset::<A>::empty());
}

proof fn kept_are_wf(lanes: Seq<LaneView>, max_new: nat, width: nat)
    requires
        lanes_wf(lanes, width),
    ensures
        lanes_wf(kept(lanes, max_new), width),
        forall|m: int|
            0 <= m < kept(lanes, max_new).len() ==> !finished(
                #[trigger] kept(lanes, max_new)[m],
                max_new,
            ),
    decreases lanes.len(),
{
    if lanes.len() > 0 {
        let front = lanes.drop_last();
        assert forall|m: int| 0 <= m < front.len() implies (#[trigger] front[m]).wf(width) by {
            assert(front[m] == lanes[m]);
        }
        kept_are_wf(front, max_new, width);
        assert(lanes.last() == lanes[lanes.len() - 1]);
    }
}

/// The prompts of some lanes' real rows.
pub open spec fn lane_prompts(lanes: Seq<LaneView>) -> Seq<usize>
    decreases lanes.len(),
{
    if lanes.len() == 0 {
        seq![]
    } else {
        lane_prompts(lanes.drop_last()) + lanes.last().idxs
    }
}

/// The prompts of some results.
pub open spec fn result_prompts(results: Seq<(usize, Seq<u32>)>) -> Seq<usize> {
    results.map_values(|r: (usize, Seq<u32>)| r.0)
}

/// The tokens that every prompt gets: as many as wanted, but at least one.
pub open spec fn quota(max_new: nat) -> nat {
    if max_new == 0 {
        1
    } else {
        max_new
    }
}

/// The queue's books: every non-empty prompt that was taken is exactly once among the
/// results, the lanes in flight and the group in hand; no lane exceeds its quota, and
/// every result has it in full.
pub open spec fn accounted(q: QueueView, prompts: Seq<Seq<u32>>, in_hand: Seq<usize>) -> bool {
    &&& q.wf()
    &&& q.next <= prompts.len() <= usize::MAX
    &&& forall|m: int|
        0 <= m < q.active.len() ==> (#[trigger] q.active[m]).emitted() <= quota(q.max_new)
    &&& forall|i: int|
        0 <= i < q.results.len() ==> (#[trigger] q.results[i]).1.len() == quota(q.max_new)
    &&& result_prompts(q.results).to_multiset().add(lane_prompts(q.active).to_multiset()).add(
        in_hand.to_multiset(),
    ) == nonempty_in(prompts, 0, q.next as int).to_multiset()
}

/// A queue starts with its books in order.
pub proof fn books_open(q: QueueView, prompts: Seq<Seq<u32>>)
    requires
        q.wf(),
        q.next == 0,
        q.active.len() == 0,
        q.results.len() == 0,
        prompts.len() <= usize::MAX,
    ensures
        accounted(q, prompts, seq![]),
{
    empty_to_multiset(result_prompts(q.results));
    empty_to_multiset(lane_prompts(q.active));
    empty_to_multiset(Seq::<usize>::empty());
    empty_to_multiset(nonempty_in(prompts, 0, 0));
    assert(Multiset::<usize>::empty().add(Multiset::empty()).add(Multiset::empty())
        =~= Multiset::empty());
}

proof fn nonempty_split(prompts: Seq<Seq<u32>>, a: int, b: int, c: int)
    requires
        a <= b <= c,
    ensures
        nonempty_in(prompts, a, c) == nonempty_in(prompts, a, b) + nonempty_in(prompts, b, c),
    decreases c - b,
{
    if b == c {
        assert(nonempty_in(prompts, a, b) + seq![] =~= nonempty_in(prompts, a, b));
    } else {
        nonempty_split(prompts, a, b, c - 1);
        assert(nonempty_in(prompts, a, c) =~= nonempty_in(prompts, a, b) + nonempty_in(
            prompts,
            b,
            c,
        ));
    }
}

/// Taking a group keeps the books.
pub proof fn taking_keeps_the_books(
    before: QueueView,
    prompts: Seq<Seq<u32>>,
    after: QueueView,
    group: Option<Seq<usize>>,
)
    requires
        accounted(before, prompts, seq![]),
        group_taken(before, prompts, after, group),
    ensures
        accounted(
            after,
            prompts,
            match group {
                Some(g) => g,
                None => seq![],
            },
        ),
{
    let taken = nonempty_in(prompts, before.next as int, after.next as int);
    let in_hand = match group {
        Some(g) => g,
        None => seq![],
    };
    assert(group is None ==> taken =~= seq![]);
    assert(in_hand == taken);
    nonempty_split(prompts, 0, before.next as int, after.next as int);
    lemma_multiset_commutative(nonempty_in(prompts, 0, before.next as int), taken);
    let held = result_prompts(before.results).to_multiset().add(
        lane_prompts(before.active).to_multiset(),
    );
    empty_to_multiset(Seq::<usize>::empty());
    assert(held.add(Multiset::empty()) =~= held);
}

/// Putting the group in hand in flight keeps the books.
pub proof fn admission_keeps_the_books(
    before: QueueView,
    prompts: Seq<Seq<u32>>,
    idxs: Seq<usize>,
    key: u64,
    pos: int,
    first: Seq<u32>,
)
    requires
        accounted(before, prompts, idxs),
        1 <= idxs.len() <= before.width,
        first.len() == before.width,
    ensures
        accounted(
            QueueView {
                active: before.active.push(fresh_lane(idxs, key, pos, first)),
                ..before
            },
            prompts,
            seq![],
        ),
{
    let lane = fresh_lane(idxs, key, pos, first);
    let active = before.active.push(lane);
    assert(lane.wf(before.width));
    assert forall|m: int| 0 <= m < active.len() implies (#[trigger] active[m]).wf(before.width)
        && active[m].emitted() <= quota(before.max_new) by {
        if m < before.active.len() {
            assert(active[m] == before.active[m]);
        }
    }
    assert(active.drop_last() =~= before.active);
    lemma_multiset_commutative(lane_prompts(before.active), idxs);
    let r = result_prompts(before.results).to_multiset();
    let l = lane_prompts(before.active).to_multiset();
    let g = idxs.to_multiset();
    empty_to_multiset(Seq::<usize>::empty());
    assert(r.add(l.add(g)).add(Multiset::empty()) =~= r.add(l).add(g));
}

/// A wave that runs until the soonest lane is finished keeps the books: no lane gets
/// more tokens than its quota.
pub proof fn waves_keep_the_books(before: QueueView, prompts: Seq<Seq<u32>>, res: Seq<Seq<u32>>)
    requires
        accounted(before, prompts, seq![]),
        forall|m: int|
            0 <= m < before.active.len() ==> before.max_new <= 1 || !finished(
                #[trigger] before.active[m],
                before.max_new,
            ),
        forall|i: int| 0 <= i < res.len() ==> (#[trigger] res[i]).len() == before.width,
        res.len() == least_remaining(before.active, before.max_new) * before.active.len(),
    ensures
        accounted(
            QueueView {
                active: waved(
                    before.active,
                    res,
                    least_remaining(before.active, before.max_new) as int,
                ),
                ..before
            },
            prompts,
            seq![],
        ),
{
    let steps = least_remaining(before.active, before.max_new);
    let lanes = waved(before.active, res, steps as int);
    let n = before.active.len();
    least_remaining_is_least(before.active, before.max_new);
    assert forall|m: int| 0 <= m < lanes.len() implies (#[trigger] lanes[m]).wf(before.width)
        && lanes[m].emitted() <= quota(before.max_new) by {
        let l = before.active[m];
        assert(l.wf(before.width));
        if steps > 0 {
            crate::runtime::distributed::pipeline::job_in_range(
                steps - 1,
                n as int,
                m,
                steps as int,
            );
            assert(res[(steps - 1) * n + m].len() == before.width);
            assert(!finished(l, before.max_new)) by {
                if before.max_new <= 1 {
                    assert(l.emitted() >= before.max_new);
                    let k = choose|k: int|
                        0 <= k < n && (#[trigger] before.active[k]).emitted() + steps
                            == before.max_new;
                    assert(before.active[k].wf(before.width));
                }
            }
        }
        assert forall|r: int| 0 <= r < before.width implies (
        #[trigger] lanes[m].generated[r]).len() == lanes[m].emitted()
            && lanes[m].generated[r].last() == lanes[m].last[r] by {
            assert(l.generated[r].len() == l.emitted());
        }
    }
    waved_prompts(before.active, res, steps as int, n as int);
}

proof fn waved_prompts(lanes: Seq<LaneView>, res: Seq<Seq<u32>>, steps: int, upto: int)
    requires
        0 <= upto <= lanes.len(),
    ensures
        lane_prompts(waved(lanes, res, steps).take(upto)) == lane_prompts(lanes.take(upto)),
        upto == lanes.len() ==> lane_prompts(waved(lanes, res, steps)) == lane_prompts(lanes),
    decreases upto,
{
    let w = waved(lanes, res, steps);
    if upto > 0 {
        waved_prompts(lanes, res, steps, upto - 1);
        assert(w.take(upto).drop_last() =~= w.take(upto - 1));
        assert(lanes.take(upto).drop_last() =~= lanes.take(upto - 1));
    }
    if upto == lanes.len() {
        assert(w.take(upto) =~= w);
        assert(lanes.take(upto) =~= lanes);
    }
}

/// Retiring keeps the books, and leaves only lanes in flight that lack tokens.
pub proof fn retiring_keeps_the_books(before: QueueView, prompts: Seq<Seq<u32>>)
    requires
        accounted(before, prompts, seq![]),
    ensures
        accounted(
            QueueView {
                active: kept(before.active, before.max_new),
                results: before.results + retired(before.active, before.max_new),
                ..before
            },
            prompts,
            seq![],
        ),
        forall|m: int|
            0 <= m < kept(before.active, before.max_new).len() ==> !finished(
                #[trigger] kept(before.active, before.max_new)[m],
                before.max_new,
            ),
{
    let out = retired(before.active, before.max_new);
    let all = before.results + out;
    kept_are_wf(before.active, before.max_new, before.width);
    retiring_splits(before.active, before.max_new, before.width);
    assert forall|i: int| 0 <= i < all.len() implies (#[trigger] all[i]).1.len() == quota(
        before.max_new,
    ) by {
        if i < before.results.len() {
            assert(all[i] == before.results[i]);
        } else {
            assert(all[i] == out[i - before.results.len()]);
        }
    }
    assert(result_prompts(all) =~= result_prompts(before.results) + result_prompts(out));
    lemma_multiset_commutative(result_prompts(before.results), result_prompts(out));
    let r = result_prompts(before.results).to_multiset();
    let o = result_prompts(out).to_multiset();
    let k = lane_prompts(kept(before.active, before.max_new)).to_multiset();
    let e = Seq::<usize>::empty().to_multiset();
    assert(r.add(o).add(k).add(e) =~= r.add(k.add(o)).add(e));
}

proof fn retiring_splits(lanes: Seq<LaneView>, max_new: nat, width: nat)
    requires
        lanes_wf(lanes, width),
        forall|m: int| 0 <= m < lanes.len() ==> (#[trigger] lanes[m]).emitted() <= quota(max_new),
    ensures
        lane_prompts(lanes).to_multiset() == lane_prompts(kept(lanes, max_new)).to_multiset().add(
            result_prompts(retired(lanes, max_new)).to_multiset(),
        ),
        forall|i: int|
            0 <= i < retired(lanes, max_new).len() ==> (
            #[trigger] retired(lanes, max_new)[i]).1.len() == quota(max_new),
        forall|m: int|
            0 <= m < kept(lanes, max_new).len() ==> (#[trigger] kept(lanes, max_new)[m]).emitted()
                <= quota(max_new),
    decreases lanes.len(),
{
    let k = kept(lanes, max_new);
    let o = retired(lanes, max_new);
    if lanes.len() == 0 {
        empty_to_multiset(result_prompts(o));
        empty_to_multiset(lane_prompts(k));
        empty_to_multiset(lane_prompts(lanes));
        assert(Multiset::<usize>::empty().add(Multiset::empty()) =~= Multiset::empty());
    } else {
        let front = lanes.drop_last();
        let last = lanes.last();
        assert forall|m: int| 0 <= m < front.len() implies (#[trigger] front[m]).wf(width)
            && front[m].emitted() <= quota(max_new) by {
            assert(front[m] == lanes[m]);
        }
        assert(last == lanes[lanes.len() - 1]);
        retiring_splits(front, max_new, width);
        let fk = kept(front, max_new);
        let fo = retired(front, max_new);
        lemma_multiset_commutative(lane_prompts(front), last.idxs);
        if finished(last, max_new) {
            assert(result_prompts(o) =~= result_prompts(fo) + last.idxs);
            lemma_multiset_commutative(result_prompts(fo), last.idxs);
            assert forall|i: int| 0 <= i < o.len() implies (#[trigger] o[i]).1.len() == quota(
                max_new,
            ) by {
                if i < fo.len() {
                    assert(o[i] == fo[i]);
                } else {
                    let r = i - fo.len();
                    assert(o[i] == lane_results(last)[r]);
                    assert(last.generated[r].len() == last.emitted());
                }
            }
        } else {
            assert(k.drop_last() =~= fk);
            assert(k.last() == last);
            lemma_multiset_commutative(lane_prompts(fk), last.idxs);
        }
        assert(lane_prompts(lanes).to_multiset() =~= lane_prompts(k).to_multiset().add(
            result_prompts(o).to_multiset(),
        ));
    }
}

/// A wave makes progress: some lane is finished after it.
pub proof fn waves_finish_a_lane(
    lanes: Seq<LaneView>,
    width: nat,
    res: Seq<Seq<u32>>,
    max_new: nat,
)
    requires
        lanes.len() > 0,
        lanes_wf(lanes, width),
    ensures
        exists|m: int|
            0 <= m < lanes.len() && finished(
                #[trigger] waved(lanes, res, least_remaining(lanes, max_new) as int)[m],
                max_new,
            ),
{
    let steps = least_remaining(lanes, max_new);
    let after = waved(lanes, res, steps as int);
    least_remaining_is_least(lanes, max_new);
    if steps > 0 {
        let m = choose|m: int|
            0 <= m < lanes.len() && (#[trigger] lanes[m]).emitted() + steps == max_new;
        assert(lanes[m].wf(width));
        assert(after[m].emitted() == max_new);
    } else {
        assert(after[0].generated =~= lanes[0].generated);
        assert(!(lanes[0].emitted() < max_new));
        assert(finished(after[0], max_new));
    }
}

proof fn nonempty_ascends(prompts: Seq<Seq<u32>>, b: int)
    requires
        0 <= b <= prompts.len() <= usize::MAX,
    ensures
        forall|i: int, j: int|
            0 <= i < j < nonempty_in(prompts, 0, b).len() ==> nonempty_in(prompts, 0, b)[i]
                < nonempty_in(prompts, 0, b)[j],
        forall|i: int|
            0 <= i < nonempty_in(prompts, 0, b).len() ==> (#[trigger] nonempty_in(
                prompts,
                0,
                b,
            )[i]) < b,
    decreases b,
{
    if b > 0 {
        nonempty_ascends(prompts, b - 1);
        let front = nonempty_in(prompts, 0, b - 1);
        let all = nonempty_in(prompts, 0, b);
        assert forall|i: int| 0 <= i < all.len() implies (#[trigger] all[i]) < b && (i
            < front.len() ==> all[i] == front[i]) by {
            if i < front.len() {
                assert(all[i] == front[i]);
            }
        }
        assert forall|i: int, j: int| 0 <= i < j < all.len() implies all[i] < all[j] by {
            assert(all[i] == front[i]);
            if j < front.len() {
                assert(all[j] == front[j]);
            }
        }
    }
}

/// When the queue is exhausted and nothing is in flight, the results in prompt order are
/// exactly the non-empty prompts, each once, each with its full quota of tokens.
pub proof fn exhausted_queue_is_complete(
    q: QueueView,
    prompts: Seq<Seq<u32>>,
    out: Seq<(usize, Seq<u32>)>,
)
    requires
        accounted(q, prompts, seq![]),
        q.active.len() == 0,
        q.next == prompts.len(),
        out.to_multiset() == q.results.to_multiset(),
        forall|i: int, j: int| 0 <= i < j < out.len() ==> out[i].0 <= out[j].0,
    ensures
        result_prompts(out) == nonempty_in(prompts, 0, prompts.len() as int),
        forall|i: int| 0 <= i < out.len() ==> (#[trigger] out[i]).1.len() == quota(q.max_new),
{
    broadcast use vstd::seq_lib::group_to_multiset_ensures;

    let want = nonempty_in(prompts, 0, prompts.len() as int);
    let have = result_prompts(out);
    nonempty_ascends(prompts, prompts.len() as int);
    let r = result_prompts(q.results).to_multiset();
    empty_to_multiset(lane_prompts(q.active));
    empty_to_multiset(Seq::<usize>::empty());
    assert(r.add(Multiset::empty()).add(Multiset::empty()) =~= r);
    prompts_of_equal_results(out, q.results);
    let leq = |a: usize, b: usize| a <= b;
    assert(vstd::relations::sorted_by(have, leq));
    assert(vstd::relations::sorted_by(want, leq));
    assert(vstd::relations::total_ordering(leq));
    lemma_sorted_unique(have, want, leq);
    assert forall|i: int| 0 <= i < out.len() implies (#[trigger] out[i]).1.len() == quota(
        q.max_new,
    ) by {
        assert(out.to_multiset().contains(out[i]));
        assert(q.results.contains(out[i]));
        let k = q.results.index_of(out[i]);
        assert(q.results[k] == out[i]);
    }
}

/// Results that agree as multisets have prompts that do.
proof fn prompts_of_equal_results(a: Seq<(usize, Seq<u32>)>, b: Seq<(usize, Seq<u32>)>)
    requires
        a.to_multiset() == b.to_multiset(),
    ensures
        result_prompts(a).to_multiset() == result_prompts(b).to_multiset(),
    decreases a.len(),
{
    broadcast use vstd::seq_lib::group_to_multiset_ensures;

    assert(a.len() == a.to_multiset().len());
    assert(b.len() == b.to_multiset().len());
    if a.len() == 0 {
        assert(result_prompts(a) =~= result_prompts(b));
    } else {
        let x = a.last();
        assert(a.to_multiset().contains(x));
        assert(b.contains(x));
        let k = b.index_of(x);
        let c = b.remove(k);
        assert(a.drop_last() =~= a.remove(a.len() - 1));
        assert(a.drop_last().to_multiset() =~= c.to_multiset());
        prompts_of_equal_results(a.drop_last(), c);
        assert(result_prompts(a) =~= result_prompts(a.drop_last()).push(x.0));
        assert(result_prompts(c) =~= result_prompts(b).remove(k));
        assert(result_prompts(b)[k] == x.0);
        assert(result_prompts(a).to_multiset() =~= result_prompts(b).to_multiset());
    }
}

/// Whether no lane in flight is finished; with one token wanted every lane is finished at
/// once.
pub open spec fn none_finished(q: QueueView) -> bool {
    q.max_new <= 1 || forall|m: int|
        0 <= m < q.active.len() ==> !finished(#[trigger] q.active[m], q.max_new)
}

/// Admission leaves no lane in flight finished: what [`waves_keep_the_books`] asks for
/// holds from one retirement to the next wave.
pub proof fn admission_adds_no_finished_lane(
    before: QueueView,
    idxs: Seq<usize>,
    key: u64,
    pos: int,
    first: Seq<u32>,
)
    requires
        none_finished(before),
        first.len() >= 1,
    ensures
        none_finished(
            QueueView {
                active: before.active.push(fresh_lane(idxs, key, pos, first)),
                ..before
            },
        ),
{
    let active = before.active.push(fresh_lane(idxs, key, pos, first));
    if before.max_new > 1 {
        assert forall|m: int| 0 <= m < active.len() implies !finished(
            #[trigger] active[m],
            before.max_new,
        ) by {
            if m < before.active.len() {
                assert(active[m] == before.active[m]);
            }
        }
    }
}

/// Fills a group up to `width` rows by repeating its last prompt.
pub fn pad_group(group: &Vec<usize>, width: usize) -> (res: Vec<usize>)
    requires
        1 <= group@.len() <= width,
    ensures
        res@ == Seq::new(
            width as nat,
            |r: int|
                if r < group@.len() {
                    group@[r]
                } else {
                    group@.last()
                },
        ),
{
    let mut out: Vec<usize> = Vec::new();
    let mut r: usize = 0;
    while r < width
        invariant
            r <= width,
            1 <= group@.len() <= width,
            out@.len() == r,
            forall|i: int|
                0 <= i < r ==> #[trigger] out@[i] == if i < group@.len() {
                    group@[i]
                } else {
                    group@.last()
                },
        decreases width - r,
    {
        if r < group.len() {
            out.push(group[r]);
        } else {
            out.push(group[group.len() - 1]);
        }
        r += 1;
    }
    assert(out@ =~= Seq::new(
        width as nat,
        |r: int|
            if r < group@.len() {
                group@[r]
            } else {
                group@.last()
            },
    ));
    out
}

/// What the rows of a group are fed at a prefill position: their prompts' tokens, and zero
/// past a prompt's end.
pub fn prefill_tokens(prompts: &Vec<Vec<u32>>, group: &Vec<usize>, pos: usize) -> (res: Vec<u32>)
    requires
        forall|r: int| 0 <= r < group@.len() ==> (#[trigger] group@[r]) < prompts@.len(),
    ensures
        res@.len() == group@.len(),
        forall|r: int|
            0 <= r < group@.len() ==> #[trigger] res@[r] == if pos
                < prompts@[group@[r] as int]@.len() {
                prompts@[group@[r] as int]@[pos as int]
            } else {
                0
            },
{
    let mut out: Vec<u32> = Vec::new();
    let mut r: usize = 0;
    while r < group.len()
        invariant
            r <= group@.len(),
            forall|i: int| 0 <= i < group@.len() ==> (#[trigger] group@[i]) < prompts@.len(),
            out@.len() == r,
            forall|i: int|
                0 <= i < r ==> #[trigger] out@[i] == if pos < prompts@[group@[i] as int]@.len() {
                    prompts@[group@[i] as int]@[pos as int]
                } else {
                    0
                },
        decreases group.len() - r,
    {
        let prompt = &prompts[group[r]];
        if pos < prompt.len() {
            out.push(prompt[pos]);
        } else {
            out.push(0);
        }
        r += 1;
    }
    out
}

/// The number of prefill steps of a group: the length of its longest prompt.
pub fn prefill_len(prompts: &Vec<Vec<u32>>, group: &Vec<usize>) -> (res: usize)
    requires
        group@.len() > 0,
        forall|r: int| 0 <= r < group@.len() ==> (#[trigger] group@[r]) < prompts@.len(),
    ensures
        forall|r: int|
            0 <= r < group@.len() ==> prompts@[(#[trigger] group@[r]) as int]@.len() <= res,
        exists|r: int|
            0 <= r < group@.len() && prompts@[(#[trigger] group@[r]) as int]@.len() == res,
{
    let mut best: usize = prompts[group[0]].len();
    let mut r: usize = 1;
    assert(prompts@[group@[0] as int]@.len() == best);
    while r < group.len()
        invariant
            1 <= r <= group@.len(),
            forall|i: int| 0 <= i < group@.len() ==> (#[trigger] group@[i]) < prompts@.len(),
            forall|i: int|
                0 <= i < r ==> prompts@[(#[trigger] group@[i]) as int]@.len() <= best,
            exists|i: int|
                0 <= i < r && prompts@[(#[trigger] group@[i]) as int]@.len() == best,
        decreases group.len() - r,
    {
        let n: usize = prompts[group[r]].len();
        if n > best {
            best = n;
            assert(prompts@[group@[r as int] as int]@.len() == best);
        }
        r += 1;
    }
    best
}

/// The prompts that are not empty are just those: all of them, and in order.
pub proof fn nonempty_are_the_nonempty(prompts: Seq<Seq<u32>>, a: int, b: int, p: usize)
    requires
        0 <= a,
        b <= prompts.len() <= usize::MAX,
    ensures
        nonempty_in(prompts, a, b).contains(p) <==> a <= p < b && prompts[p as int].len() > 0,
        forall|i: int, j: int|
            0 <= i < j < nonempty_in(prompts, a, b).len() ==> nonempty_in(prompts, a, b)[i]
                < nonempty_in(prompts, a, b)[j],
        forall|i: int|
            0 <= i < nonempty_in(prompts, a, b).len() ==> a <= (#[trigger] nonempty_in(
                prompts,
                a,
                b,
            )[i]) < b,
    decreases b - a,
{
    if a < b {
        let before = nonempty_in(prompts, a, b - 1);
        let now = nonempty_in(prompts, a, b);
        nonempty_are_the_nonempty(prompts, a, b - 1, p);
        if prompts[b - 1].len() > 0 {
            assert(now == before.push((b - 1) as usize));
            assert(now[before.len() as int] == b - 1);
            if before.contains(p) {
                let q = before.index_of(p);
                assert(now[q] == p);
            }
            if now.contains(p) && p != b - 1 {
                let q = now.index_of(p);
                assert(before[q] == p);
            }
        }
    }
}

/// A prompt's result is what its own row generated: the results of the lanes that are retired
/// are, row by row, the prompt and the tokens of that row, for every real row of every
/// finished lane and for nothing else.
pub proof fn results_are_the_rows_own(
    lanes: Seq<LaneView>,
    max_new: nat,
    prompt: usize,
    tokens: Seq<u32>,
)
    ensures
        retired(lanes, max_new).contains((prompt, tokens)) <==> exists|m: int, r: int|
            row_of_finished(lanes, max_new, m, r, prompt, tokens),
    decreases lanes.len(),
{
    let it = (prompt, tokens);
    if lanes.len() > 0 {
        let front = lanes.drop_last();
        let last = lanes.len() - 1;
        let before = retired(front, max_new);
        let now = retired(lanes, max_new);
        results_are_the_rows_own(front, max_new, prompt, tokens);
        if exists|m: int, r: int| row_of_finished(lanes, max_new, m, r, prompt, tokens) {
            let (m, r) = choose|m: int, r: int|
                row_of_finished(lanes, max_new, m, r, prompt, tokens);
            if m < last {
                assert(front[m] == lanes[m]);
                assert(row_of_finished(front, max_new, m, r, prompt, tokens));
                let q = before.index_of(it);
                assert(now[q] == it);
            } else {
                let own = lane_results(lanes.last());
                assert(own[r] == it);
                assert(now[before.len() + r] == it);
            }
        }
        if now.contains(it) {
            let q = now.index_of(it);
            if q < before.len() {
                assert(before[q] == it);
                let (m, r) = choose|m: int, r: int|
                    row_of_finished(front, max_new, m, r, prompt, tokens);
                assert(front[m] == lanes[m]);
                assert(row_of_finished(lanes, max_new, m, r, prompt, tokens));
            } else {
                let r = q - before.len();
                assert(lane_results(lanes.last())[r] == it);
                assert(row_of_finished(lanes, max_new, last, r, prompt, tokens));
            }
        }
    }
}

/// Whether a lane has all its tokens, and row `r` of it, a real one, is this prompt's with
/// these tokens.
pub open spec fn row_of_finished(
    lanes: Seq<LaneView>,
    max_new: nat,
    m: int,
    r: int,
    prompt: usize,
    tokens: Seq<u32>,
) -> bool {
    &&& 0 <= m < lanes.len()
    &&& lanes[m].generated[0].len() >= max_new
    &&& 0 <= r < lanes[m].idxs.len()
    &&& lanes[m].idxs[r] == prompt
    &&& lanes[m].generated[r] == tokens
}

/// Exactly the lanes that have all their tokens leave, and their pages are freed; the others
/// go on as they are.
pub proof fn finished_lanes_leave(lanes: Seq<LaneView>, max_new: nat, l: LaneView, key: u64)
    ensures
        kept(lanes, max_new).contains(l) <==> lanes.contains(l) && l.generated[0].len() < max_new,
        retired_keys(lanes, max_new).contains(key) <==> exists|m: int|
            0 <= m < lanes.len() && (#[trigger] lanes[m]).key == key && lanes[m].generated[0].len()
                >= max_new,
        kept(lanes, max_new).len() + retired_keys(lanes, max_new).len() == lanes.len(),
    decreases lanes.len(),
{
    if lanes.len() > 0 {
        let front = lanes.drop_last();
        let last = lanes.len() - 1;
        finished_lanes_leave(front, max_new, l, key);
        assert(lanes[last] == lanes.last());
        if front.contains(l) {
            let i = front.index_of(l);
            assert(lanes[i] == l);
        }
        if lanes.contains(l) && l != lanes.last() {
            let i = lanes.index_of(l);
            assert(front[i] == l);
        }
        if exists|m: int|
            0 <= m < front.len() && (#[trigger] front[m]).key == key && front[m].generated[0].len()
                >= max_new {
            let m = choose|m: int|
                0 <= m < front.len() && (#[trigger] front[m]).key == key
                    && front[m].generated[0].len() >= max_new;
            assert(lanes[m] == front[m]);
        }
        if exists|m: int|
            0 <= m < lanes.len() && (#[trigger] lanes[m]).key == key && lanes[m].generated[0].len()
                >= max_new {
            let m = choose|m: int|
                0 <= m < lanes.len() && (#[trigger] lanes[m]).key == key
                    && lanes[m].generated[0].len() >= max_new;
            if m < last {
                assert(front[m] == lanes[m]);
            }
        }
        if finished(lanes.last(), max_new) {
            let was = retired_keys(front, max_new);
            let now = retired_keys(lanes, max_new);
            assert(now == was.push(lanes.last().key));
            assert(now[was.len() as int] == lanes.last().key);
            if was.contains(key) {
                let q = was.index_of(key);
                assert(now[q] == key);
            }
            if now.contains(key) && key != lanes.last().key {
                let q = now.index_of(key);
                assert(was[q] == key);
            }
        } else {
            let was = kept(front, max_new);
            let now = kept(lanes, max_new);
            assert(now == was.push(lanes.last()));
            assert(now[was.len() as int] == lanes.last());
            if was.contains(l) {
                let q = was.index_of(l);
                assert(now[q] == l);
            }
            if now.contains(l) && l != lanes.last() {
                let q = now.index_of(l);
                assert(was[q] == l);
            }
        }
    }
}

/// The rows of a group are fed their own prompts: a real row its prompt's token at the
/// position, as far as the prompt reaches, and a row that fills the group up that of the
/// group's last prompt.
pub proof fn group_rows_are_fed_their_prompts(
    prompts: &Vec<Vec<u32>>,
    group: &Vec<usize>,
    width: usize,
    padded: Vec<usize>,
    pos: usize,
    fed: Vec<u32>,
    r: int,
)
    requires
        call_ensures(pad_group, (group, width), padded),
        call_ensures(prefill_tokens, (prompts, &padded, pos), fed),
        1 <= group@.len() <= width,
        0 <= r < width,
    ensures
        padded@.len() == width,
        fed@.len() == width,
        ({
            let p = prompts@[if r < group@.len() {
                group@[r]
            } else {
                group@[group@.len() - 1]
            } as int]@;
            &&& pos < p.len() ==> fed@[r] == p[pos as int]
            &&& pos >= p.len() ==> fed@[r] == 0
        }),
{
}

/// A free lane takes the next prompts, as many as it has rows while there are any: a group holds
/// the first prompts that wait and are not empty, in order, and is short only where no more
/// are left; there is no group exactly where no lane is free or nothing waits.
pub proof fn groups_fill_their_lane(
    before: QueueView,
    prompts: Seq<Seq<u32>>,
    after: QueueView,
    group: Option<Seq<usize>>,
    p: usize,
)
    requires
        group_taken(before, prompts, after, group),
        prompts.len() <= usize::MAX,
        before.next <= p < prompts.len(),
        prompts[p as int].len() > 0,
    ensures
        after.active == before.active,
        after.results == before.results,
        before.active.len() >= before.max_lanes ==> group is None && after.next == before.next,
        before.active.len() < before.max_lanes ==> group is Some,
        group matches Some(g) ==> {
            &&& g.contains(p) <==> p < after.next
            &&& p >= after.next ==> g.len() == before.width
            &&& g.len() <= before.width
            &&& forall|i: int, j: int| 0 <= i < j < g.len() ==> g[i] < g[j]
        },
{
    nonempty_are_the_nonempty(prompts, before.next as int, after.next as int, p);
    if group is None && before.active.len() < before.max_lanes {
        let all = nonempty_in(prompts, before.next as int, after.next as int);
        assert(all.contains(p));
        assert(all.len() == 0);
    }
}

} // verus!
