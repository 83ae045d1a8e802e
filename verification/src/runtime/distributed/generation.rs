//! Single-stream and batched greedy decode: which token is fed at which position, and
//! what is emitted.

use vstd::prelude::*;
use vstd::utf8::encode_utf8;

use crate::runtime::distributed::continuous::{nonempty_are_the_nonempty, nonempty_in};
use crate::runtime::distributed::pipeline::rows;

verus! {

/// Greedy decode of one request on a KV cache.
///
/// The cache already holds a prefix of the prompt. The rest of the prompt is fed first,
/// its last token in any case, so that there are logits to sample from; then every
/// sampled token but the last wanted one is fed back.
#[derive(Debug)]
pub struct GreedyDecode {
    pub prompt: Vec<u32>,
    /// The first position that is fed.
    pub start: usize,
    pub max_new: usize,
    /// Whether the whole prompt goes through one batched prefill forward.
    pub batched: bool,
    pub generated: Vec<u32>,
}

/// The first position that a request feeds when `matched` tokens of its prompt are cached.
pub open spec fn prefill_start(matched: nat, prompt_len: nat) -> nat {
    if prompt_len == 0 {
        0
    } else if matched < prompt_len {
        matched
    } else {
        (prompt_len - 1) as nat
    }
}

/// The token and position of the `j`-th feed of a request that starts at `start`: feeds
/// run through the prompt and the generated tokens, position by position.
pub open spec fn feed(prompt: Seq<u32>, generated: Seq<u32>, start: int, j: int) -> (u32, int) {
    ((prompt + generated)[start + j], start + j)
}

/// The first position to feed.
pub fn start_position(matched: usize, prompt_len: usize) -> (res: usize)
    ensures
        res == prefill_start(matched as nat, prompt_len as nat),
{
    if prompt_len == 0 {
        0
    } else if matched < prompt_len {
        matched
    } else {
        prompt_len - 1
    }
}

impl GreedyDecode {
    pub open spec fn wf(&self) -> bool {
        &&& self.prompt@.len() > 0
        &&& self.start < self.prompt@.len()
        &&& self.generated@.len() <= self.max_new
        &&& self.prompt@.len() + self.max_new <= usize::MAX
        &&& self.batched ==> self.start == 0
    }

    /// Starts a request with `matched` prompt tokens cached. `prefill_seq` is the prompt
    /// length that the batched prefill graph takes, where one is loaded. An empty prompt
    /// has nothing to decode.
    pub fn begin(prompt: Vec<u32>, matched: usize, max_new: usize, prefill_seq: Option<usize>) -> (res:
        Option<Self>)
        requires
            prompt@.len() + max_new <= usize::MAX,
        ensures
            res is None <==> prompt@.len() == 0,
            res matches Some(d) ==> {
                &&& d.wf()
                &&& d.prompt@ == prompt@
                &&& d.start == prefill_start(matched as nat, prompt@.len())
                &&& d.max_new == max_new
                &&& d.batched <==> d.start == 0 && prefill_seq == Some(prompt.len())
                &&& d.generated@.len() == 0
            },
    {
        let n: usize = prompt.len();
        if n == 0 {
            return None;
        }
        let start: usize = start_position(matched, n);
        let batched = match prefill_seq {
            Some(s) => start == 0 && s == n,
            None => false,
        };
        Some(GreedyDecode { prompt, start, max_new, batched, generated: Vec::new() })
    }

    /// The number of prefill forwards: one for a batched prefill, else one per prompt
    /// token that is not cached.
    pub fn prefill_steps(&self) -> (res: usize)
        requires
            self.wf(),
        ensures
            res == if self.batched {
                1
            } else {
                self.prompt@.len() - self.start
            },
    {
        if self.batched {
            1
        } else {
            self.prompt.len() - self.start
        }
    }

    /// The token and position of the `j`-th prefill forward.
    pub fn prefill_feed(&self, j: usize) -> (res: (u32, usize))
        requires
            self.wf(),
            j < self.prompt@.len() - self.start,
        ensures
            (res.0, res.1 as int) == feed(
                self.prompt@,
                self.generated@,
                self.start as int,
                j as int,
            ),
    {
        (self.prompt[self.start + j], self.start + j)
    }

    /// Whether another token is to be sampled.
    pub fn wants_token(&self) -> (res: bool)
        ensures
            res == (self.generated@.len() < self.max_new),
    {
        self.generated.len() < self.max_new
    }

    /// Takes a sampled token. Gives the token and position to feed next, or `None` when
    /// this was the last token wanted.
    pub fn accept(&mut self, next: u32) -> (res: Option<(u32, usize)>)
        requires
            old(self).wf(),
            old(self).generated@.len() < old(self).max_new,
        ensures
            final(self).wf(),
            final(self).generated@ == old(self).generated@.push(next),
            final(self).prompt == old(self).prompt,
            final(self).start == old(self).start,
            final(self).max_new == old(self).max_new,
            final(self).batched == old(self).batched,
            res is None <==> final(self).generated@.len() == old(self).max_new,
            res matches Some(f) ==> (f.0, f.1 as int) == feed(
                final(self).prompt@,
                final(self).generated@,
                final(self).start as int,
                final(self).prompt@.len() - final(self).start + old(self).generated@.len(),
            ),
    {
        let i: usize = self.generated.len();
        self.generated.push(next);
        if i + 1 < self.max_new {
            Some((next, self.prompt.len() + i))
        } else {
            None
        }
    }
}

/// A feed never sees a token that is sampled later: what was fed stays the same as the
/// request goes on.
pub proof fn feeds_are_settled(
    prompt: Seq<u32>,
    generated: Seq<u32>,
    later: Seq<u32>,
    start: int,
    j: int,
)
    requires
        0 <= start,
        0 <= j,
        start + j < prompt.len() + generated.len(),
    ensures
        feed(prompt, generated, start, j) == feed(prompt, generated + later, start, j),
{
    assert((prompt + (generated + later))[start + j] == (prompt + generated)[start + j]);
}

/// Lockstep decode of several prompts through one graph.
///
/// Every row is fed one token per step, so that all rows share the position: a row's own
/// prompt token while it is in its prompt, its own newest token after that.
#[derive(Debug)]
pub struct BatchedDecode {
    pub prompts: Vec<Vec<u32>>,
    pub max_new: usize,
    /// Steps taken so far, which is the position of the next feed.
    pub pos: usize,
    /// The tokens of the next feed.
    pub cur: Vec<u32>,
    pub generated: Vec<Vec<u32>>,
}

/// The tokens that a row has after `pos` steps: one per step from the end of its prompt
/// on, up to the number wanted.
pub open spec fn row_emitted(pos: int, prompt_len: int, max_new: int) -> int {
    if pos < prompt_len {
        0
    } else if pos - prompt_len + 1 < max_new {
        pos - prompt_len + 1
    } else {
        max_new
    }
}

/// The length of the longest of some prompts.
pub open spec fn longest(prompts: Seq<Seq<u32>>) -> nat
    decreases prompts.len(),
{
    if prompts.len() == 0 {
        0
    } else if prompts.last().len() > longest(prompts.drop_last()) {
        prompts.last().len()
    } else {
        longest(prompts.drop_last())
    }
}

/// No prompt is longer than the longest.
pub proof fn longest_bounds(prompts: Seq<Seq<u32>>, r: int)
    requires
        0 <= r < prompts.len(),
    ensures
        prompts[r].len() <= longest(prompts),
    decreases prompts.len(),
{
    if r < prompts.len() - 1 {
        longest_bounds(prompts.drop_last(), r);
    }
}

/// The length of the longest of some prompts.
pub fn longest_prompt(prompts: &Vec<Vec<u32>>) -> (res: usize)
    ensures
        res == longest(rows(prompts@)),
{
    let ghost views = rows(prompts@);
    let mut best: usize = 0;
    let mut i: usize = 0;
    while i < prompts.len()
        invariant
            i <= prompts@.len(),
            views == rows(prompts@),
            best == longest(views.take(i as int)),
        decreases prompts.len() - i,
    {
        assert(views.take(i + 1).drop_last() =~= views.take(i as int));
        assert(views[i as int] == prompts@[i as int]@);
        if prompts[i].len() > best {
            best = prompts[i].len();
        }
        i += 1;
    }
    assert(views.take(i as int) =~= views);
    best
}

/// One row after a step: in its prompt it moves on to its next prompt token; after that
/// it takes the sampled token, and keeps it while it lacks tokens.
pub open spec fn row_after(
    prompt: Seq<u32>,
    generated: Seq<u32>,
    pos: int,
    max_new: int,
    next: u32,
) -> (u32, Seq<u32>) {
    if pos + 1 < prompt.len() {
        (prompt[pos + 1], generated)
    } else if generated.len() < max_new {
        (next, generated.push(next))
    } else {
        (next, generated)
    }
}

/// How many of the first `n` rows emit a token at a step.
pub open spec fn emitting(
    prompts: Seq<Seq<u32>>,
    generated: Seq<Seq<u32>>,
    pos: int,
    max_new: int,
    n: int,
) -> nat
    decreases n,
{
    if n <= 0 {
        0
    } else {
        emitting(prompts, generated, pos, max_new, n - 1) + if pos + 1 >= prompts[n - 1].len()
            && generated[n - 1].len() < max_new {
            1nat
        } else {
            0nat
        }
    }
}

impl BatchedDecode {
    /// Every row has emitted what its position allows and is about to be fed the token
    /// that stands at the position in its prompt and generated tokens.
    pub open spec fn wf(&self) -> bool {
        &&& self.cur@.len() == self.prompts@.len()
        &&& self.generated@.len() == self.prompts@.len()
        &&& forall|r: int|
            0 <= r < self.prompts@.len() ==> {
                let p = (#[trigger] self.prompts@[r])@;
                let g = self.generated@[r]@;
                &&& p.len() > 0
                &&& g.len() == row_emitted(self.pos as int, p.len() as int, self.max_new as int)
                &&& self.pos < p.len() + g.len() ==> self.cur@[r] == (p + g)[self.pos as int]
            }
    }

    /// Starts the rows at their first prompt tokens.
    pub fn begin(prompts: Vec<Vec<u32>>, max_new: usize) -> (res: Self)
        requires
            forall|r: int| 0 <= r < prompts@.len() ==> (#[trigger] prompts@[r])@.len() > 0,
        ensures
            res.wf(),
            res.prompts == prompts,
            res.max_new == max_new,
            res.pos == 0,
            forall|r: int| 0 <= r < prompts@.len() ==> #[trigger] res.cur@[r] == prompts@[r]@[0],
            forall|r: int| 0 <= r < prompts@.len() ==> (#[trigger] res.generated@[r])@.len() == 0,
    {
        let mut cur: Vec<u32> = Vec::new();
        let mut generated: Vec<Vec<u32>> = Vec::new();
        let mut r: usize = 0;
        while r < prompts.len()
            invariant
                r <= prompts@.len(),
                forall|i: int| 0 <= i < prompts@.len() ==> (#[trigger] prompts@[i])@.len() > 0,
                cur@.len() == r,
                generated@.len() == r,
                forall|i: int| 0 <= i < r ==> #[trigger] cur@[i] == prompts@[i]@[0],
                forall|i: int| 0 <= i < r ==> (#[trigger] generated@[i])@.len() == 0,
            decreases prompts.len() - r,
        {
            cur.push(prompts[r][0]);
            generated.push(Vec::new());
            r += 1;
        }
        BatchedDecode { prompts, max_new, pos: 0, cur, generated }
    }

    /// The number of steps until every row has its tokens: the longest prompt, then one
    /// step per token wanted.
    pub fn total_steps(&self) -> (res: usize)
        requires
            self.prompts@.len() > 0,
            longest(rows(self.prompts@)) > 0,
            longest(rows(self.prompts@)) + self.max_new <= usize::MAX,
        ensures
            res == longest(rows(self.prompts@)) - 1 + self.max_new,
    {
        (longest_prompt(&self.prompts) - 1) + self.max_new
    }

    /// Takes the tokens sampled for all rows at this step. Gives the number of rows that
    /// emitted one.
    pub fn step(&mut self, next: &Vec<u32>) -> (res: usize)
        requires
            old(self).wf(),
            next@.len() == old(self).prompts@.len(),
            old(self).pos < usize::MAX,
        ensures
            final(self).wf(),
            final(self).prompts == old(self).prompts,
            final(self).max_new == old(self).max_new,
            final(self).pos == old(self).pos + 1,
            forall|r: int|
                0 <= r < next@.len() ==> (
                #[trigger] final(self).cur@[r],
                final(self).generated@[r]@,
                ) == row_after(
                    old(self).prompts@[r]@,
                    old(self).generated@[r]@,
                    old(self).pos as int,
                    old(self).max_new as int,
                    next@[r],
                ),
            res == emitting(
                rows(old(self).prompts@),
                rows(old(self).generated@),
                old(self).pos as int,
                old(self).max_new as int,
                next@.len() as int,
            ),
    {
        let ghost start = *old(self);
        let ghost pv = rows(start.prompts@);
        let ghost gv = rows(start.generated@);
        let n: usize = next.len();
        let mut count: usize = 0;
        let mut r: usize = 0;
        while r < n
            invariant
                n == next@.len(),
                n == start.prompts@.len(),
                start.wf(),
                start.pos < usize::MAX,
                r <= n,
                pv == rows(start.prompts@),
                gv == rows(start.generated@),
                self.prompts == start.prompts,
                self.max_new == start.max_new,
                self.pos == start.pos,
                self.cur@.len() == n,
                self.generated@.len() == n,
                count <= r,
                count == emitting(pv, gv, start.pos as int, start.max_new as int, r as int),
                forall|i: int|
                    0 <= i < r ==> (#[trigger] self.cur@[i], self.generated@[i]@) == row_after(
                        start.prompts@[i]@,
                        start.generated@[i]@,
                        start.pos as int,
                        start.max_new as int,
                        next@[i],
                    ),
                forall|i: int|
                    r <= i < n ==> #[trigger] self.generated@[i] == start.generated@[i],
            decreases n - r,
        {
            assert(pv[r as int] == start.prompts@[r as int]@);
            assert(gv[r as int] == start.generated@[r as int]@);
            assert(self.generated@[r as int] == start.generated@[r as int]);
            if self.pos + 1 < self.prompts[r].len() {
                let t: u32 = self.prompts[r][self.pos + 1];
                self.cur.set(r, t);
            } else {
                if self.generated[r].len() < self.max_new {
                    self.generated[r].push(next[r]);
                    count += 1;
                }
                self.cur.set(r, next[r]);
            }
            r += 1;
        }
        self.pos = self.pos + 1;
        assert forall|i: int| 0 <= i < n implies ({
            let p = (#[trigger] self.prompts@[i])@;
            let g = self.generated@[i]@;
            &&& p.len() > 0
            &&& g.len() == row_emitted(self.pos as int, p.len() as int, self.max_new as int)
            &&& self.pos < p.len() + g.len() ==> self.cur@[i] == (p + g)[self.pos as int]
        }) by {
            assert(start.prompts@[i]@.len() > 0);
            assert((self.cur@[i], self.generated@[i]@) == row_after(
                start.prompts@[i]@,
                start.generated@[i]@,
                start.pos as int,
                start.max_new as int,
                next@[i],
            ));
        }
        count
    }
}

/// After the total number of steps every row has exactly the tokens wanted, however long
/// its prompt.
pub proof fn every_row_gets_its_tokens(d: BatchedDecode, r: int)
    requires
        d.wf(),
        0 <= r < d.prompts@.len(),
        d.pos == longest(rows(d.prompts@)) - 1 + d.max_new,
    ensures
        d.generated@[r]@.len() == d.max_new,
{
    longest_bounds(rows(d.prompts@), r);
    assert(rows(d.prompts@)[r] == d.prompts@[r]@);
}

/// One batch of prompts: the first `unique` rows are prompts of their own, the others
/// repeat them.
#[derive(Debug)]
pub struct BatchPlan {
    pub unique: usize,
    pub rows: Vec<usize>,
}

/// Whether prompt `a` comes before prompt `b`: shorter first, and in the given order
/// where equally long.
pub open spec fn comes_before(prompts: Seq<Seq<u32>>, a: usize, b: usize) -> bool {
    prompts[a as int].len() < prompts[b as int].len() || (prompts[a as int].len()
        == prompts[b as int].len() && a < b)
}

/// Whether an order lists the non-empty prompts once each, by length.
pub open spec fn by_length(prompts: Seq<Seq<u32>>, order: Seq<usize>) -> bool {
    &&& order.to_multiset() == nonempty_in(prompts, 0, prompts.len() as int).to_multiset()
    &&& forall|i: int, j: int|
        0 <= i < j < order.len() ==> comes_before(prompts, order[i], order[j])
}

/// The non-empty prompts by length.
pub fn length_order(prompts: &Vec<Vec<u32>>) -> (res: Vec<usize>)
    ensures
        by_length(rows(prompts@), res@),
        forall|i: int| 0 <= i < res@.len() ==> (#[trigger] res@[i]) < prompts@.len(),
{
    let ghost views = rows(prompts@);
    let mut out: Vec<usize> = Vec::new();
    let mut i: usize = 0;
    proof {
        broadcast use vstd::seq_lib::group_to_multiset_ensures;

        assert(out@ =~= nonempty_in(views, 0, 0));
    }
    while i < prompts.len()
        invariant
            i <= prompts@.len(),
            views == rows(prompts@),
            out@.to_multiset() == nonempty_in(views, 0, i as int).to_multiset(),
            forall|a: int| 0 <= a < out@.len() ==> (#[trigger] out@[a]) < i,
            forall|a: int, b: int|
                0 <= a < b < out@.len() ==> comes_before(views, out@[a], out@[b]),
        decreases prompts.len() - i,
    {
        assert(views[i as int] == prompts@[i as int]@);
        let n: usize = prompts[i].len();
        if n > 0 {
            let mut at: usize = out.len();
            while at > 0 && prompts[out[at - 1]].len() > n
                invariant
                    at <= out@.len(),
                    i < prompts@.len(),
                    views == rows(prompts@),
                    n == views[i as int].len(),
                    forall|a: int| 0 <= a < out@.len() ==> (#[trigger] out@[a]) < i,
                    forall|a: int|
                        at <= a < out@.len() ==> n < views[(#[trigger] out@[a]) as int].len(),
                decreases at,
            {
                at -= 1;
                assert(views[out@[at as int] as int] == prompts@[out@[at as int] as int]@);
            }
            let ghost before = out@;
            if at > 0 {
                assert(views[out@[at - 1] as int] == prompts@[out@[at - 1] as int]@);
            }
            out.insert(at, i);
            proof {
                broadcast use vstd::seq_lib::group_to_multiset_ensures;

                assert(out@ == before.insert(at as int, i));
                assert forall|a: int, b: int| 0 <= a < b < out@.len() implies comes_before(
                    views,
                    out@[a],
                    out@[b],
                ) by {
                    if b < at {
                        assert(comes_before(views, before[a], before[b]));
                    } else if b == at {
                        if a < at - 1 {
                            assert(comes_before(views, before[a], before[at - 1]));
                        }
                    } else if a < at {
                        assert(comes_before(views, before[a], before[b - 1]));
                    } else if a == at {
                        assert(n < views[before[b - 1] as int].len());
                    } else {
                        assert(comes_before(views, before[a - 1], before[b - 1]));
                    }
                }
            }
        }
        i += 1;
    }
    out
}

/// The rows of a batch over `order[from..to]`: those prompts, then repeated from the
/// first on until the batch is `width` wide.
pub open spec fn batch_rows(order: Seq<usize>, from: int, to: int, width: int) -> Seq<usize> {
    Seq::new(
        if to - from > width {
            (to - from) as nat
        } else {
            width as nat
        },
        |j: int|
            if j < to - from {
                order[from + j]
            } else {
                order[from + j % (to - from)]
            },
    )
}

/// Where batch `b` of an order of `n` prompts ends.
pub open spec fn batch_end(b: int, width: int, n: int) -> int {
    if (b + 1) * width < n {
        (b + 1) * width
    } else {
        n
    }
}

/// Whether a plan is that of batch `b`: its own rows, then repetitions up to the width.
pub open spec fn planned(p: BatchPlan, order: Seq<usize>, b: int, width: int) -> bool {
    let from = b * width;
    let to = batch_end(b, width, order.len() as int);
    &&& p.unique == to - from
    &&& p.rows@ == batch_rows(order, from, to, width)
    &&& p.rows@.len() == width
    &&& 0 < to - from <= width
}

/// Splits an order into batches of `width`, the last one filled up by repetition.
pub fn plan_batches(order: &Vec<usize>, width: usize) -> (res: Vec<BatchPlan>)
    requires
        width >= 1,
        order@.len() + width <= usize::MAX,
    ensures
        (res@.len() - 1) * width < order@.len() <= res@.len() * width,
        forall|b: int|
            0 <= b < res@.len() ==> planned(#[trigger] res@[b], order@, b, width as int),
{
    let n: usize = order.len();
    let mut out: Vec<BatchPlan> = Vec::new();
    let mut from: usize = 0;
    assert(0 * width == 0) by (nonlinear_arith);
    assert(-1 * width < 0) by (nonlinear_arith)
        requires
            width >= 1,
    ;
    while from < n
        invariant
            n == order@.len(),
            width >= 1,
            n + width <= usize::MAX,
            from <= n,
            from < n ==> from == out@.len() * width,
            from == n ==> n <= out@.len() * width,
            (out@.len() - 1) * width < n || out@.len() == 0,
            from < n || (out@.len() - 1) * width < n,
            forall|b: int|
                0 <= b < out@.len() ==> planned(#[trigger] out@[b], order@, b, width as int),
        decreases n - from,
    {
        let end: usize = if from + width < n {
            from + width
        } else {
            n
        };
        let unique: usize = end - from;
        let ghost k = out@.len() as int;
        assert((k + 1) * width == k * width + width) by (nonlinear_arith);
        let mut batch: Vec<usize> = Vec::new();
        let mut j: usize = 0;
        while j < width
            invariant
                j <= width,
                from < end <= n,
                n == order@.len(),
                unique == end - from,
                0 < unique <= width,
                n + width <= usize::MAX,
                batch@.len() == j,
                forall|i: int|
                    0 <= i < j ==> #[trigger] batch@[i] == batch_rows(
                        order@,
                        from as int,
                        end as int,
                        width as int,
                    )[i],
            decreases width - j,
        {
            let src: usize = if j < unique {
                j
            } else {
                j % unique
            };
            batch.push(order[from + src]);
            j += 1;
        }
        assert(batch@ =~= batch_rows(order@, from as int, end as int, width as int));
        let plan = BatchPlan { unique, rows: batch };
        assert(planned(plan, order@, k, width as int));
        out.push(plan);
        from = end;
    }
    out
}

/// Every place of an order has a row of its own: place `i` is row `i % width` of batch
/// `i / width`, among that batch's own rows and before its repetitions.
pub proof fn batches_cover_the_order(order: Seq<usize>, width: int, i: int)
    requires
        width >= 1,
        0 <= i < order.len(),
    ensures
        ({
            let b = i / width;
            let from = b * width;
            let to = batch_end(b, width, order.len() as int);
            &&& from <= i < to
            &&& i - from == i % width
            &&& batch_rows(order, from, to, width)[i % width] == order[i]
        }),
{
    let b = i / width;
    assert(b * width + i % width == i) by (nonlinear_arith)
        requires
            b == i / width,
            width > 0,
    ;
    assert(0 <= i % width < width) by (nonlinear_arith)
        requires
            width > 0,
    ;
    assert((b + 1) * width == b * width + width) by (nonlinear_arith);
}

/// Deterministic stream of 24-bit integers for accept-or-reject decisions.
#[derive(Debug, Clone, Copy, PartialEq, Eq, Structural)]
pub struct UniformStream {
    pub state: u64,
}

/// The state after `s`.
pub open spec fn next_state(s: u64) -> u64 {
    ((s as int * 6364136223846793005 + 1442695040888963407) % 0x1_0000_0000_0000_0000) as u64
}

impl UniformStream {
    /// The stream that every rank starts from.
    pub fn seeded() -> (res: Self)
        ensures
            res.state == 0x2545_F491_4F6C_DD1D,
    {
        UniformStream { state: 0x2545_F491_4F6C_DD1D }
    }

    /// The next integer: the top 24 bits of the next state. Divided by 2 to the 24th it
    /// is uniform below one.
    pub fn draw(&mut self) -> (res: u32)
        ensures
            final(self).state == next_state(old(self).state),
            res == final(self).state as int / 0x100_0000_0000,
            res < 0x100_0000,
    {
        let s: u128 = self.state as u128;
        assert(s * 6364136223846793005 <= 0xffff_ffff_ffff_ffff * 6364136223846793005)
            by (nonlinear_arith)
            requires
                s <= 0xffff_ffff_ffff_ffff,
        ;
        let t: u128 = (s * 6364136223846793005u128 + 1442695040888963407u128)
            % 0x1_0000_0000_0000_0000u128;
        self.state = t as u64;
        (self.state / 0x100_0000_0000) as u32
    }
}

/// The bytes of a text by a modulus of at least one.
pub open spec fn bytes_modulo(bytes: Seq<u8>, vocab: u32) -> Seq<u32> {
    Seq::new(
        bytes.len(),
        |i: int|
            (bytes[i] as int % if vocab == 0 {
                1
            } else {
                vocab as int
            }) as u32,
    )
}

/// The tokens of a prompt where there is no tokenizer: its bytes, modulo the vocabulary.
pub fn byte_prompt(prompt: &str, vocab: u32) -> (res: Vec<u32>)
    ensures
        res@ == bytes_modulo(encode_utf8(prompt@), vocab),
{
    let modulus: u32 = if vocab == 0 {
        1
    } else {
        vocab
    };
    let bytes = prompt.as_bytes();
    let mut out: Vec<u32> = Vec::new();
    let mut i: usize = 0;
    while i < bytes.len()
        invariant
            i <= bytes@.len(),
            modulus == if vocab == 0 {
                1
            } else {
                vocab
            },
            out@ == bytes_modulo(bytes@, vocab).take(i as int),
        decreases bytes.len() - i,
    {
        out.push((bytes[i] as u32) % modulus);
        i += 1;
        assert(out@ =~= bytes_modulo(bytes@, vocab).take(i as int));
    }
    assert(out@ =~= bytes_modulo(bytes@, vocab));
    out
}

/// The part of the vocabulary that each rank of a group has logits for, at least one entry.
pub fn local_vocab(vocab: u32, world_size: usize) -> (res: usize)
    ensures
        ({
            let ranks = if world_size == 0 {
                1
            } else {
                world_size as int
            };
            res == if vocab as int / ranks == 0 {
                1
            } else {
                vocab as int / ranks
            }
        }),
{
    let ranks: usize = if world_size == 0 {
        1
    } else {
        world_size
    };
    let share: usize = vocab as usize / ranks;
    if share == 0 {
        1
    } else {
        share
    }
}

/// A request starts right behind what is cached of its prompt, but always feeds the last
/// prompt token itself: the first logits come of it.
pub proof fn the_last_prompt_token_is_always_fed(matched: usize, prompt_len: usize, start: usize)
    requires
        call_ensures(start_position, (matched, prompt_len), start),
        prompt_len > 0,
    ensures
        start < prompt_len,
        start <= matched,
        matched < prompt_len ==> start == matched,
        matched >= prompt_len ==> start == prompt_len - 1,
{
}

/// A request is fed its own sequence, position by position: the prompt's tokens where the
/// prompt reaches, then those generated, in order.
pub proof fn feeds_run_through_the_sequence(
    prompt: Seq<u32>,
    generated: Seq<u32>,
    start: int,
    j: int,
)
    requires
        0 <= start,
        0 <= j,
        start + j < prompt.len() + generated.len(),
    ensures
        feed(prompt, generated, start, j).1 == start + j,
        start + j < prompt.len() ==> feed(prompt, generated, start, j).0 == prompt[start + j],
        start + j >= prompt.len() ==> feed(prompt, generated, start, j).0 == generated[start + j
            - prompt.len()],
{
}

/// In a batch every row goes its own way: within its prompt it is fed the prompt's tokens
/// and generates nothing; from the end of its prompt on it generates a token a step, and is
/// fed the newest, until it has as many as wanted.
pub proof fn rows_are_fed_their_own_sequence(d: BatchedDecode, r: int)
    requires
        d.wf(),
        0 <= r < d.prompts@.len(),
    ensures
        ({
            let p = d.prompts@[r]@;
            let g = d.generated@[r]@;
            &&& d.pos < p.len() ==> g.len() == 0 && d.cur@[r] == p[d.pos as int]
            &&& d.pos >= p.len() && d.pos - p.len() + 1 <= d.max_new ==> g.len() == d.pos - p.len()
                + 1 && d.cur@[r] == g.last()
            &&& d.pos >= p.len() && d.pos - p.len() + 1 >= d.max_new ==> g.len() == d.max_new
        }),
{
    let p = d.prompts@[r]@;
    let g = d.generated@[r]@;
    if d.pos >= p.len() && d.pos - p.len() + 1 <= d.max_new {
        assert(d.cur@[r] == (p + g)[d.pos as int]);
    }
}

/// A step takes a row's own token and no other: a row in its prompt drops it, a row that
/// lacks tokens appends it, and a row that has them all keeps what it has.
pub proof fn rows_take_their_own_tokens(
    prompt: Seq<u32>,
    generated: Seq<u32>,
    pos: int,
    max_new: int,
    next: u32,
)
    requires
        0 <= pos,
    ensures
        ({
            let (fed, now) = row_after(prompt, generated, pos, max_new, next);
            &&& pos + 1 < prompt.len() ==> fed == prompt[pos + 1] && now == generated
            &&& pos + 1 >= prompt.len() ==> fed == next
            &&& pos + 1 >= prompt.len() && generated.len() < max_new ==> now == generated + seq![next]
            &&& generated.len() >= max_new ==> now == generated
        }),
{
    assert(generated.push(next) =~= generated + seq![next]);
}

/// Prompts are batched by length: every prompt that is not empty is in the order exactly once,
/// a shorter one before a longer one, and equally long ones as they came.
pub proof fn prompts_are_ordered_by_length(prompts: &Vec<Vec<u32>>, order: Vec<usize>, p: usize)
    requires
        call_ensures(length_order, (prompts,), order),
        prompts@.len() <= usize::MAX,
    ensures
        order@.contains(p) <==> p < prompts@.len() && prompts@[p as int]@.len() > 0,
        forall|i: int, j: int|
            0 <= i < j < order@.len() ==> {
                let a = #[trigger] order@[i];
                let b = #[trigger] order@[j];
                &&& a != b
                &&& prompts@[a as int]@.len() <= prompts@[b as int]@.len()
                &&& prompts@[a as int]@.len() == prompts@[b as int]@.len() ==> a < b
            },
{
    broadcast use vstd::seq_lib::group_to_multiset_ensures;

    let all = rows(prompts@);
    let want = nonempty_in(all, 0, all.len() as int);
    nonempty_are_the_nonempty(all, 0, all.len() as int, p);
    assert(order@.to_multiset().count(p) == want.to_multiset().count(p));
    assert(order@.contains(p) <==> want.contains(p));
    if p < prompts@.len() {
        assert(all[p as int] == prompts@[p as int]@);
    }
    assert forall|i: int, j: int| 0 <= i < j < order@.len() implies {
        let a = #[trigger] order@[i];
        let b = #[trigger] order@[j];
        &&& a != b
        &&& prompts@[a as int]@.len() <= prompts@[b as int]@.len()
        &&& prompts@[a as int]@.len() == prompts@[b as int]@.len() ==> a < b
    } by {
        assert(comes_before(all, order@[i], order@[j]));
        assert(order@[i] < prompts@.len() && order@[j] < prompts@.len());
        assert(all[order@[i] as int] == prompts@[order@[i] as int]@);
        assert(all[order@[j] as int] == prompts@[order@[j] as int]@);
    }
}

/// The batches are full, and hold every prompt of the order once as a row of its own: batch
/// `b` has the prompts from place `b * width` on; a last batch that is not full repeats its
/// own.
pub proof fn batches_are_full(order: &Vec<usize>, width: usize, plans: Vec<BatchPlan>, b: int, j: int)
    requires
        call_ensures(plan_batches, (order, width), plans),
        width >= 1,
        0 <= b < plans@.len(),
        0 <= j < width,
    ensures
        ({
            let p = plans@[b];
            &&& p.rows@.len() == width
            &&& 1 <= p.unique <= width
            &&& j < p.unique ==> b * width + j < order@.len() && p.rows@[j] == order@[b * width + j]
            &&& j >= p.unique ==> p.rows@[j] == p.rows@[j % p.unique as int]
            &&& b < plans@.len() - 1 ==> p.unique == width
            &&& b == plans@.len() - 1 ==> b * width + p.unique == order@.len()
        }),
{
    let p = plans@[b];
    let n = order@.len() as int;
    let last = plans@.len() as int - 1;
    assert(planned(p, order@, b, width as int));
    assert(planned(plans@[last], order@, last, width as int));
    let u = p.unique as int;
    assert(0 <= j % u < u) by (nonlinear_arith)
        requires
            u > 0,
    ;
    assert((b + 1) * width == b * width + width) by (nonlinear_arith);
    assert((last + 1) * width == last * width + width) by (nonlinear_arith);
    if b < last {
        assert((b + 1) * width <= last * width) by (nonlinear_arith)
            requires
                b + 1 <= last,
                width >= 1,
        ;
    }
}

/// Without a tokenizer a prompt has a token per byte, each below the vocabulary, and a byte
/// below the vocabulary is its own token.
pub proof fn bytes_become_tokens(prompt: &str, vocab: u32, tokens: Vec<u32>, i: int)
    requires
        call_ensures(byte_prompt, (prompt, vocab), tokens),
        0 <= i < encode_utf8(prompt@).len(),
        vocab > 0,
    ensures
        tokens@.len() == encode_utf8(prompt@).len(),
        tokens@[i] < vocab,
        encode_utf8(prompt@)[i] < vocab ==> tokens@[i] == encode_utf8(prompt@)[i],
        exists|k: int| encode_utf8(prompt@)[i] == #[trigger] (k * vocab) + tokens@[i],
{
    let b = encode_utf8(prompt@)[i] as int;
    let v = vocab as int;
    assert(b == (b / v) * v + b % v && 0 <= b % v < v && b % v <= b) by (nonlinear_arith)
        requires
            v > 0,
            b >= 0,
    ;
    if b < v {
        vstd::arithmetic::div_mod::lemma_small_mod(b as nat, v as nat);
    }
    assert(b == (b / v) * vocab + tokens@[i]);
}

/// The ranks of a group share the vocabulary evenly: together they have no more of it than
/// there is, and what is left over is less than one entry each.
pub proof fn ranks_share_the_vocabulary(vocab: u32, world_size: usize, share: usize)
    requires
        call_ensures(local_vocab, (vocab, world_size), share),
        0 < world_size <= vocab,
    ensures
        share >= 1,
        world_size * share <= vocab,
        vocab < world_size * share + world_size,
{
    let v = vocab as int;
    let w = world_size as int;
    let q = v / w;
    assert(w * q <= v < w * q + w && q >= 1) by (nonlinear_arith)
        requires
            0 < w <= v,
            q == v / w,
    ;
}

/// The rows counted as emitting are those that get a token: one row more counts exactly if it
/// grows.
pub proof fn emitting_rows_are_those_that_grow(
    prompts: Seq<Seq<u32>>,
    generated: Seq<Seq<u32>>,
    pos: int,
    max_new: int,
    n: int,
    next: u32,
)
    requires
        0 <= n < prompts.len(),
        n < generated.len(),
    ensures
        emitting(prompts, generated, pos, max_new, 0) == 0,
        emitting(prompts, generated, pos, max_new, n + 1) == emitting(
            prompts,
            generated,
            pos,
            max_new,
            n,
        ) + (row_after(prompts[n], generated[n], pos, max_new, next).1.len() - generated[n].len()),
{
}

/// The longest prompt is one of the prompts.
pub proof fn the_longest_is_one_of_them(prompts: Seq<Seq<u32>>)
    requires
        prompts.len() > 0,
    ensures
        exists|r: int| 0 <= r < prompts.len() && (#[trigger] prompts[r]).len() == longest(prompts),
    decreases prompts.len(),
{
    let front = prompts.drop_last();
    assert(prompts[prompts.len() - 1] == prompts.last());
    if front.len() > 0 {
        the_longest_is_one_of_them(front);
        let r = choose|r: int|
            0 <= r < front.len() && (#[trigger] front[r]).len() == longest(front);
        assert(prompts[r].len() == longest(front));
    } else {
        assert(longest(front) == 0);
    }
}

/// A batch takes just as many steps as it says: then every row has its tokens, and one step
/// earlier, where tokens are wanted at all, the row with the longest prompt lacks one.
pub proof fn batches_take_as_many_steps_as_they_say(d: BatchedDecode, n: usize, r: int)
    requires
        d.wf(),
        d.prompts@.len() > 0,
        call_ensures(BatchedDecode::total_steps, (&d,), n),
        0 <= r < d.prompts@.len(),
    ensures
        d.pos == n ==> d.generated@[r]@.len() == d.max_new,
        d.pos == n - 1 && d.max_new > 0 && (forall|q: int|
            0 <= q < d.prompts@.len() ==> (#[trigger] d.prompts@[q])@.len()
                <= d.prompts@[r]@.len()) ==> d.generated@[r]@.len() == d.max_new - 1,
{
    let all = rows(d.prompts@);
    if d.pos == n {
        every_row_gets_its_tokens(d, r);
    }
    longest_bounds(all, r);
    the_longest_is_one_of_them(all);
    let q = choose|q: int| 0 <= q < all.len() && (#[trigger] all[q]).len() == longest(all);
    assert(all[q] == d.prompts@[q]@);
    assert(all[r] == d.prompts@[r]@);
}

/// A request that is started prefills what is not cached: a forward per prompt token from its
/// start on, or a single one, for the whole prompt, where a graph for just that length is
/// loaded and nothing is cached. Nothing is generated yet.
pub proof fn prefill_takes_what_is_not_cached(
    prompt: Vec<u32>,
    matched: usize,
    max_new: usize,
    prefill_seq: Option<usize>,
    d: GreedyDecode,
    steps: usize,
)
    requires
        call_ensures(GreedyDecode::begin, (prompt, matched, max_new, prefill_seq), Some(d)),
        call_ensures(GreedyDecode::prefill_steps, (&d,), steps),
    ensures
        prompt@.len() > 0,
        d.prompt@ == prompt@,
        d.generated@.len() == 0,
        matched < prompt@.len() ==> d.start == matched,
        d.batched <==> d.start == 0 && prefill_seq == Some(prompt@.len() as usize),
        d.batched ==> steps == 1,
        !d.batched ==> d.start + steps == prompt@.len(),
{
}

} // verus!
