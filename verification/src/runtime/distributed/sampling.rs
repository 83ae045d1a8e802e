//! Greedy choice of the next token from logits.

use vstd::prelude::*;

use crate::ieee::Ieee32;
use crate::runtime::collectives::pieces_come_apart;
use crate::runtime::tensor::{concatenated, part};

verus! {

/// The position that greedy choice picks: walking from the left, a later value takes over
/// unless the value held so far is greater.
pub open spec fn argmax_index(v: Seq<Ieee32>) -> int
    decreases v.len(),
{
    if v.len() <= 1 {
        0
    } else {
        let held = argmax_index(v.drop_last());
        if v[held].above(v.last()) {
            held
        } else {
            v.len() - 1
        }
    }
}

/// The pick is a position of the sequence.
pub proof fn argmax_in_range(v: Seq<Ieee32>)
    requires
        v.len() > 0,
    ensures
        0 <= argmax_index(v) < v.len(),
    decreases v.len(),
{
    if v.len() > 1 {
        argmax_in_range(v.drop_last());
    }
}

/// Among numbers the pick is the last of the greatest.
pub proof fn argmax_is_the_last_maximum(v: Seq<Ieee32>, j: int)
    requires
        forall|i: int| 0 <= i < v.len() ==> !(#[trigger] v[i]).nan(),
        0 <= j < v.len(),
    ensures
        0 <= argmax_index(v) < v.len(),
        v[j].key() <= v[argmax_index(v)].key(),
        j > argmax_index(v) ==> v[j].key() < v[argmax_index(v)].key(),
    decreases v.len(),
{
    argmax_in_range(v);
    if v.len() > 1 {
        let front = v.drop_last();
        assert forall|i: int| 0 <= i < front.len() implies !(#[trigger] front[i]).nan() by {
            assert(front[i] == v[i]);
        }
        argmax_in_range(front);
        assert(!v[argmax_index(front)].nan());
        assert(!v[v.len() - 1].nan());
        if j < front.len() {
            argmax_is_the_last_maximum(front, j);
        }
    }
}

/// The index of the greatest value, the last one where several are equal; zero for no
/// values at all.
pub fn argmax(values: &[Ieee32]) -> (res: u32)
    ensures
        res == (argmax_index(values@) as usize) as u32,
{
    if values.len() == 0 {
        return 0;
    }
    let mut held: usize = 0;
    let mut i: usize = 1;
    while i < values.len()
        invariant
            1 <= i <= values@.len(),
            held < i,
            held == argmax_index(values@.take(i as int)),
        decreases values.len() - i,
    {
        assert(values@.take(i + 1).drop_last() =~= values@.take(i as int));
        if !values[held].gt(values[i]) {
            held = i;
        }
        i += 1;
    }
    assert(values@.take(i as int) =~= values@);
    #[verifier::truncate]
    (held as u32)
}

/// Where the strictly greater value wins: the greatest value above negative infinity and
/// the first position that holds it; position zero where there is none. An absent value
/// is passed over.
pub open spec fn first_best(v: Seq<Option<Ieee32>>) -> (Ieee32, int)
    decreases v.len(),
{
    if v.len() == 0 {
        (Ieee32::neg_infinity_spec(), 0)
    } else {
        let held = first_best(v.drop_last());
        match v.last() {
            Some(x) => if x.above(held.0) {
                (x, v.len() - 1)
            } else {
                held
            },
            None => held,
        }
    }
}

/// The first best is what its name says: no value is above it, every earlier number is
/// strictly below it, and it is the value at its position unless nothing lies above
/// negative infinity.
pub proof fn first_best_is_the_first_maximum(v: Seq<Option<Ieee32>>)
    ensures
        !first_best(v).0.nan(),
        first_best(v).0 == Ieee32::neg_infinity_spec() ==> first_best(v).1 == 0,
        first_best(v).0 != Ieee32::neg_infinity_spec() ==> 0 <= first_best(v).1 < v.len()
            && v[first_best(v).1] == Some(first_best(v).0),
        forall|j: int|
            0 <= j < v.len() && (#[trigger] v[j]) is Some ==> !v[j]->0.above(first_best(v).0),
        forall|j: int|
            0 <= j < first_best(v).1 && (#[trigger] v[j]) is Some && !v[j]->0.nan()
                ==> first_best(v).0.above(v[j]->0),
    decreases v.len(),
{
    if v.len() > 0 {
        let front = v.drop_last();
        first_best_is_the_first_maximum(front);
        assert forall|j: int| 0 <= j < front.len() implies v[j] == front[j] by {}
        assert forall|j: int| 0 <= j < v.len() && (#[trigger] v[j]) is Some implies !v[j]->0.above(
            first_best(v).0,
        ) by {
            if j < front.len() {
                assert(front[j] == v[j]);
            }
        }
        assert forall|j: int|
            0 <= j < first_best(v).1 && (#[trigger] v[j]) is Some
                && !v[j]->0.nan() implies first_best(v).0.above(v[j]->0) by {
            if j < front.len() {
                assert(front[j] == v[j]);
            }
        }
    }
}

/// The logits of row `r`, by token: `ranks` ranks gathered their shares one after the
/// other, each share holding `n` rows of `vl` logits. A logit past the end is absent, or
/// the last one stands for it if positions are clamped.
pub open spec fn gathered_row(
    logits: Seq<Ieee32>,
    ranks: int,
    n: int,
    vl: int,
    r: int,
    clamp: bool,
) -> Seq<Option<Ieee32>> {
    Seq::new(
        (ranks * vl) as nat,
        |c: int|
            {
                let at = ((c / vl) * n + r) * vl + c % vl;
                if at < logits.len() {
                    Some(logits[at])
                } else if clamp {
                    Some(logits.last())
                } else {
                    None
                }
            },
    )
}

proof fn gathered_bounds(ranks: int, n: int, vl: int, r: int, rk: int, j: int)
    requires
        0 <= rk < ranks,
        0 <= r < n,
        0 <= j < vl,
    ensures
        0 <= rk * n,
        0 <= rk * n + r < ranks * n,
        0 <= (rk * n + r) * vl,
        (rk * n + r) * vl + j < ranks * n * vl,
        0 <= rk * vl,
        rk * vl + j < ranks * vl,
        ranks * vl <= ranks * n * vl,
        ranks * n <= ranks * n * vl,
        (rk * vl + j) / vl == rk,
        (rk * vl + j) % vl == j,
{
    assert(0 <= rk * n && rk * n + r < ranks * n) by (nonlinear_arith)
        requires
            0 <= rk < ranks,
            0 <= r < n,
    ;
    let a = rk * n + r;
    let b = ranks * n;
    assert(0 <= a * vl && a * vl + j < b * vl) by (nonlinear_arith)
        requires
            0 <= a < b,
            0 <= j < vl,
    ;
    assert(0 <= rk * vl && rk * vl + j < ranks * vl) by (nonlinear_arith)
        requires
            0 <= rk < ranks,
            0 <= j < vl,
    ;
    assert(ranks * vl <= ranks * n * vl) by (nonlinear_arith)
        requires
            0 < ranks,
            1 <= n,
            0 < vl,
    ;
    assert(b <= b * vl) by (nonlinear_arith)
        requires
            0 <= b,
            1 <= vl,
    ;
    vstd::arithmetic::div_mod::lemma_fundamental_div_mod_converse(rk * vl + j, vl, rk, j);
}

/// The token of row `r` of a batch whose logits were gathered rank by rank.
pub fn row_argmax(
    logits: &[Ieee32],
    ranks: usize,
    n: usize,
    vl: usize,
    r: usize,
    clamp: bool,
) -> (res: u32)
    requires
        ranks * n * vl <= usize::MAX,
        r < n,
        clamp && ranks * vl > 0 ==> logits@.len() > 0,
    ensures
        res == (first_best(
            gathered_row(logits@, ranks as int, n as int, vl as int, r as int, clamp),
        ).1 as usize) as u32,
{
    let ghost row = gathered_row(logits@, ranks as int, n as int, vl as int, r as int, clamp);
    let mut best_v: Ieee32 = Ieee32::neg_infinity();
    let mut best_i: usize = 0;
    let mut rk: usize = 0;
    assert(row.take(0) =~= seq![]);
    if vl == 0 {
        assert(ranks * 0 == 0) by (nonlinear_arith);
        assert(row =~= seq![]);
        return 0;
    }
    if ranks == 0 {
        assert(0 * vl == 0) by (nonlinear_arith);
        assert(row =~= seq![]);
        return 0;
    }
    assert(ranks * vl > 0) by (nonlinear_arith)
        requires
            ranks >= 1,
            vl >= 1,
    ;
    while rk < ranks
        invariant
            rk <= ranks,
            r < n,
            vl >= 1,
            clamp ==> logits@.len() > 0,
            ranks * n * vl <= usize::MAX,
            row == gathered_row(logits@, ranks as int, n as int, vl as int, r as int, clamp),
            (best_v, best_i as int) == first_best(row.take(rk * vl)),
        decreases ranks - rk,
    {
        proof {
            gathered_bounds(ranks as int, n as int, vl as int, r as int, rk as int, 0);
        }
        let base: usize = (rk * n + r) * vl;
        let mut j: usize = 0;
        while j < vl
            invariant
                j <= vl,
                rk < ranks,
                r < n,
                vl >= 1,
                clamp ==> logits@.len() > 0,
                base == (rk * n + r) * vl,
                ranks * n * vl <= usize::MAX,
                row == gathered_row(logits@, ranks as int, n as int, vl as int, r as int, clamp),
                (best_v, best_i as int) == first_best(row.take(rk * vl + j)),
            decreases vl - j,
        {
            proof {
                gathered_bounds(ranks as int, n as int, vl as int, r as int, rk as int, j as int);
                let c = rk * vl + j;
                assert(row.take(c + 1).drop_last() =~= row.take(c));
                assert(row.take(c + 1).last() == row[c]);
            }
            let at: usize = base + j;
            if at < logits.len() {
                if logits[at].gt(best_v) {
                    best_v = logits[at];
                    best_i = rk * vl + j;
                }
            } else if clamp {
                let last: Ieee32 = logits[logits.len() - 1];
                if last.gt(best_v) {
                    best_v = last;
                    best_i = rk * vl + j;
                }
            }
            j += 1;
        }
        assert((rk + 1) * vl == rk * vl + vl) by (nonlinear_arith);
        rk += 1;
    }
    assert(row.take(ranks * vl) =~= row);
    #[verifier::truncate]
    (best_i as u32)
}

/// The tokens of all rows of a batch whose logits were gathered rank by rank.
pub fn batch_argmax(
    logits: &[Ieee32],
    ranks: usize,
    n: usize,
    vl: usize,
    clamp: bool,
) -> (res: Vec<u32>)
    requires
        ranks * n * vl <= usize::MAX,
        clamp && ranks * vl > 0 ==> logits@.len() > 0,
    ensures
        res@.len() == n,
        forall|r: int|
            0 <= r < n ==> #[trigger] res@[r] == (first_best(
                gathered_row(logits@, ranks as int, n as int, vl as int, r, clamp),
            ).1 as usize) as u32,
{
    let mut out: Vec<u32> = Vec::new();
    let mut r: usize = 0;
    while r < n
        invariant
            r <= n,
            ranks * n * vl <= usize::MAX,
            clamp && ranks * vl > 0 ==> logits@.len() > 0,
            out@.len() == r,
            forall|i: int|
                0 <= i < r ==> #[trigger] out@[i] == (first_best(
                    gathered_row(logits@, ranks as int, n as int, vl as int, i, clamp),
                ).1 as usize) as u32,
        decreases n - r,
    {
        out.push(row_argmax(logits, ranks, n, vl, r, clamp));
        r += 1;
    }
    out
}

/// The logits of row `r` of a last stage's buffer of `vocab` logits a row, as far as the
/// buffer reaches.
pub open spec fn stage_row(logits: Seq<Ieee32>, vocab: int, r: int) -> Seq<Ieee32> {
    let lo = r * vocab;
    let hi = if (r + 1) * vocab < logits.len() {
        (r + 1) * vocab
    } else {
        logits.len() as int
    };
    if lo < hi {
        logits.subrange(lo, hi)
    } else {
        seq![]
    }
}

/// The tokens of `width` rows of a last stage's logits; zero for a row that the buffer
/// does not reach.
pub fn stage_argmax(logits: &Vec<Ieee32>, vocab: usize, width: usize) -> (res: Vec<u32>)
    requires
        width * vocab <= usize::MAX,
    ensures
        res@.len() == width,
        forall|r: int|
            0 <= r < width ==> #[trigger] res@[r] == (argmax_index(
                stage_row(logits@, vocab as int, r),
            ) as usize) as u32,
{
    let mut out: Vec<u32> = Vec::new();
    let mut r: usize = 0;
    while r < width
        invariant
            r <= width,
            width * vocab <= usize::MAX,
            out@.len() == r,
            forall|i: int|
                0 <= i < r ==> #[trigger] out@[i] == (argmax_index(
                    stage_row(logits@, vocab as int, i),
                ) as usize) as u32,
        decreases width - r,
    {
        assert(0 <= r * vocab <= (r + 1) * vocab <= width * vocab) by (nonlinear_arith)
            requires
                r + 1 <= width,
                0 <= vocab,
        ;
        let lo: usize = r * vocab;
        let end: usize = (r + 1) * vocab;
        let hi: usize = if end < logits.len() {
            end
        } else {
            logits.len()
        };
        if lo < hi {
            out.push(argmax(vstd::slice::slice_subrange(logits.as_slice(), lo, hi)));
        } else {
            out.push(0);
        }
        r += 1;
    }
    out
}

/// Greedy choice picks the greatest logit: no logit is greater than the one picked, and none
/// behind it is as great.
pub proof fn the_greatest_logit_is_picked(values: &[Ieee32], token: u32, j: int)
    requires
        call_ensures(argmax, (values,), token),
        0 < values@.len() <= u32::MAX,
        forall|i: int| 0 <= i < values@.len() ==> !(#[trigger] values@[i]).nan(),
        0 <= j < values@.len(),
    ensures
        token < values@.len(),
        !values@[j].above(values@[token as int]),
        j > token ==> values@[token as int].above(values@[j]),
{
    argmax_is_the_last_maximum(values@, j);
}

/// Where `ranks` ranks hold a part of the vocabulary each, and gathered their logits one
/// rank after the other, the row of a sequence is put together from that sequence's row on
/// every rank, in rank order: as if one rank held the whole vocabulary.
pub proof fn rows_are_put_together_from_the_ranks(
    shares: Seq<Seq<Ieee32>>,
    n: int,
    vl: int,
    r: int,
    clamp: bool,
    rk: int,
    j: int,
)
    requires
        forall|k: int| 0 <= k < shares.len() ==> (#[trigger] shares[k]).len() == n * vl,
        0 <= r < n,
        0 <= rk < shares.len(),
        0 <= j < vl,
    ensures
        gathered_row(concatenated(shares), shares.len() as int, n, vl, r, clamp).len()
            == shares.len() * vl,
        gathered_row(concatenated(shares), shares.len() as int, n, vl, r, clamp)[rk * vl + j]
            == Some(shares[rk][r * vl + j]),
{
    let ranks = shares.len() as int;
    let all = concatenated(shares);
    let chunk = n * vl;
    gathered_bounds(ranks, n, vl, r, rk, j);
    assert(chunk >= 0) by (nonlinear_arith)
        requires
            n > 0,
            vl > 0,
            chunk == n * vl,
    ;
    assert(0 <= r * vl + j < n * vl) by (nonlinear_arith)
        requires
            0 <= r < n,
            0 <= j < vl,
    ;
    assert(ranks * vl >= 0) by (nonlinear_arith)
        requires
            ranks >= 0,
            vl > 0,
    ;
    pieces_come_apart(shares, chunk, rk);
    assert((rk * n + r) * vl + j == rk * chunk + (r * vl + j)) by (nonlinear_arith)
        requires
            chunk == n * vl,
    ;
    assert(ranks * n * vl == ranks * chunk) by (nonlinear_arith)
        requires
            chunk == n * vl,
    ;
    assert((rk + 1) * chunk == rk * chunk + chunk) by (nonlinear_arith);
    assert(0 <= rk * chunk && (rk + 1) * chunk <= ranks * chunk) by (nonlinear_arith)
        requires
            0 <= rk < ranks,
            chunk >= 0,
    ;
    assert(part(all, chunk, rk)[r * vl + j] == all[rk * chunk + (r * vl + j)]);
}

/// A batch of sequences gets each sequence's own token: no logit of that sequence's row, on
/// any rank, is greater than the token's.
pub proof fn every_row_gets_its_own_token(
    shares: Seq<Seq<Ieee32>>,
    logits: &[Ieee32],
    n: usize,
    vl: usize,
    clamp: bool,
    tokens: Vec<u32>,
    r: int,
    rk: int,
    j: int,
)
    requires
        logits@ == concatenated(shares),
        forall|k: int| 0 <= k < shares.len() ==> (#[trigger] shares[k]).len() == n * vl,
        shares.len() * vl <= u32::MAX,
        shares.len() <= usize::MAX,
        call_ensures(batch_argmax, (logits, shares.len() as usize, n, vl, clamp), tokens),
        0 <= r < n,
        0 <= rk < shares.len(),
        0 <= j < vl,
    ensures
        tokens@.len() == n,
        tokens@[r] < shares.len() * vl,
        exists|k: int, i: int|
            {
                &&& 0 <= k < shares.len()
                &&& 0 <= i < vl
                &&& tokens@[r] == k * vl + i
                &&& !shares[rk][r * vl + j].above(#[trigger] shares[k][r * vl + i])
            },
{
    let ranks = shares.len() as int;
    let w = vl as int;
    let row = gathered_row(logits@, ranks, n as int, w, r, clamp);
    let best = first_best(row);
    first_best_is_the_first_maximum(row);
    rows_are_put_together_from_the_ranks(shares, n as int, w, r, clamp, rk, j);
    gathered_bounds(ranks, n as int, w, r, rk, j);
    assert(row[rk * w + j] is Some);
    assert(tokens@[r] == (best.1 as usize) as u32);
    let t = best.1;
    assert(ranks * w > 0);
    assert(0 <= t < ranks * w);
    let k = t / w;
    let i = t % w;
    assert(t == k * w + i && 0 <= i < w && 0 <= k < ranks) by (nonlinear_arith)
        requires
            k == t / w,
            i == t % w,
            w > 0,
            0 <= t < ranks * w,
    ;
    rows_are_put_together_from_the_ranks(shares, n as int, w, r, clamp, k, i);
    if best.0 != Ieee32::neg_infinity_spec() {
        assert(row[t] == Some(best.0));
    }
    assert(shares[k][r * w + i] == shares[k][r * w + i]);
}

/// The rows of a last stage's logits are cut where they begin: the token of a row is chosen
/// from that row alone.
pub proof fn stage_rows_are_cut_apart(rows: Seq<Seq<Ieee32>>, vocab: int, r: int)
    requires
        vocab > 0,
        forall|k: int| 0 <= k < rows.len() ==> (#[trigger] rows[k]).len() == vocab,
        0 <= r < rows.len(),
    ensures
        stage_row(concatenated(rows), vocab, r) == rows[r],
{
    let n = rows.len() as int;
    pieces_come_apart(rows, vocab, r);
    assert((r + 1) * vocab == r * vocab + vocab) by (nonlinear_arith);
    assert((r + 1) * vocab <= n * vocab) by (nonlinear_arith)
        requires
            r + 1 <= n,
            vocab > 0,
    ;
    assert(stage_row(concatenated(rows), vocab, r) =~= part(concatenated(rows), vocab, r));
}

} // verus!
