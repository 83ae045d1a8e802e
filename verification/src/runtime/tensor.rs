//! Combining tensors: sums, concatenations and even splits.
//!
//! Addition is the caller's: a sum is stated as the left-to-right chain of additions,
//! from zero, that produced it.

use vstd::prelude::*;

use crate::ieee::Ieee32;

verus! {

/// The contents of some tensors.
pub open spec fn tensor_views(v: Seq<Vec<Ieee32>>) -> Seq<Seq<Ieee32>> {
    v.map_values(|t: Vec<Ieee32>| t@)
}

/// Whether adding the values one after the other, from zero, can give `r`.
pub open spec fn folds_to<F: Fn(Ieee32, Ieee32) -> Ieee32>(
    f: F,
    xs: Seq<Ieee32>,
    r: Ieee32,
) -> bool
    decreases xs.len(),
{
    if xs.len() == 0 {
        r == Ieee32::zero_spec()
    } else {
        exists|m: Ieee32|
            folds_to(f, xs.drop_last(), m) && #[trigger] call_ensures(f, (m, xs.last()), r)
    }
}

/// The values that the tensors have at position `j`, in order; shorter tensors have none.
pub open spec fn column(ts: Seq<Seq<Ieee32>>, j: int) -> Seq<Ieee32>
    decreases ts.len(),
{
    if ts.len() == 0 {
        seq![]
    } else if j < ts.last().len() {
        column(ts.drop_last(), j).push(ts.last()[j])
    } else {
        column(ts.drop_last(), j)
    }
}

/// The length of the longest tensor.
pub open spec fn max_len(ts: Seq<Seq<Ieee32>>) -> nat
    decreases ts.len(),
{
    if ts.len() == 0 {
        0
    } else if ts.last().len() > max_len(ts.drop_last()) {
        ts.last().len()
    } else {
        max_len(ts.drop_last())
    }
}

/// No tensor is longer than the longest.
pub proof fn max_len_bounds(ts: Seq<Seq<Ieee32>>, i: int)
    requires
        0 <= i < ts.len(),
    ensures
        ts[i].len() <= max_len(ts),
    decreases ts.len(),
{
    if i < ts.len() - 1 {
        max_len_bounds(ts.drop_last(), i);
    }
}

/// Whether `out` is an elementwise sum of the tensors: as long as the longest, and at each
/// position the chain of additions over the tensors that reach it.
pub open spec fn sums<F: Fn(Ieee32, Ieee32) -> Ieee32>(
    f: F,
    ts: Seq<Seq<Ieee32>>,
    out: Seq<Ieee32>,
) -> bool {
    &&& out.len() == max_len(ts)
    &&& forall|j: int| 0 <= j < out.len() ==> folds_to(f, column(ts, j), #[trigger] out[j])
}

/// The elementwise sum of some tensors; shorter ones count as if filled up with nothing.
pub fn elementwise_sum<F: Fn(Ieee32, Ieee32) -> Ieee32>(ts: &Vec<Vec<Ieee32>>, plus: &F) -> (res: Vec<
    Ieee32,
>)
    requires
        forall|a: Ieee32, b: Ieee32| call_requires(*plus, (a, b)),
    ensures
        sums(*plus, tensor_views(ts@), res@),
{
    let ghost views = tensor_views(ts@);
    let mut len: usize = 0;
    let mut i: usize = 0;
    while i < ts.len()
        invariant
            i <= ts@.len(),
            views == tensor_views(ts@),
            len == max_len(views.take(i as int)),
        decreases ts.len() - i,
    {
        assert(views.take(i + 1).drop_last() =~= views.take(i as int));
        assert(views[i as int] == ts@[i as int]@);
        if ts[i].len() > len {
            len = ts[i].len();
        }
        i += 1;
    }
    assert(views.take(i as int) =~= views);
    let mut out: Vec<Ieee32> = Vec::new();
    let mut k: usize = 0;
    while k < len
        invariant
            k <= len,
            out@.len() == k,
            forall|j: int| 0 <= j < k ==> #[trigger] out@[j] == Ieee32::zero_spec(),
        decreases len - k,
    {
        out.push(Ieee32::zero());
        k += 1;
    }
    let mut i: usize = 0;
    assert forall|j: int| 0 <= j < len implies folds_to(
        *plus,
        column(views.take(0), j),
        #[trigger] out@[j],
    ) by {
        assert(out@[j] == Ieee32::zero_spec());
    }
    while i < ts.len()
        invariant
            i <= ts@.len(),
            views == tensor_views(ts@),
            len == max_len(views),
            out@.len() == len,
            forall|a: Ieee32, b: Ieee32| call_requires(*plus, (a, b)),
            forall|j: int|
                0 <= j < len ==> folds_to(
                    *plus,
                    column(views.take(i as int), j),
                    #[trigger] out@[j],
                ),
        decreases ts.len() - i,
    {
        let t = &ts[i];
        let ghost before = views.take(i as int);
        let ghost upto = views.take(i + 1);
        proof {
            assert(upto.drop_last() =~= before);
            assert(views[i as int] == t@);
            max_len_bounds(views, i as int);
        }
        let mut j: usize = 0;
        while j < t.len()
            invariant
                j <= t@.len() <= len,
                out@.len() == len,
                upto.len() > 0,
                upto.drop_last() == before,
                upto.last() == t@,
                forall|a: Ieee32, b: Ieee32| call_requires(*plus, (a, b)),
                forall|c: int|
                    0 <= c < j ==> folds_to(*plus, column(upto, c), #[trigger] out@[c]),
                forall|c: int|
                    j <= c < len ==> folds_to(*plus, column(before, c), #[trigger] out@[c]),
            decreases t.len() - j,
        {
            let m: Ieee32 = out[j];
            let v: Ieee32 = (*plus)(m, t[j]);
            proof {
                assert(folds_to(*plus, column(before, j as int), m));
                let col = column(upto, j as int);
                assert(col.drop_last() =~= column(before, j as int));
                assert(col.last() == t@[j as int]);
                assert(folds_to(*plus, col.drop_last(), m));
                assert(call_ensures(*plus, (m, col.last()), v));
                assert(folds_to(*plus, col, v));
            }
            out.set(j, v);
            j += 1;
        }
        assert forall|c: int| 0 <= c < len implies folds_to(
            *plus,
            column(views.take(i + 1), c),
            #[trigger] out@[c],
        ) by {
            if c >= t@.len() {
                assert(column(upto, c) == column(before, c));
            }
        }
        i += 1;
    }
    assert(views.take(i as int) =~= views);
    out
}

/// The tensors one after the other.
pub open spec fn concatenated(ts: Seq<Seq<Ieee32>>) -> Seq<Ieee32>
    decreases ts.len(),
{
    if ts.len() == 0 {
        seq![]
    } else {
        concatenated(ts.drop_last()) + ts.last()
    }
}

/// Puts tensors one after the other.
pub fn concat(ts: &Vec<Vec<Ieee32>>) -> (res: Vec<Ieee32>)
    ensures
        res@ == concatenated(tensor_views(ts@)),
{
    let ghost views = tensor_views(ts@);
    let mut out: Vec<Ieee32> = Vec::new();
    let mut i: usize = 0;
    while i < ts.len()
        invariant
            i <= ts@.len(),
            views == tensor_views(ts@),
            out@ == concatenated(views.take(i as int)),
        decreases ts.len() - i,
    {
        let t = &ts[i];
        let ghost before = out@;
        assert(views.take(i + 1).drop_last() =~= views.take(i as int));
        assert(views[i as int] == t@);
        let mut j: usize = 0;
        assert(before + t@.take(0) =~= before);
        while j < t.len()
            invariant
                j <= t@.len(),
                out@ == before + t@.take(j as int),
            decreases t.len() - j,
        {
            out.push(t[j]);
            j += 1;
            assert(out@ =~= before + t@.take(j as int));
        }
        assert(t@.take(j as int) =~= t@);
        i += 1;
    }
    assert(views.take(i as int) =~= views);
    out
}

/// A copy of a part of a tensor.
pub fn slice_of(t: &Vec<Ieee32>, from: usize, to: usize) -> (res: Vec<Ieee32>)
    requires
        from <= to <= t@.len(),
    ensures
        res@ == t@.subrange(from as int, to as int),
{
    let mut out: Vec<Ieee32> = Vec::new();
    let mut i: usize = from;
    while i < to
        invariant
            from <= i <= to <= t@.len(),
            out@ == t@.subrange(from as int, i as int),
        decreases to - i,
    {
        out.push(t[i]);
        i += 1;
        assert(out@ =~= t@.subrange(from as int, i as int));
    }
    out
}

/// Part `k` of a tensor cut into parts of `chunk` elements.
pub open spec fn part(t: Seq<Ieee32>, chunk: int, k: int) -> Seq<Ieee32> {
    t.subrange(k * chunk, (k + 1) * chunk)
}

/// The bounds of part `k` of `parts`.
pub proof fn part_bounds(len: int, parts: int, chunk: int, k: int)
    requires
        parts > 0,
        chunk == len / parts,
        len >= 0,
        0 <= k < parts,
    ensures
        0 <= k * chunk <= (k + 1) * chunk <= len,
        (k + 1) * chunk == k * chunk + chunk,
        chunk >= 0,
{
    assert(chunk >= 0 && chunk * parts <= len) by (nonlinear_arith)
        requires
            chunk == len / parts,
            parts > 0,
            len >= 0,
    ;
    assert(0 <= k * chunk && (k + 1) * chunk == k * chunk + chunk && (k + 1) * chunk <= parts
        * chunk) by (nonlinear_arith)
        requires
            0 <= k < parts,
            chunk >= 0,
    ;
    assert(parts * chunk == chunk * parts) by (nonlinear_arith);
}

/// Cuts a tensor into equal parts.
pub fn cut(t: &Vec<Ieee32>, parts: usize) -> (res: Vec<Vec<Ieee32>>)
    requires
        parts > 0,
    ensures
        res@.len() == parts,
        forall|k: int|
            0 <= k < parts ==> (#[trigger] res@[k])@ == part(
                t@,
                t@.len() as int / parts as int,
                k,
            ),
{
    let len: usize = t.len();
    let chunk: usize = len / parts;
    let mut out: Vec<Vec<Ieee32>> = Vec::new();
    let mut k: usize = 0;
    while k < parts
        invariant
            k <= parts,
            parts > 0,
            len == t@.len(),
            chunk == t@.len() as int / parts as int,
            out@.len() == k,
            forall|i: int| 0 <= i < k ==> (#[trigger] out@[i])@ == part(t@, chunk as int, i),
        decreases parts - k,
    {
        proof {
            part_bounds(t@.len() as int, parts as int, chunk as int, k as int);
        }
        let from: usize = k * chunk;
        out.push(slice_of(t, from, from + chunk));
        k += 1;
    }
    out
}

/// The parts of an evenly cut tensor, put together again, are the tensor.
pub proof fn parts_make_the_whole(t: Seq<Ieee32>, parts: int, n: int)
    requires
        parts > 0,
        t.len() as int % parts == 0,
        0 <= n <= parts,
    ensures
        concatenated(Seq::new(n as nat, |k: int| part(t, t.len() as int / parts, k))) == t.take(
            n * (t.len() as int / parts),
        ),
        n == parts ==> t.take(n * (t.len() as int / parts)) == t,
    decreases n,
{
    let chunk = t.len() as int / parts;
    let ps = Seq::new(n as nat, |k: int| part(t, chunk, k));
    if n == 0 {
        assert(0 * chunk == 0) by (nonlinear_arith);
        assert(concatenated(ps) =~= t.take(0));
    } else {
        parts_make_the_whole(t, parts, n - 1);
        part_bounds(t.len() as int, parts, chunk, n - 1);
        assert(ps.drop_last() =~= Seq::new((n - 1) as nat, |k: int| part(t, chunk, k)));
        assert(concatenated(ps) =~= t.take(n * chunk));
    }
    if n == parts {
        assert(parts * chunk == t.len()) by (nonlinear_arith)
            requires
                chunk == t.len() as int / parts,
                t.len() as int % parts == 0,
                parts > 0,
        ;
        assert(t.take(n * chunk) =~= t);
    }
}

/// Putting tensors one after the other: one tensor is itself, and the tensors of two lists are
/// those of the first, then those of the second.
pub proof fn concatenation_keeps_the_order(a: Seq<Seq<Ieee32>>, b: Seq<Seq<Ieee32>>, t: Seq<Ieee32>)
    ensures
        concatenated(seq![t]) == t,
        concatenated(a + b) == concatenated(a) + concatenated(b),
    decreases b.len(),
{
    let one = seq![t];
    assert(one.drop_last().len() == 0);
    assert(concatenated(one.drop_last()) =~= seq![]);
    assert(one.last() == t);
    assert(concatenated(one) =~= t);
    if b.len() == 0 {
        assert(a + b =~= a);
        assert(concatenated(a) + concatenated(b) =~= concatenated(a));
    } else {
        concatenation_keeps_the_order(a, b.drop_last(), t);
        assert((a + b).drop_last() =~= a + b.drop_last());
        assert(concatenated(a + b) =~= concatenated(a) + concatenated(b));
    }
}

/// An elementwise sum takes the tensors one by one: the sum with one tensor more, of the same
/// length, is at each place the sum so far and that tensor's element added up.
pub proof fn sums_add_one_tensor_after_the_other<F: Fn(Ieee32, Ieee32) -> Ieee32>(
    f: F,
    ts: Seq<Seq<Ieee32>>,
    t: Seq<Ieee32>,
    out: Seq<Ieee32>,
    j: int,
)
    requires
        sums(f, ts.push(t), out),
        0 <= j < t.len(),
        forall|i: int| 0 <= i < ts.len() ==> (#[trigger] ts[i]).len() == t.len(),
    ensures
        out.len() == t.len(),
        exists|m: Ieee32|
            {
                &&& #[trigger] call_ensures(f, (m, t[j]), out[j])
                &&& ts.len() == 0 ==> m == (Ieee32 { bits: 0 })
                &&& ts.len() > 0 ==> folds_to(f, column(ts, j), m)
            },
{
    let all = ts.push(t);
    assert(all.drop_last() =~= ts);
    assert(all.last() == t);
    longest_is(ts, t.len());
    let xs = column(all, j);
    assert(xs == column(ts, j).push(t[j]));
    assert(xs.drop_last() =~= column(ts, j));
    assert(folds_to(f, xs, out[j]));
    let m = choose|m: Ieee32|
        folds_to(f, xs.drop_last(), m) && #[trigger] call_ensures(f, (m, xs.last()), out[j]);
    assert(call_ensures(f, (m, t[j]), out[j]));
}

proof fn longest_is(ts: Seq<Seq<Ieee32>>, n: nat)
    requires
        forall|i: int| 0 <= i < ts.len() ==> (#[trigger] ts[i]).len() == n,
    ensures
        max_len(ts) == if ts.len() == 0 {
            0
        } else {
            n
        },
    decreases ts.len(),
{
    if ts.len() > 0 {
        let front = ts.drop_last();
        assert forall|i: int| 0 <= i < front.len() implies (#[trigger] front[i]).len() == n by {
            assert(front[i] == ts[i]);
        }
        assert(ts[ts.len() - 1].len() == n);
        longest_is(front, n);
    }
}

/// Every tensor has its element in the sum at each place: the elements added up at a place
/// are those of the tensors there, in order.
pub proof fn every_tensor_counts(ts: Seq<Seq<Ieee32>>, j: int, i: int)
    requires
        0 <= j,
        forall|k: int| 0 <= k < ts.len() ==> j < (#[trigger] ts[k]).len(),
        0 <= i < ts.len(),
    ensures
        column(ts, j).len() == ts.len(),
        column(ts, j)[i] == ts[i][j],
    decreases ts.len(),
{
    let front = ts.drop_last();
    assert forall|k: int| 0 <= k < front.len() implies j < (#[trigger] front[k]).len() by {
        assert(front[k] == ts[k]);
    }
    assert(ts[ts.len() - 1] == ts.last());
    assert(j < ts.last().len());
    if front.len() == 0 {
        assert(column(front, j) =~= seq![]);
    } else {
        every_tensor_counts(
            front,
            j,
            if i < front.len() {
                i
            } else {
                0
            },
        );
    }
}

} // verus!
