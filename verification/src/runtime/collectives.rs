//! In-process collectives: the tensor transformations of the distributed ones.

use vstd::prelude::*;

use crate::ieee::Ieee32;
use crate::runtime::collective_kind::CollectiveKind;
use crate::runtime::distributed::segment_runner::copy_values;
use crate::runtime::tensor::{
    concat, concatenated, cut, elementwise_sum, max_len, part, part_bounds, parts_make_the_whole,
    sums, tensor_views,
};

verus! {

/// Failure modes of a collective.
#[derive(Debug, Clone, Copy, PartialEq, Eq, Structural)]
pub enum CollectiveError {
    /// A participant is no runtime of the set.
    InvalidParticipant { participant: usize, num_runtimes: usize },
    /// Nobody takes part.
    EmptyParticipants,
    /// The participants' tensors differ in length.
    ShapeMismatch { expected: usize, got: usize },
    /// A tensor cannot be split evenly.
    UnevenSplit { len: usize, parts: usize },
}

/// Collectives among up to `num_devices` runtimes of this process.
#[derive(Debug, Clone, Copy, PartialEq, Eq, Structural)]
pub struct MockCollective {
    pub num_devices: usize,
}

/// Collectives over NCCL among `world_size` ranks.
#[derive(Debug, Clone, Copy, PartialEq, Eq, Structural)]
pub struct NcclCollective {
    pub world_size: usize,
}

impl NcclCollective {
    pub fn new(world_size: usize) -> (res: Self)
        ensures
            res.world_size == world_size,
    {
        NcclCollective { world_size }
    }
}

/// Whether all tensors are as long as the first.
pub open spec fn same_len(ts: Seq<Seq<Ieee32>>) -> bool {
    forall|i: int| 0 <= i < ts.len() ==> (#[trigger] ts[i]).len() == ts[0].len()
}

/// What participant `k` ends up with in an exchange of parts: part `k` of every
/// participant's tensor, in order.
pub open spec fn exchanged(ts: Seq<Seq<Ieee32>>, k: int) -> Seq<Ieee32> {
    concatenated(
        Seq::new(ts.len(), |i: int| part(ts[i], ts[i].len() as int / ts.len() as int, k)),
    )
}

/// What participant `k` ends up with; `None` if it keeps what it has. `sum` is the
/// elementwise sum where one is formed.
pub open spec fn outcome(
    kind: CollectiveKind,
    ts: Seq<Seq<Ieee32>>,
    sum: Seq<Ieee32>,
    k: int,
) -> Option<Seq<Ieee32>> {
    match kind {
        CollectiveKind::RingAllReduce => Some(sum),
        CollectiveKind::AllGather => Some(concatenated(ts)),
        CollectiveKind::ReduceScatter => Some(
            part(sum, sum.len() as int / ts.len() as int, k),
        ),
        CollectiveKind::AllToAll => Some(exchanged(ts, k)),
        CollectiveKind::Broadcast => Some(ts[0]),
        CollectiveKind::SendRecv => if k == 1 {
            Some(ts[0])
        } else {
            None
        },
    }
}

/// Whether the collective splits tensors among the participants.
pub open spec fn splits(kind: CollectiveKind) -> bool {
    kind == CollectiveKind::ReduceScatter || kind == CollectiveKind::AllToAll
}

/// The new values of a collective's participants.
pub open spec fn outcomes(
    kind: CollectiveKind,
    ts: Seq<Seq<Ieee32>>,
    sum: Seq<Ieee32>,
    res: Seq<Option<Vec<Ieee32>>>,
) -> bool {
    &&& res.len() == ts.len()
    &&& forall|k: int|
        0 <= k < res.len() ==> match (#[trigger] res[k]) {
            Some(v) => outcome(kind, ts, sum, k) == Some(v@),
            None => outcome(kind, ts, sum, k) is None,
        }
}

impl MockCollective {
    pub fn new(num_devices: usize) -> (res: Self)
        ensures
            res.num_devices == num_devices,
    {
        MockCollective { num_devices }
    }

    /// The number of runtimes that can take part.
    pub open spec fn usable(&self, num_runtimes: usize) -> usize {
        if num_runtimes < self.num_devices {
            num_runtimes
        } else {
            self.num_devices
        }
    }

    /// Checks the participants of a collective among `num_runtimes` runtimes; the error
    /// names the first that cannot take part.
    pub fn check_participants(&self, participants: &Vec<usize>, num_runtimes: usize) -> (res: Result<
        (),
        CollectiveError,
    >)
        ensures
            participants@.len() == 0 ==> res == Err::<(), _>(CollectiveError::EmptyParticipants),
            participants@.len() > 0 ==> {
                &&& res is Ok <==> forall|i: int|
                    0 <= i < participants@.len() ==> (#[trigger] participants@[i]) < self.usable(
                        num_runtimes,
                    )
                &&& res is Err ==> exists|i: int|
                    {
                        &&& 0 <= i < participants@.len()
                        &&& (#[trigger] participants@[i]) >= self.usable(num_runtimes)
                        &&& forall|j: int|
                            0 <= j < i ==> (#[trigger] participants@[j]) < self.usable(
                                num_runtimes,
                            )
                        &&& res == Err::<(), _>(
                            CollectiveError::InvalidParticipant {
                                participant: participants@[i],
                                num_runtimes: self.usable(num_runtimes),
                            },
                        )
                    }
            },
    {
        if participants.len() == 0 {
            return Err(CollectiveError::EmptyParticipants);
        }
        let usable: usize = if num_runtimes < self.num_devices {
            num_runtimes
        } else {
            self.num_devices
        };
        let mut i: usize = 0;
        while i < participants.len()
            invariant
                i <= participants@.len(),
                participants@.len() > 0,
                usable == self.usable(num_runtimes),
                forall|j: int| 0 <= j < i ==> (#[trigger] participants@[j]) < usable,
            decreases participants.len() - i,
        {
            let p: usize = participants[i];
            if p >= usable {
                assert(participants@[i as int] >= usable);
                return Err(
                    CollectiveError::InvalidParticipant { participant: p, num_runtimes: usable },
                );
            }
            i += 1;
        }
        Ok(())
    }

    /// Performs a collective on the participants' tensors. Gives each participant's new
    /// value, or `None` where it keeps its own.
    pub fn execute<F: Fn(Ieee32, Ieee32) -> Ieee32>(
        &self,
        kind: CollectiveKind,
        tensors: &Vec<Vec<Ieee32>>,
        plus: &F,
    ) -> (res: Result<Vec<Option<Vec<Ieee32>>>, CollectiveError>)
        requires
            tensors@.len() > 0,
            splits(kind) && same_len(tensor_views(tensors@)) ==> tensors@[0]@.len() > 0,
            forall|a: Ieee32, b: Ieee32| call_requires(*plus, (a, b)),
        ensures
            ({
                let ts = tensor_views(tensors@);
                let n = ts.len() as int;
                let len = ts[0].len() as int;
                if !same_len(ts) {
                    exists|i: int|
                        {
                            &&& 0 <= i < n
                            &&& (#[trigger] ts[i]).len() != len
                            &&& forall|j: int| 0 <= j < i ==> (#[trigger] ts[j]).len() == len
                            &&& res == Err::<Vec<Option<Vec<Ieee32>>>, _>(
                                CollectiveError::ShapeMismatch {
                                    expected: len as usize,
                                    got: ts[i].len() as usize,
                                },
                            )
                        }
                } else if splits(kind) && len % n != 0 {
                    res == Err::<Vec<Option<Vec<Ieee32>>>, _>(
                        CollectiveError::UnevenSplit { len: len as usize, parts: n as usize },
                    )
                } else {
                    exists|sum: Seq<Ieee32>|
                        res is Ok && #[trigger] sums(*plus, ts, sum) && outcomes(
                            kind,
                            ts,
                            sum,
                            res->Ok_0@,
                        )
                }
            }),
    {
        let ghost ts = tensor_views(tensors@);
        assert(ts[0] == tensors@[0]@);
        let expected: usize = tensors[0].len();
        let n: usize = tensors.len();
        let mut i: usize = 0;
        while i < n
            invariant
                i <= n,
                n == tensors@.len(),
                ts == tensor_views(tensors@),
                ts.len() == n,
                n > 0,
                expected == ts[0].len(),
                forall|j: int| 0 <= j < i ==> (#[trigger] ts[j]).len() == expected,
            decreases n - i,
        {
            assert(ts[i as int] == tensors@[i as int]@);
            let got: usize = tensors[i].len();
            if got != expected {
                assert(ts[i as int].len() != expected);
                assert(!same_len(ts));
                return Err(CollectiveError::ShapeMismatch { expected, got });
            }
            i += 1;
        }
        assert(same_len(ts));
        let splitting = match kind {
            CollectiveKind::ReduceScatter | CollectiveKind::AllToAll => true,
            _ => false,
        };
        if splitting && expected % n != 0 {
            return Err(CollectiveError::UnevenSplit { len: expected, parts: n });
        }
        Ok(combine(kind, tensors, plus))
    }
}

/// The new values of a collective's participants: `None` where one keeps its own.
pub fn combine<F: Fn(Ieee32, Ieee32) -> Ieee32>(
    kind: CollectiveKind,
    tensors: &Vec<Vec<Ieee32>>,
    plus: &F,
) -> (res: Vec<Option<Vec<Ieee32>>>)
    requires
        tensors@.len() > 0,
        forall|a: Ieee32, b: Ieee32| call_requires(*plus, (a, b)),
    ensures
        exists|sum: Seq<Ieee32>|
            #[trigger] sums(*plus, tensor_views(tensors@), sum) && outcomes(
                kind,
                tensor_views(tensors@),
                sum,
                res@,
            ),
{
    let ghost ts = tensor_views(tensors@);
    let n: usize = tensors.len();
    let sum = elementwise_sum(tensors, plus);
    let mut shares: Vec<Vec<Ieee32>> = Vec::new();
    if let CollectiveKind::ReduceScatter = kind {
        shares = cut(&sum, n);
    }
    if let CollectiveKind::AllToAll = kind {
        shares = exchange(tensors);
    }
    let mut out: Vec<Option<Vec<Ieee32>>> = Vec::new();
    let mut k: usize = 0;
    while k < n
        invariant
            k <= n,
            n == tensors@.len(),
            ts == tensor_views(tensors@),
            ts.len() == n,
            n > 0,
            kind == CollectiveKind::ReduceScatter ==> shares@.len() == n && forall|j: int|
                0 <= j < n ==> (#[trigger] shares@[j])@ == part(
                    sum@,
                    sum@.len() as int / n as int,
                    j,
                ),
            kind == CollectiveKind::AllToAll ==> shares@.len() == n && forall|j: int|
                0 <= j < n ==> (#[trigger] shares@[j])@ == exchanged(ts, j),
            out@.len() == k,
            forall|j: int|
                0 <= j < k ==> match (#[trigger] out@[j]) {
                    Some(v) => outcome(kind, ts, sum@, j) == Some(v@),
                    None => outcome(kind, ts, sum@, j) is None,
                },
        decreases n - k,
    {
        assert(ts[0] == tensors@[0]@);
        let value = match kind {
            CollectiveKind::RingAllReduce => Some(copy_values(&sum)),
            CollectiveKind::AllGather => Some(concat(tensors)),
            CollectiveKind::ReduceScatter | CollectiveKind::AllToAll => {
                assert(shares@.len() == n);
                Some(copy_values(&shares[k]))
            },
            CollectiveKind::Broadcast => Some(copy_values(&tensors[0])),
            CollectiveKind::SendRecv => if k == 1 {
                Some(copy_values(&tensors[0]))
            } else {
                None
            },
        };
        out.push(value);
        k += 1;
    }
    assert(sums(*plus, ts, sum@));
    assert(outcomes(kind, ts, sum@, out@));
    out
}

/// Exchanges parts: what each participant ends up with.
fn exchange(tensors: &Vec<Vec<Ieee32>>) -> (res: Vec<Vec<Ieee32>>)
    requires
        tensors@.len() > 0,
    ensures
        res@.len() == tensors@.len(),
        forall|k: int|
            0 <= k < res@.len() ==> (#[trigger] res@[k])@ == exchanged(tensor_views(tensors@), k),
{
    let ghost ts = tensor_views(tensors@);
    let n: usize = tensors.len();
    let mut out: Vec<Vec<Ieee32>> = Vec::new();
    let mut k: usize = 0;
    while k < n
        invariant
            k <= n,
            n == tensors@.len(),
            n > 0,
            ts == tensor_views(tensors@),
            out@.len() == k,
            forall|j: int| 0 <= j < k ==> (#[trigger] out@[j])@ == exchanged(ts, j),
        decreases n - k,
    {
        let mut pieces: Vec<Vec<Ieee32>> = Vec::new();
        let mut i: usize = 0;
        while i < n
            invariant
                i <= n,
                k < n,
                n == tensors@.len(),
                ts == tensor_views(tensors@),
                pieces@.len() == i,
                forall|j: int|
                    0 <= j < i ==> (#[trigger] pieces@[j])@ == part(
                        ts[j],
                        ts[j].len() as int / n as int,
                        k as int,
                    ),
            decreases n - i,
        {
            assert(ts[i as int] == tensors@[i as int]@);
            let parts = cut(&tensors[i], n);
            pieces.push(copy_values(&parts[k]));
            i += 1;
        }
        let ghost want = Seq::new(
            ts.len(),
            |i: int| part(ts[i], ts[i].len() as int / ts.len() as int, k as int),
        );
        assert(tensor_views(pieces@) =~= want);
        out.push(concat(&pieces));
        k += 1;
    }
    out
}

/// After an all-reduce, all-gather or broadcast every participant has the same value.
pub proof fn participants_agree(
    kind: CollectiveKind,
    ts: Seq<Seq<Ieee32>>,
    sum: Seq<Ieee32>,
    a: int,
    b: int,
)
    requires
        kind == CollectiveKind::RingAllReduce || kind == CollectiveKind::AllGather || kind
            == CollectiveKind::Broadcast,
    ensures
        outcome(kind, ts, sum, a) == outcome(kind, ts, sum, b),
        outcome(kind, ts, sum, a) is Some,
{
}

/// A reduce-scatter hands out the sum: the participants' parts, in order, are the sum that
/// an all-reduce would have given each of them.
pub proof fn scattered_parts_make_the_sum(ts: Seq<Seq<Ieee32>>, sum: Seq<Ieee32>)
    requires
        ts.len() > 0,
        sum.len() as int % ts.len() as int == 0,
    ensures
        concatenated(
            Seq::new(
                ts.len(),
                |k: int| outcome(CollectiveKind::ReduceScatter, ts, sum, k)->0,
            ),
        ) == sum,
{
    let n = ts.len() as int;
    parts_make_the_whole(sum, n, n);
    assert(Seq::new(ts.len(), |k: int| outcome(CollectiveKind::ReduceScatter, ts, sum, k)->0)
        =~= Seq::new(ts.len(), |k: int| part(sum, sum.len() as int / n, k)));
}

/// The tensors that the participants have after a collective that gives each of them one.
pub open spec fn received(res: Seq<Option<Vec<Ieee32>>>) -> Seq<Seq<Ieee32>> {
    res.map_values(|v: Option<Vec<Ieee32>>| v->0@)
}

/// A reduce-scatter and then an all-gather leave every participant with what a single
/// all-reduce leaves it with. After the first, the tensors are of one length, so that the
/// second can be performed.
pub proof fn scatter_and_gather_reduce<F: Fn(Ieee32, Ieee32) -> Ieee32>(
    plus: F,
    ts: Seq<Seq<Ieee32>>,
    sum: Seq<Ieee32>,
    scattered: Seq<Option<Vec<Ieee32>>>,
    unused: Seq<Ieee32>,
    gathered: Seq<Option<Vec<Ieee32>>>,
)
    requires
        ts.len() > 0,
        same_len(ts),
        ts[0].len() as int % ts.len() as int == 0,
        sums(plus, ts, sum),
        outcomes(CollectiveKind::ReduceScatter, ts, sum, scattered),
        outcomes(CollectiveKind::AllGather, received(scattered), unused, gathered),
    ensures
        same_len(received(scattered)),
        outcomes(CollectiveKind::RingAllReduce, ts, sum, gathered),
{
    let n = ts.len() as int;
    let kind = CollectiveKind::ReduceScatter;
    longest_of_equals(ts);
    let parts = received(scattered);
    let want = Seq::new(ts.len(), |k: int| outcome(kind, ts, sum, k)->0);
    assert forall|k: int| 0 <= k < n implies #[trigger] parts[k] == want[k] && parts[k].len()
        == sum.len() as int / n by {
        assert(scattered[k] is Some);
        part_bounds(sum.len() as int, n, sum.len() as int / n, k);
    }
    assert(parts =~= want);
    scattered_parts_make_the_sum(ts, sum);
    assert forall|k: int| 0 <= k < n implies match (#[trigger] gathered[k]) {
        Some(v) => outcome(CollectiveKind::RingAllReduce, ts, sum, k) == Some(v@),
        None => outcome(CollectiveKind::RingAllReduce, ts, sum, k) is None,
    } by {
        assert(outcome(CollectiveKind::AllGather, parts, unused, k) == Some(concatenated(parts)));
    }
}

/// Of tensors of one length, the longest is as long as the first.
pub proof fn longest_of_equals(ts: Seq<Seq<Ieee32>>)
    requires
        ts.len() > 0,
        same_len(ts),
    ensures
        max_len(ts) == ts[0].len(),
    decreases ts.len(),
{
    assert(ts.last().len() == ts[0].len());
    if ts.len() > 1 {
        let front = ts.drop_last();
        assert forall|i: int| 0 <= i < front.len() implies (#[trigger] front[i]).len()
            == front[0].len() by {
            assert(front[i] == ts[i]);
        }
        longest_of_equals(front);
    } else {
        assert(max_len(ts.drop_last()) == 0);
    }
}

/// Pieces of one length, put one after the other, can be cut apart again.
pub proof fn pieces_come_apart(pieces: Seq<Seq<Ieee32>>, chunk: int, k: int)
    requires
        chunk >= 0,
        forall|i: int| 0 <= i < pieces.len() ==> (#[trigger] pieces[i]).len() == chunk,
        0 <= k <= pieces.len(),
    ensures
        concatenated(pieces).len() == pieces.len() * chunk,
        k < pieces.len() ==> part(concatenated(pieces), chunk, k) == pieces[k],
    decreases pieces.len(),
{
    let n = pieces.len() as int;
    if n > 0 {
        let front = pieces.drop_last();
        let whole = concatenated(pieces);
        assert(pieces[n - 1].len() == chunk);
        assert((n - 1) * chunk + chunk == n * chunk) by (nonlinear_arith);
        if k < n - 1 {
            pieces_come_apart(front, chunk, k);
            assert(0 <= k * chunk <= (k + 1) * chunk <= (n - 1) * chunk) by (nonlinear_arith)
                requires
                    0 <= k < n - 1,
                    chunk >= 0,
            ;
            assert(part(whole, chunk, k) =~= part(concatenated(front), chunk, k));
        } else {
            pieces_come_apart(front, chunk, n - 1);
            if k == n - 1 {
                assert((k + 1) * chunk == k * chunk + chunk) by (nonlinear_arith);
                assert(part(whole, chunk, k) =~= pieces[k]);
            }
        }
    } else {
        assert(0 * chunk == 0) by (nonlinear_arith);
    }
}

/// An exchange of parts undoes itself: performed twice, it gives every participant its own
/// tensor back. After the first, the tensors are as long as before, so that the second
/// can be performed.
pub proof fn exchanging_twice_gives_back(
    ts: Seq<Seq<Ieee32>>,
    unused: Seq<Ieee32>,
    once: Seq<Option<Vec<Ieee32>>>,
    unused_again: Seq<Ieee32>,
    twice: Seq<Option<Vec<Ieee32>>>,
)
    requires
        ts.len() > 0,
        same_len(ts),
        ts[0].len() as int % ts.len() as int == 0,
        outcomes(CollectiveKind::AllToAll, ts, unused, once),
        outcomes(CollectiveKind::AllToAll, received(once), unused_again, twice),
    ensures
        forall|k: int|
            0 <= k < ts.len() ==> (#[trigger] received(once)[k]).len() == ts[0].len(),
        forall|k: int| 0 <= k < ts.len() ==> (#[trigger] twice[k]) is Some,
        received(twice) == ts,
{
    let n = ts.len() as int;
    let len = ts[0].len() as int;
    let chunk = len / n;
    let mid = received(once);
    assert(len == n * chunk) by (nonlinear_arith)
        requires
            n > 0,
            chunk == len / n,
            len % n == 0,
    ;
    assert(chunk >= 0) by (nonlinear_arith)
        requires
            n > 0,
            len >= 0,
            chunk == len / n,
    ;
    assert forall|k: int| 0 <= k < n implies (#[trigger] mid[k]).len() == len && forall|i: int|
        0 <= i < n ==> part(mid[k], chunk, i) == #[trigger] part(ts[i], chunk, k) by {
        assert(once[k] is Some);
        let pieces = Seq::new(
            ts.len(),
            |i: int| part(ts[i], ts[i].len() as int / ts.len() as int, k),
        );
        assert(mid[k] == concatenated(pieces));
        assert forall|i: int| 0 <= i < pieces.len() implies (#[trigger] pieces[i]).len() == chunk
            && pieces[i] == part(ts[i], chunk, k) by {
            assert(ts[i].len() == len);
            part_bounds(len, n, chunk, k);
        }
        pieces_come_apart(pieces, chunk, n);
        assert forall|i: int| 0 <= i < n implies part(mid[k], chunk, i) == #[trigger] part(
            ts[i],
            chunk,
            k,
        ) by {
            pieces_come_apart(pieces, chunk, i);
            assert(pieces[i] == part(ts[i], chunk, k));
        }
    }
    assert forall|k: int| 0 <= k < n implies (#[trigger] twice[k]) is Some && twice[k]->0@
        == ts[k] by {
        assert(outcome(CollectiveKind::AllToAll, mid, unused_again, k) == Some(exchanged(mid, k)));
        let back = Seq::new(
            mid.len(),
            |i: int| part(mid[i], mid[i].len() as int / mid.len() as int, k),
        );
        let own = Seq::new(n as nat, |i: int| part(ts[k], ts[k].len() as int / n, i));
        assert(ts[k].len() == len);
        assert forall|i: int| 0 <= i < n implies #[trigger] back[i] == own[i] by {
            assert(mid[i].len() == len);
            assert(part(mid[i], chunk, k) == part(ts[k], chunk, i));
        }
        assert(back =~= own);
        parts_make_the_whole(ts[k], n, n);
    }
    assert(received(twice) =~= ts);
}


/// What a participant ends up with is what the kind of the collective says: the sum of all
/// tensors after an all-reduce, all tensors in order after an all-gather, the first one after
/// a broadcast, its own part of the sum after a reduce-scatter; after an exchange of parts its
/// part `i` is participant `i`'s part for it; and a send leaves the first one's tensor with
/// the second participant, and every other with its own.
pub proof fn collectives_mean_what_they_say<F: Fn(Ieee32, Ieee32) -> Ieee32>(
    plus: F,
    kind: CollectiveKind,
    ts: Seq<Seq<Ieee32>>,
    sum: Seq<Ieee32>,
    res: Seq<Option<Vec<Ieee32>>>,
    k: int,
    i: int,
)
    requires
        ts.len() > 0,
        same_len(ts),
        kind == CollectiveKind::ReduceScatter || kind == CollectiveKind::AllToAll ==> ts[0].len()
            as int % ts.len() as int == 0,
        sums(plus, ts, sum),
        outcomes(kind, ts, sum, res),
        0 <= k < ts.len(),
        0 <= i < ts.len(),
    ensures
        res.len() == ts.len(),
        sum.len() == ts[0].len(),
        kind == CollectiveKind::RingAllReduce ==> res[k] is Some && res[k]->0@ == sum,
        kind == CollectiveKind::AllGather ==> res[k] is Some && res[k]->0@ == concatenated(ts),
        kind == CollectiveKind::Broadcast ==> res[k] is Some && res[k]->0@ == ts[0],
        kind == CollectiveKind::SendRecv ==> (k == 1 <==> res[k] is Some) && (k == 1
            ==> res[k]->0@ == ts[0]),
        kind == CollectiveKind::ReduceScatter ==> {
            let c = ts[0].len() as int / ts.len() as int;
            &&& res[k] is Some
            &&& res[k]->0@ == sum.subrange(k * c, k * c + c)
        },
        kind == CollectiveKind::AllToAll ==> {
            let c = ts[0].len() as int / ts.len() as int;
            &&& res[k] is Some
            &&& res[k]->0@.len() == ts[0].len()
            &&& res[k]->0@.subrange(i * c, i * c + c) == ts[i].subrange(k * c, k * c + c)
        },
{
    let n = ts.len() as int;
    let len = ts[0].len() as int;
    let c = len / n;
    longest_of_equals(ts);
    assert(res[k] is Some || res[k] is None);
    if kind == CollectiveKind::ReduceScatter {
        part_bounds(len, n, c, k);
    }
    if kind == CollectiveKind::AllToAll {
        let pieces = Seq::new(
            ts.len(),
            |q: int| part(ts[q], ts[q].len() as int / ts.len() as int, k),
        );
        assert(res[k]->0@ == concatenated(pieces));
        part_bounds(len, n, c, k);
        part_bounds(len, n, c, i);
        assert forall|q: int| 0 <= q < pieces.len() implies (#[trigger] pieces[q]).len() == c by {
            assert(ts[q].len() == len);
        }
        pieces_come_apart(pieces, c, i);
        assert(ts[i].len() == len);
        assert(pieces[i] == part(ts[i], c, k));
        assert(n * c == len) by (nonlinear_arith)
            requires
                n > 0,
                c == len / n,
                len % n == 0,
        ;
    }
}

/// Whoever takes part must be there: participants are accepted exactly when there are some and
/// every one is a runtime that is present and within the group.
pub proof fn participants_must_be_present(
    group: &MockCollective,
    participants: &Vec<usize>,
    num_runtimes: usize,
    res: Result<(), CollectiveError>,
)
    requires
        call_ensures(
            MockCollective::check_participants,
            (group, participants, num_runtimes),
            res,
        ),
    ensures
        res is Ok <==> participants@.len() > 0 && forall|i: int|
            0 <= i < participants@.len() ==> (#[trigger] participants@[i]) < num_runtimes
                && participants@[i] < group.num_devices,
{
    if participants@.len() > 0 {
        assert forall|i: int| 0 <= i < participants@.len() implies (participants@[i]
            < group.usable(num_runtimes) <==> (#[trigger] participants@[i]) < num_runtimes
            && participants@[i] < group.num_devices) by {}
    }
}

} // verus!
