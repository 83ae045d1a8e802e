//! What a group of ranks computes when it meets at a barrier: the leader combines the
//! ranks' buffers, and every rank reads the result.

use vstd::prelude::*;

use crate::ieee::Ieee32;
use crate::runtime::collectives::{longest_of_equals, pieces_come_apart, same_len};
use crate::runtime::distributed::segment_runner::copy_values;
use crate::runtime::distributed::world::CollectiveError;
use crate::runtime::tensor::{
    column, concat, concatenated, elementwise_sum, every_tensor_counts, folds_to, sums, tensor_views,
};

verus! {

/// Checks that a group has members.
pub fn check_group(world_size: usize) -> (res: Result<(), CollectiveError>)
    ensures
        world_size > 0 ==> res == Ok::<(), CollectiveError>(()),
        world_size == 0 ==> res == Err::<(), _>(
            CollectiveError::BadLayout { rank: 0, world_size: 0 },
        ),
{
    if world_size == 0 {
        return Err(CollectiveError::BadLayout { rank: 0, world_size });
    }
    Ok(())
}

/// The sum that the leader forms of all ranks' buffers. Every buffer must be as long as
/// the leader's; the error names the first that is not.
pub fn reduce_slots<F: Fn(Ieee32, Ieee32) -> Ieee32>(
    slots: &Vec<Vec<Ieee32>>,
    leader: usize,
    plus: &F,
) -> (res: Result<Vec<Ieee32>, CollectiveError>)
    requires
        leader < slots@.len(),
        forall|a: Ieee32, b: Ieee32| call_requires(*plus, (a, b)),
    ensures
        ({
            let ts = tensor_views(slots@);
            let len = ts[leader as int].len();
            &&& res is Ok <==> forall|r: int| 0 <= r < ts.len() ==> (#[trigger] ts[r]).len() == len
            &&& res is Ok ==> sums(*plus, ts, res->Ok_0@)
            &&& res is Err ==> exists|r: int|
                {
                    &&& 0 <= r < ts.len()
                    &&& (#[trigger] ts[r]).len() != len
                    &&& forall|q: int| 0 <= q < r ==> (#[trigger] ts[q]).len() == len
                    &&& res == Err::<Vec<Ieee32>, _>(
                        CollectiveError::LengthMismatch {
                            rank: r as usize,
                            got: ts[r].len() as usize,
                            expected: len as usize,
                        },
                    )
                }
        }),
{
    let ghost ts = tensor_views(slots@);
    assert(ts[leader as int] == slots@[leader as int]@);
    let len: usize = slots[leader].len();
    let mut r: usize = 0;
    while r < slots.len()
        invariant
            r <= slots@.len(),
            leader < slots@.len(),
            ts == tensor_views(slots@),
            len == ts[leader as int].len(),
            forall|q: int| 0 <= q < r ==> (#[trigger] ts[q]).len() == len,
        decreases slots.len() - r,
    {
        assert(ts[r as int] == slots@[r as int]@);
        let got: usize = slots[r].len();
        if got != len {
            assert(ts[r as int].len() != len);
            return Err(CollectiveError::LengthMismatch { rank: r, got, expected: len });
        }
        r += 1;
    }
    Ok(elementwise_sum(slots, plus))
}

/// All ranks' buffers one after the other, in rank order.
pub fn gather_slots(slots: &Vec<Vec<Ieee32>>) -> (res: Vec<Ieee32>)
    ensures
        res@ == concatenated(tensor_views(slots@)),
{
    concat(slots)
}

/// What a rank with a buffer of `len` elements reads of the result: all of it, if it fits
/// the buffer exactly.
pub fn read_result(rank: usize, len: usize, result: &Vec<Ieee32>) -> (res: Result<
    Vec<Ieee32>,
    CollectiveError,
>)
    ensures
        result@.len() == len ==> res is Ok && res->Ok_0@ == result@,
        result@.len() != len ==> res == Err::<Vec<Ieee32>, _>(
            CollectiveError::LengthMismatch {
                rank,
                got: len,
                expected: result@.len() as usize,
            },
        ),
{
    if result.len() != len {
        return Err(CollectiveError::LengthMismatch { rank, got: len, expected: result.len() });
    }
    Ok(copy_values(result))
}

/// Gathering is in rank order: buffers of one length can be cut out of the result again, each
/// at its rank's place, and nothing else is in it.
pub proof fn gathering_is_in_rank_order(
    slots: &Vec<Vec<Ieee32>>,
    len: int,
    res: Vec<Ieee32>,
    rank: int,
)
    requires
        call_ensures(gather_slots, (slots,), res),
        len >= 0,
        forall|r: int| 0 <= r < slots@.len() ==> (#[trigger] slots@[r])@.len() == len,
        0 <= rank < slots@.len(),
    ensures
        res@.len() == slots@.len() * len,
        res@.subrange(rank * len, (rank + 1) * len) == slots@[rank]@,
{
    let ts = tensor_views(slots@);
    assert forall|r: int| 0 <= r < ts.len() implies (#[trigger] ts[r]).len() == len by {
        assert(ts[r] == slots@[r]@);
    }
    pieces_come_apart(ts, len, rank);
}

/// Every rank reads the whole result, or an error where its own buffer does not fit it.
pub proof fn ranks_read_the_whole_result(
    rank: usize,
    len: usize,
    result: &Vec<Ieee32>,
    res: Result<Vec<Ieee32>, CollectiveError>,
)
    requires
        call_ensures(read_result, (rank, len, result), res),
    ensures
        res is Ok <==> len == result@.len(),
        res is Ok ==> res->Ok_0@ == result@,
        res is Err ==> res->Err_0 == (CollectiveError::LengthMismatch {
            rank,
            got: len,
            expected: result@.len() as usize,
        }),
{
}

/// The leader's sum takes every rank's buffer, all of the leader's length: it has an element per
/// place, each the buffers' elements there added up in rank order.
pub proof fn the_leader_sums_all_ranks<F: Fn(Ieee32, Ieee32) -> Ieee32>(
    slots: &Vec<Vec<Ieee32>>,
    leader: usize,
    plus: &F,
    res: Result<Vec<Ieee32>, CollectiveError>,
    r: int,
    j: int,
)
    requires
        call_ensures(reduce_slots::<F>, (slots, leader, plus), res),
        leader < slots@.len(),
        0 <= r < slots@.len(),
    ensures
        res is Ok ==> slots@[r]@.len() == slots@[leader as int]@.len(),
        (forall|q: int|
            0 <= q < slots@.len() ==> (#[trigger] slots@[q])@.len() == slots@[leader as int]@.len())
            ==> res is Ok,
        res is Ok ==> res->Ok_0@.len() == slots@[leader as int]@.len(),
        res is Ok && 0 <= j < res->Ok_0@.len() ==> {
            let there = column(tensor_views(slots@), j);
            &&& folds_to(*plus, there, res->Ok_0@[j])
            &&& there.len() == slots@.len()
            &&& there[r] == slots@[r]@[j]
        },
{
    let ts = tensor_views(slots@);
    let len = ts[leader as int].len();
    assert(ts[leader as int] == slots@[leader as int]@);
    assert(ts[r] == slots@[r]@);
    if forall|q: int|
        0 <= q < slots@.len() ==> (#[trigger] slots@[q])@.len() == slots@[leader as int]@.len() {
        assert forall|q: int| 0 <= q < ts.len() implies (#[trigger] ts[q]).len() == len by {
            assert(ts[q] == slots@[q]@);
        }
    }
    if res is Ok {
        assert(same_len(ts)) by {
            assert forall|q: int| 0 <= q < ts.len() implies (#[trigger] ts[q]).len()
                == ts[0].len() by {
                assert(ts[q].len() == len && ts[0].len() == len);
            }
        }
        longest_of_equals(ts);
        if 0 <= j < res->Ok_0@.len() {
            assert forall|k: int| 0 <= k < ts.len() implies j < (#[trigger] ts[k]).len() by {
                assert(ts[k].len() == len);
            }
            every_tensor_counts(ts, j, r);
        }
    }
}

} // verus!
