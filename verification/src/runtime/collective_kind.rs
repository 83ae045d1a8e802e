//! The kinds of collective that a schedule may contain.

use vstd::prelude::*;

verus! {

#[derive(Debug, Clone, Copy, PartialEq, Eq, Hash, Structural)]
pub enum CollectiveKind {
    RingAllReduce,
    AllGather,
    ReduceScatter,
    AllToAll,
    Broadcast,
    SendRecv,
}

} // verus!
