//! A process's place in the rank world.

use vstd::prelude::*;

use crate::text::{parse_usize, parsed};

verus! {

/// Errors of the distributed layer.
#[derive(Debug, Clone, PartialEq, Eq)]
pub enum CollectiveError {
    /// The rank is not one of the world's.
    BadLayout { rank: usize, world_size: usize },
    /// An environment variable is not a number.
    BadEnv { what: &'static str },
    /// A rank's buffer is not as long as the group expects.
    LengthMismatch { rank: usize, got: usize, expected: usize },
    /// A rank panicked while it held the group's state.
    Poisoned,
    /// The rendezvous file could not be read or written; `source` says why.
    Rendezvous { path: String, source: String },
    /// The rendezvous file did not appear in time.
    RendezvousTimeout { ms: u64, path: String },
    /// The transport failed.
    Nccl(String),
}

/// This process's rank among `world_size`.
#[derive(Debug, Clone, Copy, PartialEq, Eq, Structural)]
pub struct WorldLayout {
    pub rank: usize,
    pub world_size: usize,
}

/// The layout that two texts describe. One that is no number is an error, the rank's before
/// the world size's.
pub open spec fn layout_of(rank: Seq<char>, world: Seq<char>) -> Result<
    WorldLayout,
    CollectiveError,
> {
    let r = parsed(rank);
    let w = parsed(world);
    if r is None {
        Err(CollectiveError::BadEnv { what: "SKEIN_RANK" })
    } else if w is None {
        Err(CollectiveError::BadEnv { what: "SKEIN_WORLD_SIZE" })
    } else if r->0 < w->0 {
        Ok(WorldLayout { rank: r->0, world_size: w->0 })
    } else {
        Err(CollectiveError::BadLayout { rank: r->0, world_size: w->0 })
    }
}

impl WorldLayout {
    /// Environment variables that the launcher sets per rank.
    pub const RANK_ENV: &'static str = "SKEIN_RANK";

    pub const WORLD_SIZE_ENV: &'static str = "SKEIN_WORLD_SIZE";

    pub fn new(rank: usize, world_size: usize) -> (res: Result<Self, CollectiveError>)
        ensures
            rank < world_size ==> res == Ok::<_, CollectiveError>(WorldLayout { rank, world_size }),
            rank >= world_size ==> res == Err::<WorldLayout, _>(
                CollectiveError::BadLayout { rank, world_size },
            ),
    {
        if world_size == 0 || rank >= world_size {
            return Err(CollectiveError::BadLayout { rank, world_size });
        }
        Ok(WorldLayout { rank, world_size })
    }

    /// The layout that the two environment variables describe; `None` where either is
    /// unset. A value that is no number is reported, the rank's before the world
    /// size's.
    pub fn from_vars(rank: Option<&str>, world: Option<&str>) -> (res: Option<
        Result<Self, CollectiveError>,
    >)
        ensures
            res is None <==> rank is None || world is None,
            rank is Some && world is Some ==> res->0 == layout_of(rank->0@, world->0@),
    {
        let r = match rank {
            Some(s) => s,
            None => {
                return None;
            },
        };
        let w = match world {
            Some(s) => s,
            None => {
                return None;
            },
        };
        let rank: usize = match parse_usize(r) {
            Some(n) => n,
            None => {
                return Some(Err(CollectiveError::BadEnv { what: Self::RANK_ENV }));
            },
        };
        let world_size: usize = match parse_usize(w) {
            Some(n) => n,
            None => {
                return Some(Err(CollectiveError::BadEnv { what: Self::WORLD_SIZE_ENV }));
            },
        };
        Some(Self::new(rank, world_size))
    }

    /// Whether this is the first rank.
    pub fn is_leader(&self) -> (res: bool)
        ensures
            res == (self.rank == 0),
    {
        self.rank == 0
    }
}

/// A rank has a place only in a world that is larger: a layout that is made has its rank below
/// its size, and every such pair is a layout; only the first rank leads.
pub proof fn ranks_lie_within_their_world(
    rank: usize,
    world_size: usize,
    res: Result<WorldLayout, CollectiveError>,
    leads: bool,
)
    requires
        call_ensures(WorldLayout::new, (rank, world_size), res),
        res is Ok ==> call_ensures(WorldLayout::is_leader, (&res->Ok_0,), leads),
    ensures
        res is Ok <==> rank < world_size,
        res matches Ok(l) ==> l.rank == rank && l.world_size == world_size && (leads <==> rank == 0),
        res is Err ==> res == Err::<WorldLayout, _>(CollectiveError::BadLayout { rank, world_size }),
{
}

/// What the environment says is what counts: a layout is read exactly from two numbers of which
/// the first is smaller.
pub proof fn layouts_are_read_from_two_numbers(
    rank: &str,
    world: &str,
    res: Option<Result<WorldLayout, CollectiveError>>,
)
    requires
        call_ensures(WorldLayout::from_vars, (Some(rank), Some(world)), res),
    ensures
        res is Some,
        res->0 is Ok <==> parsed(rank@) is Some && parsed(world@) is Some && parsed(rank@)->0
            < parsed(world@)->0,
        res->0 matches Ok(l) ==> parsed(rank@) == Some(l.rank) && parsed(world@) == Some(
            l.world_size,
        ),
{
}

} // verus!
