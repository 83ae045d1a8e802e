//! Launch plan: one process per rank, each with a GPU of its own.

use vstd::prelude::*;

use crate::runtime::distributed::world::{layout_of, CollectiveError, WorldLayout};
use crate::text::{decimal, numerals_read_back, push_decimal};

verus! {

/// Environment variable that carries the rendezvous file's path to each rank.
pub const RENDEZVOUS_ENV: &'static str = "SKEIN_RENDEZVOUS";

/// The standard CUDA device-isolation variable.
pub const CUDA_VISIBLE_DEVICES_ENV: &'static str = "CUDA_VISIBLE_DEVICES";

/// How one rank is launched.
#[derive(Debug, Clone, PartialEq, Eq)]
pub struct RankLaunchSpec {
    pub rank: usize,
    pub world_size: usize,
    /// The GPU that becomes the process's device zero.
    pub gpu: usize,
    pub rendezvous: String,
}

/// Gives rank `i` the GPU `gpus[i]`; there are as many ranks as GPUs.
pub fn plan_launch(gpus: &[usize], rendezvous: &str) -> (res: Result<
    Vec<RankLaunchSpec>,
    CollectiveError,
>)
    ensures
        gpus@.len() == 0 ==> res == Err::<Vec<RankLaunchSpec>, _>(
            CollectiveError::BadLayout { rank: 0, world_size: 0 },
        ),
        gpus@.len() > 0 ==> {
            &&& res is Ok
            &&& res->Ok_0@.len() == gpus@.len()
            &&& forall|i: int|
                0 <= i < gpus@.len() ==> {
                    &&& (#[trigger] res->Ok_0@[i]).rank == i
                    &&& res->Ok_0@[i].world_size == gpus@.len()
                    &&& res->Ok_0@[i].gpu == gpus@[i]
                    &&& res->Ok_0@[i].rendezvous@ == rendezvous@
                }
        },
{
    let world_size: usize = gpus.len();
    if world_size == 0 {
        return Err(CollectiveError::BadLayout { rank: 0, world_size });
    }
    let mut out: Vec<RankLaunchSpec> = Vec::new();
    let mut rank: usize = 0;
    while rank < world_size
        invariant
            rank <= world_size,
            world_size == gpus@.len(),
            out@.len() == rank,
            forall|i: int|
                0 <= i < rank ==> {
                    &&& (#[trigger] out@[i]).rank == i
                    &&& out@[i].world_size == gpus@.len()
                    &&& out@[i].gpu == gpus@[i]
                    &&& out@[i].rendezvous@ == rendezvous@
                },
        decreases world_size - rank,
    {
        out.push(
            RankLaunchSpec {
                rank,
                world_size,
                gpu: gpus[rank],
                rendezvous: rendezvous.to_owned(),
            },
        );
        rank += 1;
    }
    Ok(out)
}

/// The decimal numeral of a number.
fn numeral(n: usize) -> (res: String)
    ensures
        res@ == decimal(n as nat),
{
    let mut s = String::new();
    push_decimal(&mut s, n as u64);
    assert(s@ =~= decimal(n as nat));
    s
}

/// The environment that a rank's process is given, so that it finds its GPU, its place in
/// the world and its peers.
pub fn rank_environment(spec: &RankLaunchSpec) -> (res: Vec<(&'static str, String)>)
    ensures
        res@.len() == 4,
        res@[0].0@ == "CUDA_VISIBLE_DEVICES"@ && res@[0].1@ == decimal(spec.gpu as nat),
        res@[1].0@ == "SKEIN_RANK"@ && res@[1].1@ == decimal(spec.rank as nat),
        res@[2].0@ == "SKEIN_WORLD_SIZE"@ && res@[2].1@ == decimal(spec.world_size as nat),
        res@[3].0@ == "SKEIN_RENDEZVOUS"@ && res@[3].1@ == spec.rendezvous@,
{
    let mut out: Vec<(&'static str, String)> = Vec::new();
    out.push((CUDA_VISIBLE_DEVICES_ENV, numeral(spec.gpu)));
    out.push((WorldLayout::RANK_ENV, numeral(spec.rank)));
    out.push((WorldLayout::WORLD_SIZE_ENV, numeral(spec.world_size)));
    out.push((RENDEZVOUS_ENV, spec.rendezvous.clone()));
    out
}

/// A rank that is launched with its environment finds its own place in the world.
pub proof fn launched_ranks_find_their_place(spec: RankLaunchSpec)
    requires
        spec.rank < spec.world_size,
    ensures
        layout_of(decimal(spec.rank as nat), decimal(spec.world_size as nat)) == Ok::<
            _,
            CollectiveError,
        >(WorldLayout { rank: spec.rank, world_size: spec.world_size }),
{
    numerals_read_back(spec.rank);
    numerals_read_back(spec.world_size);
}

/// Every GPU gets one rank, and every rank finds its place: the process launched for the
/// `i`-th GPU sees that GPU, meets the others where it was told, and reads from its
/// environment that it is rank `i` of as many as there are GPUs.
pub proof fn every_gpu_gets_one_rank(
    gpus: &[usize],
    rendezvous: &str,
    specs: Result<Vec<RankLaunchSpec>, CollectiveError>,
    i: int,
    env: Vec<(&'static str, String)>,
    rank: &str,
    world: &str,
    layout: Option<Result<WorldLayout, CollectiveError>>,
)
    requires
        call_ensures(plan_launch, (gpus, rendezvous), specs),
        0 <= i < gpus@.len(),
        call_ensures(rank_environment, (&specs->Ok_0@[i],), env),
        rank@ == env@[1].1@,
        world@ == env@[2].1@,
        call_ensures(WorldLayout::from_vars, (Some(rank), Some(world)), layout),
    ensures
        specs is Ok,
        specs->Ok_0@.len() == gpus@.len(),
        env@[0].0@ == "CUDA_VISIBLE_DEVICES"@,
        env@[0].1@ == decimal(gpus@[i] as nat),
        env@[1].0@ == "SKEIN_RANK"@,
        env@[2].0@ == "SKEIN_WORLD_SIZE"@,
        env@[3].1@ == rendezvous@,
        layout == Some(
            Ok::<_, CollectiveError>(
                WorldLayout { rank: i as usize, world_size: gpus@.len() as usize },
            ),
        ),
{
    let spec = specs->Ok_0@[i];
    assert(spec.rank == i);
    assert(gpus@.len() <= usize::MAX);
    launched_ranks_find_their_place(spec);
}

} // verus!
